//! Core pieces of an embeddable labeled-property-graph engine:
//! tagged scalar values; columnar property storage with zone-map
//! pruning; chunked adjacency with delta buffers and tombstones;
//! columnar execution batches; memory accounting with a grant
//! lifecycle; engine configuration; and a Gremlin front end that
//! lowers query strings to a logical operator tree whose variable
//! references are all accounted for.

pub mod adjacency;
pub mod ast;
pub mod buffer;
pub mod chunk;
pub mod config;
pub mod dictionary;
pub mod error;
pub mod graph;
pub mod index;
pub mod parser;
pub mod plan;
pub mod property;
pub mod translator;
pub mod value;
pub mod zone_map;
