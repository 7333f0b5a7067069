//! Database configuration.

use vstd::prelude::*;

verus! {

/// Worker-pool size used when the host has not chosen one; hosts
/// that can detect their parallelism override it with
/// [`Config::with_threads`].
pub const DEFAULT_THREADS: usize = 4;

/// WAL group-commit cadence used when the host has not chosen one,
/// in milliseconds.
pub const DEFAULT_WAL_FLUSH_INTERVAL_MS: u64 = 100;

/// Database configuration.
#[derive(Debug)]
pub struct Config {
    /// Path to the database directory (`None` for in-memory only).
    pub path: Option<String>,
    /// Memory limit in bytes (`None` for unlimited).
    pub memory_limit: Option<usize>,
    /// Path for spilling data to disk under memory pressure.
    pub spill_path: Option<String>,
    /// Number of worker threads for query execution.
    pub threads: usize,
    /// Whether to enable the WAL for durability.
    pub wal_enabled: bool,
    /// WAL flush interval in milliseconds.
    pub wal_flush_interval_ms: u64,
    /// Whether to maintain backward edges.
    pub backward_edges: bool,
    /// Whether to enable query logging.
    pub query_logging: bool,
}

impl Clone for Config {
    /// Copy; the copy holds the same settings.
    fn clone(&self) -> (r: Config)
        ensures
            r.path is Some <==> self.path is Some,
            self.path is Some ==> r.path->0@ == self.path->0@,
            r.memory_limit == self.memory_limit,
            r.spill_path is Some <==> self.spill_path is Some,
            self.spill_path is Some ==> r.spill_path->0@ == self.spill_path->0@,
            r.threads == self.threads,
            r.wal_enabled == self.wal_enabled,
            r.wal_flush_interval_ms == self.wal_flush_interval_ms,
            r.backward_edges == self.backward_edges,
            r.query_logging == self.query_logging,
    {
        Config {
            path: match &self.path {
                Some(p) => Some(p.clone()),
                None => None,
            },
            memory_limit: self.memory_limit,
            spill_path: match &self.spill_path {
                Some(p) => Some(p.clone()),
                None => None,
            },
            threads: self.threads,
            wal_enabled: self.wal_enabled,
            wal_flush_interval_ms: self.wal_flush_interval_ms,
            backward_edges: self.backward_edges,
            query_logging: self.query_logging,
        }
    }
}

impl Default for Config {
    /// In-process defaults: no persistence, no memory limit, the
    /// default worker-pool size, WAL on at the default cadence,
    /// backward edges on, query logging off.
    fn default() -> (r: Config)
        ensures
            r.path is None,
            r.memory_limit is None,
            r.spill_path is None,
            r.threads == DEFAULT_THREADS,
            r.wal_enabled,
            r.wal_flush_interval_ms == DEFAULT_WAL_FLUSH_INTERVAL_MS,
            r.backward_edges,
            !r.query_logging,
    {
        Config {
            path: None,
            memory_limit: None,
            spill_path: None,
            threads: DEFAULT_THREADS,
            wal_enabled: true,
            wal_flush_interval_ms: DEFAULT_WAL_FLUSH_INTERVAL_MS,
            backward_edges: true,
            query_logging: false,
        }
    }
}

impl Config {
    /// Creates a new configuration for an in-memory database: no
    /// path, no WAL, all other settings at their defaults.
    pub fn in_memory() -> (r: Config)
        ensures
            r.path is None,
            !r.wal_enabled,
            r.memory_limit is None,
            r.spill_path is None,
            r.threads == DEFAULT_THREADS,
            r.wal_flush_interval_ms == DEFAULT_WAL_FLUSH_INTERVAL_MS,
            r.backward_edges,
            !r.query_logging,
    {
        let mut c = Config::default();
        c.wal_enabled = false;
        c
    }

    /// Creates a new configuration for a persistent database rooted
    /// at `path`, with the WAL enabled and all other settings at
    /// their defaults.
    pub fn persistent(path: &str) -> (r: Config)
        ensures
            r.path is Some && r.path->0@ == path@,
            r.wal_enabled,
            r.memory_limit is None,
            r.spill_path is None,
            r.threads == DEFAULT_THREADS,
            r.wal_flush_interval_ms == DEFAULT_WAL_FLUSH_INTERVAL_MS,
            r.backward_edges,
            !r.query_logging,
    {
        let mut c = Config::default();
        c.path = Some(path.to_owned());
        c
    }

    /// Sets the memory limit; everything else is kept.
    pub fn with_memory_limit(self, limit: usize) -> (r: Config)
        ensures
            r == (Config { memory_limit: Some(limit), ..self }),
    {
        Config { memory_limit: Some(limit), ..self }
    }

    /// Sets the number of worker threads; everything else is kept.
    pub fn with_threads(self, threads: usize) -> (r: Config)
        ensures
            r == (Config { threads, ..self }),
    {
        Config { threads, ..self }
    }

    /// Disables backward edges; everything else is kept.
    pub fn without_backward_edges(self) -> (r: Config)
        ensures
            r == (Config { backward_edges: false, ..self }),
    {
        Config { backward_edges: false, ..self }
    }

    /// Enables query logging; everything else is kept.
    pub fn with_query_logging(self) -> (r: Config)
        ensures
            r == (Config { query_logging: true, ..self }),
    {
        Config { query_logging: true, ..self }
    }

    /// Sets the spill directory for out-of-core processing;
    /// everything else is kept.
    pub fn with_spill_path(self, path: &str) -> (r: Config)
        ensures
            r.spill_path is Some && r.spill_path->0@ == path@,
            r.path == self.path,
            r.memory_limit == self.memory_limit,
            r.threads == self.threads,
            r.wal_enabled == self.wal_enabled,
            r.wal_flush_interval_ms == self.wal_flush_interval_ms,
            r.backward_edges == self.backward_edges,
            r.query_logging == self.query_logging,
    {
        Config { spill_path: Some(path.to_owned()), ..self }
    }
}

} // verus!
