//! Tests of the chunked adjacency index and of the execution
//! chunks: visibility after edits, flushes and tombstones, and the
//! chunk width invariant at the API edge.

use grafeo::adjacency::{AdjacencyList, AdjEntry, ChunkedAdjacency};
use grafeo::chunk::{DataChunk, ValueVector};
use grafeo::dictionary::Dictionary;
use grafeo::index::{HashIndex, OrderedIndex};
use grafeo::value::{EdgeId, NodeId, Value};

fn entry(etype: u64, dst: u64, edge: u64) -> AdjEntry {
    AdjEntry { etype, dst, edge }
}

fn as_sorted(mut v: Vec<AdjEntry>) -> Vec<AdjEntry> {
    v.sort_by_key(|e| (e.etype, e.dst, e.edge));
    v
}

#[test]
fn adjacency_add_then_read() {
    let mut adj = AdjacencyList::new(16);
    adj.add(entry(1, 10, 100));
    adj.add(entry(1, 11, 101));
    adj.add(entry(2, 12, 102));

    let got = as_sorted(adj.neighbors());
    assert_eq!(got, vec![entry(1, 10, 100), entry(1, 11, 101), entry(2, 12, 102)]);
}

#[test]
fn adjacency_visible_across_flushes() {
    // A threshold of two forces flushes while entries keep arriving.
    let mut adj = AdjacencyList::new(2);
    adj.add(entry(3, 30, 300));
    adj.add(entry(1, 10, 100));
    adj.add(entry(2, 20, 200));
    adj.add(entry(1, 11, 101));
    adj.add(entry(9, 90, 900));

    let got = as_sorted(adj.neighbors());
    assert_eq!(
        got,
        vec![
            entry(1, 10, 100),
            entry(1, 11, 101),
            entry(2, 20, 200),
            entry(3, 30, 300),
            entry(9, 90, 900),
        ]
    );
}

#[test]
fn adjacency_remove_from_delta_and_from_chunks() {
    // Threshold one settles every entry at once: removal must go
    // through a tombstone.
    let mut adj = AdjacencyList::new(1);
    adj.add(entry(1, 10, 100));
    adj.add(entry(1, 11, 101));
    adj.remove(101);
    let got = as_sorted(adj.neighbors());
    assert_eq!(got, vec![entry(1, 10, 100)]);

    // A large threshold keeps entries in the delta: removal drops
    // them directly.
    let mut adj2 = AdjacencyList::new(100);
    adj2.add(entry(1, 10, 100));
    adj2.add(entry(1, 11, 101));
    adj2.remove(100);
    let got2 = as_sorted(adj2.neighbors());
    assert_eq!(got2, vec![entry(1, 11, 101)]);
}

#[test]
fn adjacency_by_type_filters_and_skips() {
    let mut adj = AdjacencyList::new(2);
    adj.add(entry(1, 10, 100));
    adj.add(entry(2, 20, 200));
    adj.add(entry(1, 11, 101));
    adj.add(entry(3, 30, 300));
    adj.add(entry(1, 12, 102));

    let got = as_sorted(adj.neighbors_by_type(1));
    assert_eq!(got, vec![entry(1, 10, 100), entry(1, 11, 101), entry(1, 12, 102)]);
    assert!(adj.neighbors_by_type(7).is_empty());
}

#[test]
fn chunked_adjacency_keeps_sources_apart() {
    let mut index = ChunkedAdjacency::new(2);
    let a = NodeId::new(1);
    let b = NodeId::new(2);
    index.add_edge(a, 5, NodeId::new(10), EdgeId::new(100));
    index.add_edge(a, 5, NodeId::new(11), EdgeId::new(101));
    index.add_edge(b, 5, NodeId::new(12), EdgeId::new(102));

    assert_eq!(index.neighbors(a).len(), 2);
    assert_eq!(index.neighbors(b).len(), 1);
    assert!(index.neighbors(NodeId::new(99)).is_empty());

    index.remove_edge(a, EdgeId::new(100));
    let got = as_sorted(index.neighbors(a));
    assert_eq!(got, vec![entry(5, 11, 101)]);
    assert_eq!(index.neighbors(b).len(), 1);

    let typed = index.neighbors_by_type(b, 5);
    assert_eq!(typed, vec![entry(5, 12, 102)]);
    assert!(index.neighbors_by_type(b, 6).is_empty());
}

#[test]
fn value_vector_tracks_validity() {
    let mut v = ValueVector::new(4);
    assert_eq!(v.capacity(), 4);
    assert!(v.get(0).is_none());

    v.set(0, Value::Int64(7));
    v.set(1, Value::Str("x".to_string()));
    v.set(2, Value::Null);
    assert_eq!(v.get(0), Some(Value::Int64(7)));
    assert_eq!(v.get(1), Some(Value::Str("x".to_string())));
    assert!(v.get(2).is_none());
    assert!(v.get(3).is_none());

    // Overwriting with null clears the slot again.
    v.set(0, Value::Null);
    assert!(v.get(0).is_none());
}

#[test]
fn data_chunk_width_invariant_at_construction() {
    // Agreeing columns are accepted.
    let cols = vec![ValueVector::new(8), ValueVector::new(8)];
    let chunk = DataChunk::from_vectors(8, cols);
    assert!(chunk.is_some());

    // A column of another capacity is refused.
    let bad = vec![ValueVector::new(8), ValueVector::new(4)];
    assert!(DataChunk::from_vectors(8, bad).is_none());
}

#[test]
fn data_chunk_selection_stays_in_bounds() {
    let mut chunk = DataChunk::new(4, 2);
    assert_eq!(chunk.active_count(), 4);
    assert_eq!(chunk.active_rows(), vec![0, 1, 2, 3]);

    // Narrowing to valid rows changes the selection without
    // touching the columns.
    assert!(chunk.narrow(vec![3, 1]));
    assert_eq!(chunk.active_count(), 2);
    assert_eq!(chunk.active_rows(), vec![3, 1]);

    // An out-of-range row is refused and the selection is kept.
    assert!(!chunk.narrow(vec![0, 4]));
    assert_eq!(chunk.active_rows(), vec![3, 1]);
}

#[test]
fn data_chunk_cell_round_trip() {
    let mut chunk = DataChunk::new(3, 2);
    assert!(chunk.get(0, 0).is_none());
    chunk.set(0, 0, Value::Int64(42));
    chunk.set(1, 2, Value::Str("row".to_string()));
    assert_eq!(chunk.get(0, 0), Some(Value::Int64(42)));
    assert_eq!(chunk.get(1, 2), Some(Value::Str("row".to_string())));
    assert!(chunk.get(1, 0).is_none());
}

#[test]
fn hash_index_point_lookup() {
    let mut idx = HashIndex::new(false);
    assert!(idx.insert(7, 100));
    assert!(idx.insert(7, 101));
    assert!(idx.insert(9, 102));
    assert_eq!(idx.lookup(7), vec![100, 101]);
    assert_eq!(idx.lookup(9), vec![102]);
    assert!(idx.lookup(8).is_empty());
}

#[test]
fn unique_hash_index_reports_conflicts() {
    let mut idx = HashIndex::new(true);
    assert!(idx.insert(7, 100));
    // The same posting again is fine and changes nothing.
    assert!(idx.insert(7, 100));
    // A second id under the key is the constraint violation.
    assert!(!idx.insert(7, 999));
    assert_eq!(idx.lookup(7), vec![100]);
}

#[test]
fn ordered_index_range_lookup() {
    let mut idx = OrderedIndex::new();
    idx.insert(30, 1);
    idx.insert(10, 2);
    idx.insert(20, 3);
    idx.insert(25, 4);
    idx.insert(20, 5);

    let got = idx.range(15, 25);
    let keys: Vec<u64> = got.iter().map(|p| p.0).collect();
    assert_eq!(keys, vec![20, 20, 25]);
    let ids: std::collections::BTreeSet<u64> = got.iter().map(|p| p.1).collect();
    assert_eq!(ids.into_iter().collect::<Vec<u64>>(), vec![3, 4, 5]);

    assert!(idx.range(40, 50).is_empty());
    assert_eq!(idx.range(10, 10), vec![(10, 2)]);
}

#[test]
fn dictionary_interns_each_name_once() {
    let mut dict = Dictionary::new();
    let person = dict.intern("Person");
    let knows = dict.intern("knows");
    assert_ne!(person, knows);
    // Interning again yields the same id and adds nothing.
    assert_eq!(dict.intern("Person"), person);
    assert_eq!(dict.len(), 2);

    assert_eq!(dict.resolve(person), Some("Person"));
    assert_eq!(dict.resolve(knows), Some("knows"));
    assert!(dict.resolve(2).is_none());
    assert_eq!(dict.lookup("knows"), Some(knows));
    assert!(dict.lookup("likes").is_none());
}
