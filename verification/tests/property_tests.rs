//! Tests of the columnar property storage: round trips, removal,
//! zone-map maintenance and predicate skipping.

use std::cmp::Ordering;

use grafeo::property::{CompareOp, PropertyColumn, PropertyStorage};
use grafeo::value::{compare_values, NodeId, PropertyKey, Value};

#[test]
fn test_property_storage_basic() {
    let mut storage = PropertyStorage::new();

    let node1 = NodeId::new(1);
    let node2 = NodeId::new(2);
    let name_key = PropertyKey::new("name");
    let age_key = PropertyKey::new("age");

    storage.set(node1, name_key.clone(), Value::Str("Alice".to_string()));
    storage.set(node1, age_key.clone(), Value::Int64(30));
    storage.set(node2, name_key.clone(), Value::Str("Bob".to_string()));

    assert_eq!(
        storage.get(node1, &name_key),
        Some(Value::Str("Alice".to_string()))
    );
    assert_eq!(storage.get(node1, &age_key), Some(Value::Int64(30)));
    assert_eq!(
        storage.get(node2, &name_key),
        Some(Value::Str("Bob".to_string()))
    );
    assert!(storage.get(node2, &age_key).is_none());
}

#[test]
fn test_property_storage_remove() {
    let mut storage = PropertyStorage::new();

    let node = NodeId::new(1);
    let key = PropertyKey::new("name");

    storage.set(node, key.clone(), Value::Str("Alice".to_string()));
    assert!(storage.get(node, &key).is_some());

    let removed = storage.remove(node, &key);
    assert!(removed.is_some());
    assert!(storage.get(node, &key).is_none());
}

#[test]
fn test_property_storage_get_all() {
    let mut storage = PropertyStorage::new();

    let node = NodeId::new(1);
    storage.set(node, PropertyKey::new("name"), Value::Str("Alice".to_string()));
    storage.set(node, PropertyKey::new("age"), Value::Int64(30));
    storage.set(node, PropertyKey::new("active"), Value::Bool(true));

    let props = storage.get_all(node);
    assert_eq!(props.len(), 3);
}

#[test]
fn test_property_storage_remove_all() {
    let mut storage = PropertyStorage::new();

    let node = NodeId::new(1);
    storage.set(node, PropertyKey::new("name"), Value::Str("Alice".to_string()));
    storage.set(node, PropertyKey::new("age"), Value::Int64(30));

    storage.remove_all(node);

    assert!(storage.get(node, &PropertyKey::new("name")).is_none());
    assert!(storage.get(node, &PropertyKey::new("age")).is_none());
}

#[test]
fn test_property_column() {
    let mut col = PropertyColumn::new();

    col.set(NodeId::new(1), Value::Str("Alice".to_string()));
    col.set(NodeId::new(2), Value::Str("Bob".to_string()));

    assert_eq!(col.len(), 2);
    assert!(!col.is_empty());

    assert_eq!(col.get(NodeId::new(1)), Some(Value::Str("Alice".to_string())));

    col.remove(NodeId::new(1));
    assert!(col.get(NodeId::new(1)).is_none());
    assert_eq!(col.len(), 1);
}

#[test]
fn round_trip_overwrite() {
    let mut col = PropertyColumn::new();
    col.set(NodeId::new(7), Value::Int64(1));
    col.set(NodeId::new(7), Value::Int64(2));
    assert_eq!(col.get(NodeId::new(7)), Some(Value::Int64(2)));
    assert_eq!(col.len(), 1);
}

#[test]
fn zone_map_tracks_min_max_and_nulls() {
    let mut col = PropertyColumn::new();
    col.set(NodeId::new(1), Value::Int64(30));
    col.set(NodeId::new(2), Value::Int64(25));
    col.set(NodeId::new(3), Value::Int64(40));
    col.set(NodeId::new(4), Value::Null);

    let zm = col.zone_map();
    assert_eq!(zm.row_count, 4);
    assert_eq!(zm.null_count, 1);
    assert_eq!(zm.min, Some(Value::Int64(25)));
    assert_eq!(zm.max, Some(Value::Int64(40)));
}

#[test]
fn zone_map_skips_out_of_range_predicates() {
    let mut col = PropertyColumn::new();
    col.set(NodeId::new(1), Value::Int64(25));
    col.set(NodeId::new(2), Value::Int64(30));
    col.set(NodeId::new(3), Value::Int64(40));

    // Provably no match: the checks may answer false.
    assert!(!col.might_match(CompareOp::Eq, &Value::Int64(10)));
    assert!(!col.might_match(CompareOp::Eq, &Value::Int64(50)));
    assert!(!col.might_match(CompareOp::Lt, &Value::Int64(25)));
    assert!(!col.might_match(CompareOp::Le, &Value::Int64(24)));
    assert!(!col.might_match(CompareOp::Gt, &Value::Int64(40)));
    assert!(!col.might_match(CompareOp::Ge, &Value::Int64(41)));

    // Possible matches must never be ruled out.
    assert!(col.might_match(CompareOp::Eq, &Value::Int64(30)));
    assert!(col.might_match(CompareOp::Lt, &Value::Int64(26)));
    assert!(col.might_match(CompareOp::Gt, &Value::Int64(39)));
    assert!(col.might_match(CompareOp::Ne, &Value::Int64(30)));

    // A value of another kind can never be ruled in or out unsoundly:
    // the answer stays conservative.
    assert!(col.might_match(CompareOp::Eq, &Value::Str("x".to_string())));
}

#[test]
fn zone_map_ne_skips_constant_columns_only() {
    let mut col = PropertyColumn::new();
    col.set(NodeId::new(1), Value::Int64(5));
    col.set(NodeId::new(2), Value::Int64(5));
    assert!(!col.might_match(CompareOp::Ne, &Value::Int64(5)));
    assert!(col.might_match(CompareOp::Ne, &Value::Int64(6)));

    col.set(NodeId::new(3), Value::Int64(7));
    assert!(col.might_match(CompareOp::Ne, &Value::Int64(5)));
}

#[test]
fn zone_map_conservative_while_stale() {
    let mut col = PropertyColumn::new();
    col.set(NodeId::new(1), Value::Int64(25));
    col.set(NodeId::new(2), Value::Int64(40));
    col.remove(NodeId::new(2));

    // Stale zone map: everything might match.
    assert!(col.might_match(CompareOp::Eq, &Value::Int64(100)));

    col.rebuild_zone_map();
    // Fresh again: the gone maximum no longer widens the range.
    assert!(!col.might_match(CompareOp::Eq, &Value::Int64(100)));
    assert!(!col.might_match(CompareOp::Gt, &Value::Int64(25)));
}

#[test]
fn rebuild_zone_map_is_idempotent() {
    let mut col = PropertyColumn::new();
    col.set(NodeId::new(1), Value::Int64(3));
    col.set(NodeId::new(2), Value::Str("x".to_string()));
    col.set(NodeId::new(3), Value::Null);
    col.remove(NodeId::new(2));

    col.rebuild_zone_map();
    let first = col.zone_map().clone();
    let len_first = col.len();

    col.rebuild_zone_map();
    assert_eq!(*col.zone_map(), first);
    assert_eq!(col.len(), len_first);
}

#[test]
fn storage_zone_map_and_might_match() {
    let mut storage = PropertyStorage::new();
    let age = PropertyKey::new("age");
    storage.set(NodeId::new(1), age.clone(), Value::Int64(30));
    storage.set(NodeId::new(2), age.clone(), Value::Int64(25));
    storage.set(NodeId::new(3), age.clone(), Value::Int64(40));

    let zm = storage.zone_map(&age).expect("column exists");
    assert_eq!(zm.min, Some(Value::Int64(25)));
    assert_eq!(zm.max, Some(Value::Int64(40)));

    assert!(!storage.might_match(&age, CompareOp::Gt, &Value::Int64(40)));
    assert!(storage.might_match(&age, CompareOp::Gt, &Value::Int64(26)));
    // A missing column might match anything, conservatively.
    assert!(storage.might_match(&PropertyKey::new("nope"), CompareOp::Eq, &Value::Int64(1)));
}

#[test]
fn storage_rebuild_zone_maps() {
    let mut storage = PropertyStorage::new();
    let age = PropertyKey::new("age");
    storage.set(NodeId::new(1), age.clone(), Value::Int64(30));
    storage.set(NodeId::new(2), age.clone(), Value::Int64(99));
    storage.remove(NodeId::new(2), &age);

    // Stale: conservative answer.
    assert!(storage.might_match(&age, CompareOp::Gt, &Value::Int64(50)));
    storage.rebuild_zone_maps();
    assert!(!storage.might_match(&age, CompareOp::Gt, &Value::Int64(50)));
    let zm = storage.zone_map(&age).expect("column exists");
    assert_eq!(zm.min, Some(Value::Int64(30)));
    assert_eq!(zm.max, Some(Value::Int64(30)));
}

#[test]
fn storage_column_count_and_keys() {
    let mut storage = PropertyStorage::new();
    storage.set(NodeId::new(1), PropertyKey::new("a"), Value::Int64(1));
    storage.set(NodeId::new(1), PropertyKey::new("b"), Value::Int64(2));
    storage.set(NodeId::new(2), PropertyKey::new("a"), Value::Int64(3));

    assert_eq!(storage.column_count(), 2);
    let keys = storage.keys();
    assert_eq!(keys.len(), 2);
    assert_eq!(keys[0].as_str(), "a");
    assert_eq!(keys[1].as_str(), "b");

    let col = storage.column(&PropertyKey::new("a")).expect("column exists");
    assert_eq!(col.get(NodeId::new(2)), Some(Value::Int64(3)));
    assert!(storage.column(&PropertyKey::new("zzz")).is_none());
}

#[test]
fn column_iter_snapshot() {
    let mut col = PropertyColumn::new();
    col.set(NodeId::new(1), Value::Int64(10));
    col.set(NodeId::new(2), Value::Int64(20));
    let snapshot = col.iter();
    assert_eq!(snapshot.len(), 2);
    assert_eq!(snapshot[0].0, NodeId::new(1));
    assert_eq!(snapshot[0].1, Value::Int64(10));
    assert_eq!(snapshot[1].0, NodeId::new(2));
    assert_eq!(snapshot[1].1, Value::Int64(20));
}

#[test]
fn compare_values_by_kind() {
    assert_eq!(
        compare_values(&Value::Int64(1), &Value::Int64(2)),
        Some(Ordering::Less)
    );
    assert_eq!(
        compare_values(&Value::Int64(2), &Value::Int64(2)),
        Some(Ordering::Equal)
    );
    assert_eq!(
        compare_values(&Value::Str("b".to_string()), &Value::Str("a".to_string())),
        Some(Ordering::Greater)
    );
    assert_eq!(
        compare_values(&Value::Str("ab".to_string()), &Value::Str("b".to_string())),
        Some(Ordering::Less)
    );
    assert_eq!(
        compare_values(&Value::Bool(false), &Value::Bool(true)),
        Some(Ordering::Less)
    );
    // Cross-kind comparisons are incomparable, and null compares
    // with nothing, itself included.
    assert_eq!(compare_values(&Value::Int64(1), &Value::Str("1".to_string())), None);
    assert_eq!(compare_values(&Value::Null, &Value::Null), None);
    assert_eq!(compare_values(&Value::Bytes(vec![1]), &Value::Bytes(vec![1])), None);
}

#[test]
fn zone_map_orders_strings_by_code_point() {
    let mut col = PropertyColumn::new();
    col.set(NodeId::new(1), Value::Str("Bob".to_string()));
    col.set(NodeId::new(2), Value::Str("Alice".to_string()));
    col.set(NodeId::new(3), Value::Str("Carol".to_string()));

    let zm = col.zone_map();
    assert_eq!(zm.min, Some(Value::Str("Alice".to_string())));
    assert_eq!(zm.max, Some(Value::Str("Carol".to_string())));

    assert!(!col.might_match(CompareOp::Lt, &Value::Str("Alice".to_string())));
    assert!(!col.might_match(CompareOp::Gt, &Value::Str("Carol".to_string())));
    assert!(!col.might_match(CompareOp::Eq, &Value::Str("Dan".to_string())));
    assert!(col.might_match(CompareOp::Eq, &Value::Str("Buzz".to_string())));
}

#[test]
fn compound_values_are_incomparable() {
    let a = Value::List(vec![Value::Int64(1)]);
    let b = Value::List(vec![Value::Int64(1)]);
    assert_eq!(compare_values(&a, &b), None);
    let m = Value::Dict(vec![("k".to_string(), Value::Int64(1))]);
    assert_eq!(compare_values(&m, &Value::Int64(1)), None);

    // They can still be stored and read back.
    let mut col = PropertyColumn::new();
    col.set(NodeId::new(1), a);
    assert_eq!(col.get(NodeId::new(1)), Some(Value::List(vec![Value::Int64(1)])));
    // A compound value never lets the zone map rule anything out
    // unsoundly: predicates on it stay conservative.
    assert!(col.might_match(CompareOp::Eq, &Value::List(vec![Value::Int64(1)])));
}

#[test]
fn rebuild_restores_exact_counters() {
    let mut col = PropertyColumn::new();
    col.set(NodeId::new(1), Value::Int64(1));
    col.set(NodeId::new(1), Value::Int64(2));
    col.set(NodeId::new(2), Value::Null);
    col.set(NodeId::new(2), Value::Int64(3));

    // Incremental counters count set operations, overwrites included.
    assert_eq!(col.zone_map().row_count, 4);
    assert_eq!(col.zone_map().null_count, 1);

    // A rebuild restores exact live counts.
    col.rebuild_zone_map();
    assert_eq!(col.zone_map().row_count, 2);
    assert_eq!(col.zone_map().null_count, 0);
}
