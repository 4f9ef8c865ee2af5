use key_value_store::KeyValueStore;

#[test]
fn test_insert() {
    let mut kv = KeyValueStore::<_, _, 0>::new();
    kv.insert("key1", 1);
    kv.insert("key2", 2);
    kv.insert("key3", 3);
    assert_eq!(kv.get(&"key1"), Some(&1));
    assert_eq!(kv.get(&"key2"), Some(&2));
    assert_eq!(kv.get(&"key3"), Some(&3));
}

#[test]
fn test_remove() {
    let mut kv = KeyValueStore::<_, _, 0>::new();
    kv.insert("key1", 1);
    kv.insert("key2", 2);
    kv.insert("key3", 3);
    assert_eq!(kv.remove(&"key2"), Some(2));
    assert_eq!(kv.get(&"key2"), None);
}

#[test]
fn test_items() {
    let mut kv = KeyValueStore::<_, _, 0>::new();
    kv.insert("key1", 1);
    kv.insert("key2", 2);
    kv.insert("key3", 3);
    for (key, value) in kv.items() {
        assert_eq!(kv.get(key), Some(value));
    }
}

#[test]
fn test_get_by_index() {
    let mut kv = KeyValueStore::<_, _, 3>::new();
    assert_eq!(kv.capacity(), 3);
    kv.insert("key1", 1);
    kv.insert("key2", 2);
    kv.insert("key3", 3);
    assert_eq!(kv.get_by_index(1), Some(&2));
    assert_eq!(kv.capacity(), 3);
}

#[test]
fn test_with_capacity() {
    let kv = KeyValueStore::<&str, i32, 10>::new();
    assert_eq!(kv.capacity(), 10);
}

#[test]
fn test_default() {
    let kv = KeyValueStore::<&str, i32, 0>::default();
    assert_eq!(kv.capacity(), 0);
}

#[test]
fn items_yield_pairs_in_insertion_order() {
    let mut kv = KeyValueStore::<&str, i32, 4>::new();
    kv.insert("b", 2);
    kv.insert("a", 1);
    kv.insert("c", 3);
    kv.insert("a", 4);
    let pairs: Vec<(&str, i32)> = kv.items().into_iter().map(|(k, v)| (*k, *v)).collect();
    assert_eq!(pairs, vec![("b", 2), ("a", 1), ("c", 3), ("a", 4)]);
}

#[test]
fn get_resolves_duplicate_keys_to_earliest() {
    let mut kv = KeyValueStore::<&str, i32, 0>::new();
    kv.insert("a", 1);
    kv.insert("b", 2);
    kv.insert("a", 3);
    assert_eq!(kv.get(&"a"), Some(&1));
}

#[test]
fn remove_uncovers_next_earliest_duplicate() {
    let mut kv = KeyValueStore::<&str, i32, 0>::new();
    kv.insert("a", 1);
    kv.insert("b", 2);
    kv.insert("a", 3);
    assert_eq!(kv.remove(&"a"), Some(1));
    assert_eq!(kv.get(&"a"), Some(&3));
    let pairs: Vec<(&str, i32)> = kv.items().into_iter().map(|(k, v)| (*k, *v)).collect();
    assert_eq!(pairs, vec![("b", 2), ("a", 3)]);
    assert_eq!(kv.remove(&"a"), Some(3));
    assert_eq!(kv.get(&"a"), None);
}

#[test]
fn get_by_index_is_stable_without_mutation() {
    let mut kv = KeyValueStore::<u64, u64, 0>::new();
    kv.insert(5, 50);
    kv.insert(6, 60);
    assert_eq!(kv.get_by_index(1), Some(&60));
    assert_eq!(kv.get_by_index(1), Some(&60));
    assert_eq!(kv.get(&5), Some(&50));
    assert_eq!(kv.get_by_index(1), Some(&60));
}

#[test]
fn absence_on_empty_store() {
    let mut kv = KeyValueStore::<&str, i32, 0>::new();
    assert_eq!(kv.get(&"missing"), None);
    assert_eq!(kv.remove(&"missing"), None);
    assert_eq!(kv.get_by_index(0), None);
}

#[test]
fn absence_on_unmatched_key_and_out_of_range_index() {
    let mut kv = KeyValueStore::<&str, i32, 2>::new();
    kv.insert("a", 1);
    kv.insert("b", 2);
    assert_eq!(kv.get(&"c"), None);
    assert_eq!(kv.remove(&"c"), None);
    assert_eq!(kv.get_by_index(2), None);
    assert_eq!(kv.get_by_index(usize::MAX), None);
}

#[test]
fn items_and_get_agree_with_duplicates() {
    let mut kv = KeyValueStore::<&str, i32, 0>::new();
    kv.insert("a", 1);
    kv.insert("b", 2);
    kv.insert("a", 3);
    let pairs = kv.items();
    for (key, _) in &pairs {
        let earliest = pairs.iter().find(|(k, _)| *k == *key).map(|(_, v)| *v);
        assert_eq!(kv.get(key), earliest);
    }
}

#[test]
fn indexed_lookup_over_ten_entries() {
    let mut kv = KeyValueStore::<u64, u64, 10>::new();
    kv.insert(1, 1);
    kv.insert(2, 1);
    kv.insert(3, 1);
    kv.insert(4, 1);
    kv.insert(5, 1);
    kv.insert(6, 1);
    kv.insert(7, 1);
    kv.insert(8, 1);
    kv.insert(9, 1);
    kv.insert(10, 1);
    assert_eq!(kv.get_by_index(0), Some(&1));
    assert_eq!(kv.get_by_index(9), Some(&1));
    assert_eq!(kv.get_by_index(10), None);
}

#[test]
fn remove_returns_value_and_preserves_order_of_rest() {
    let mut kv = KeyValueStore::<u64, u64, 0>::new();
    kv.insert(1, 10);
    kv.insert(2, 20);
    kv.insert(3, 30);
    assert_eq!(kv.remove(&2), Some(20));
    let pairs: Vec<(u64, u64)> = kv.items().into_iter().map(|(k, v)| (*k, *v)).collect();
    assert_eq!(pairs, vec![(1, 10), (3, 30)]);
    assert_eq!(kv.get_by_index(1), Some(&30));
}
