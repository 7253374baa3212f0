use forge::keyed::KeyedMap;

#[test]
fn a_read_after_a_write_gives_back_what_was_written() {
    let mut map = KeyedMap::new();
    map.insert("a".to_string(), 1u64);
    map.insert("b".to_string(), 2u64);
    map.insert("a".to_string(), 3u64);
    assert_eq!(map.get("a"), Some(&3));
    assert_eq!(map.get("b"), Some(&2));
    assert_eq!(map.get("c"), None);
    assert_eq!(map.len(), 2);
    assert_eq!(map.entries(), &[("a".to_string(), 3), ("b".to_string(), 2)]);
    assert_eq!(map.position("b"), Some(1));
    assert!(map.contains_key("a"));
    assert!(!map.is_empty());
}

#[test]
fn entries_are_stored_in_turn_so_no_key_occurs_twice() {
    let map = KeyedMap::from_entries(vec![("k".to_string(), 1u8), ("j".to_string(), 3u8), ("k".to_string(), 2u8)]);
    assert_eq!(map.get("k"), Some(&2));
    assert_eq!(map.entries(), &[("k".to_string(), 2u8), ("j".to_string(), 3u8)]);
    assert!(KeyedMap::<u8>::new().is_empty());
    let copy = map.clone();
    assert_eq!(copy, map);
}
