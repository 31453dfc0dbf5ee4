use colorcolumn::keymap::KeyColorMap;

#[test]
fn empty_map_has_no_keys() {
    let map = KeyColorMap::new();
    assert_eq!(map.len(), 0);
    assert_eq!(map.get(&"anything".to_string()), None);
}

#[test]
fn insert_records_one_color_per_key() {
    let mut map = KeyColorMap::new();
    map.insert("one".to_string(), 1);
    map.insert("two".to_string(), 2);
    assert_eq!(map.len(), 2);
    assert_eq!(map.get(&"one".to_string()), Some(1));
    assert_eq!(map.get(&"two".to_string()), Some(2));
    assert_eq!(map.get(&"three".to_string()), None);
}

#[test]
fn insert_replaces_an_existing_key() {
    let mut map = KeyColorMap::new();
    map.insert("key".to_string(), 1);
    map.insert("key".to_string(), 7);
    assert_eq!(map.len(), 1);
    assert_eq!(map.get(&"key".to_string()), Some(7));
}
