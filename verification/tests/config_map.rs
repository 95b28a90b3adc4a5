use micropython_build::config_map::ConfigMap;

#[test]
fn reads_back_what_was_inserted() {
    let mut map: ConfigMap<String> = ConfigMap::new();
    assert!(map.is_empty());
    assert_eq!(map.insert("MICROPY_A".to_owned(), "1".to_owned()), None);
    assert_eq!(map.insert("MICROPY_B".to_owned(), "2".to_owned()), None);
    assert_eq!(map.get("MICROPY_A").map(String::as_str), Some("1"));
    assert_eq!(map.insert("MICROPY_A".to_owned(), "3".to_owned()), Some("1".to_owned()));
    assert_eq!(map.get("MICROPY_A").map(String::as_str), Some("3"));
    assert_eq!(map.get("MICROPY_B").map(String::as_str), Some("2"));
    assert_eq!(map.get("MICROPY_C"), None);
    assert_eq!(map.len(), 2);
    assert_eq!(map.position("MICROPY_B"), Some(1));
    let entries = map.into_entries();
    assert_eq!(entries[0].0, "MICROPY_A");
    assert_eq!(entries[0].1, "3");
}

#[test]
fn keeps_entries_in_the_order_of_names() {
    let mut map: ConfigMap<u32> = ConfigMap::new();
    for (name, value) in [("MICROPY_C", 3), ("MICROPY_A", 1), ("MP_INT_TYPE", 4), ("MICROPY_B", 2)] {
        assert_eq!(map.insert(name.to_owned(), value), None);
    }
    let names: Vec<String> = map.into_entries().into_iter().map(|(n, _)| n).collect();
    assert_eq!(names, vec!["MICROPY_A", "MICROPY_B", "MICROPY_C", "MP_INT_TYPE"]);
}
