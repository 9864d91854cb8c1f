use ruccs::devices::table::DeviceTable;

#[test]
fn table_by_port() {
    let mut t: DeviceTable<u16, &str> = DeviceTable::new();
    assert!(!t.contains(&48879));
    t.insert(48879, "a");
    t.insert(48880, "b");
    assert_eq!(t.get(&48879), Some(&"a"));
    t.insert(48879, "c");
    assert_eq!(t.entries.len(), 2);
    assert_eq!(t.get(&48879), Some(&"c"));
    assert_eq!(t.remove(&48879), Some("c"));
    assert_eq!(t.remove(&48879), None);
    assert!(!t.contains(&48879));
    assert!(t.contains(&48880));
    t.clear();
    assert!(t.entries.is_empty());
}

#[test]
fn table_by_name() {
    let mut t: DeviceTable<String, u32> = DeviceTable::new();
    t.insert("127.0.0.1:55355".to_string(), 1);
    t.insert("/dev/ttyACM0".to_string(), 2);
    assert_eq!(t.get(&"/dev/ttyACM0".to_string()), Some(&2));
    assert_eq!(t.get(&"/dev/ttyACM1".to_string()), None);
    t.insert("/dev/ttyACM0".to_string(), 3);
    assert_eq!(t.entries.len(), 2);
    assert_eq!(t.remove(&"127.0.0.1:55355".to_string()), Some(1));
    assert_eq!(t.entries, vec![("/dev/ttyACM0".to_string(), 3)]);
}
