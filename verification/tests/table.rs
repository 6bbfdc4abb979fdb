use deskctrl::table::Table;

#[test]
fn table_reads_what_was_written() {
    let mut table: Table<u32> = Table::new();
    assert_eq!(table.get(&"a".to_string()), None);
    assert_eq!(table.insert("a".to_string(), 1), None);
    assert_eq!(table.insert("b".to_string(), 2), None);
    assert_eq!(table.insert("a".to_string(), 3), Some(1));
    assert_eq!(table.get(&"a".to_string()), Some(&3));
    assert_eq!(table.get(&"b".to_string()), Some(&2));
}

#[test]
fn table_removes() {
    let mut table: Table<u32> = Table::new();
    table.insert("a".to_string(), 1);
    table.insert("b".to_string(), 2);
    assert_eq!(table.remove(&"a".to_string()), Some(1));
    assert_eq!(table.remove(&"a".to_string()), None);
    assert_eq!(table.get(&"b".to_string()), Some(&2));
}

#[test]
fn table_values_change_in_place() {
    let mut table: Table<u32> = Table::new();
    table.insert("a".to_string(), 1);
    *table.get_mut(&"a".to_string()).unwrap() = 5;
    assert!(table.get_mut(&"b".to_string()).is_none());
    assert_eq!(table.get(&"a".to_string()), Some(&5));
}

#[test]
fn table_lists_each_entry_once() {
    let mut table: Table<u32> = Table::new();
    table.insert("b".to_string(), 1);
    table.insert("a".to_string(), 2);
    table.insert("b".to_string(), 3);
    let mut entries = table.entries().clone();
    entries.sort();
    assert_eq!(entries, vec![("a".to_string(), 2), ("b".to_string(), 3)]);
    assert_eq!(table.duplicate(), table);
}

#[test]
fn tables_with_the_same_entries_are_equal() {
    let mut a: Table<u32> = Table::new();
    let mut b: Table<u32> = Table::new();
    assert_eq!(a, b);
    a.insert("x".to_string(), 1);
    a.insert("y".to_string(), 2);
    b.insert("y".to_string(), 2);
    assert_ne!(a, b);
    b.insert("x".to_string(), 3);
    assert_ne!(a, b);
    b.insert("x".to_string(), 1);
    assert_eq!(a, b);
}
