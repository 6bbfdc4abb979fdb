use deskctrl::type_map::{keys_differ, Entry, TypeMap, TypeMapKey};

struct Count;

impl TypeMapKey for Count {
    type Value = u32;
}

struct Name;

impl TypeMapKey for Name {
    type Value = String;
}

struct OtherCount;

impl TypeMapKey for OtherCount {
    type Value = u32;
}

struct Mark;

impl TypeMapKey for Mark {
    type Value = ();
}

#[test]
fn type_map_starts_empty() {
    let map = TypeMap::new();
    assert!(!map.contains_key::<Count>());
    assert_eq!(map.get::<Count>(), None);
    assert_eq!(map.get::<Name>(), None);
}

#[test]
fn type_map_reads_what_was_written() {
    let mut map = TypeMap::new();
    assert_eq!(map.insert::<Count>(3), None);
    assert!(map.contains_key::<Count>());
    assert_eq!(map.get::<Count>(), Some(&3));
    assert_eq!(map.insert::<Count>(4), Some(3));
    assert_eq!(map.get::<Count>(), Some(&4));
}

#[test]
fn type_map_keys_with_the_same_value_type_differ() {
    let mut map = TypeMap::new();
    map.insert::<Count>(1);
    map.insert::<OtherCount>(2);
    map.insert::<Name>("one".to_string());
    assert_eq!(map.get::<Count>(), Some(&1));
    assert_eq!(map.get::<OtherCount>(), Some(&2));
    assert_eq!(map.get::<Name>().map(|name| name.as_str()), Some("one"));
    assert_eq!(map.remove::<Count>(), Some(1));
    assert_eq!(map.get::<Count>(), None);
    assert_eq!(map.get::<OtherCount>(), Some(&2));
    assert_eq!(map.get::<Name>().map(|name| name.as_str()), Some("one"));
}

#[test]
fn type_map_removal_undoes_a_write() {
    let mut map = TypeMap::new();
    map.insert::<Name>("kept".to_string());
    map.insert::<Count>(7);
    assert_eq!(map.remove::<Count>(), Some(7));
    assert_eq!(map.remove::<Count>(), None);
    assert!(!map.contains_key::<Count>());
    assert!(map.contains_key::<Name>());
}

#[test]
fn type_map_values_change_in_place() {
    let mut map = TypeMap::new();
    assert!(map.get_mut::<Count>().is_none());
    map.insert::<Count>(7);
    *map.get_mut::<Count>().unwrap() += 1;
    assert_eq!(map.get::<Count>(), Some(&8));
}

#[test]
fn entry_or_insert_keeps_what_is_there() {
    let mut map = TypeMap::new();
    assert_eq!(*map.entry::<Count>().or_insert(5), 5);
    assert_eq!(*map.entry::<Count>().or_insert(6), 5);
    *map.entry::<Count>().or_insert(0) = 9;
    assert_eq!(map.get::<Count>(), Some(&9));
}

#[test]
fn entry_or_insert_with_calls_only_when_vacant() {
    let mut map = TypeMap::new();
    assert_eq!(*map.entry::<Count>().or_insert_with(|| 5), 5);
    assert_eq!(*map.entry::<Count>().or_insert_with(|| panic!("called")), 5);
}

#[test]
fn entry_and_modify_changes_only_what_is_there() {
    let mut map = TypeMap::new();
    assert_eq!(*map.entry::<Count>().and_modify(|count| *count += 1).or_insert(1), 1);
    assert_eq!(*map.entry::<Count>().and_modify(|count| *count += 1).or_insert(1), 2);
}

#[test]
fn entry_or_default_gives_the_default() {
    let mut map = TypeMap::new();
    assert_eq!(*map.entry::<Count>().or_default(), 0);
    map.insert::<Count>(3);
    assert_eq!(*map.entry::<Count>().or_default(), 3);
}

#[test]
fn occupied_entry_reads_and_writes() {
    let mut map = TypeMap::new();
    map.insert::<Count>(1);
    match map.entry::<Count>() {
        Entry::Occupied(mut entry) => {
            assert_eq!(*entry.get(), 1);
            *entry.get_mut() = 2;
            assert_eq!(entry.insert(3), 2);
            *entry.into_mut() += 1;
        }
        Entry::Vacant(_) => unreachable!(),
    }
    assert_eq!(map.get::<Count>(), Some(&4));
}

#[test]
fn occupied_entry_of_a_mark_is_removed() {
    let mut map = TypeMap::new();
    map.insert::<Mark>(());
    map.insert::<Count>(1);
    match map.entry::<Count>() {
        Entry::Occupied(entry) => assert!(!entry.is_unit()),
        Entry::Vacant(_) => unreachable!(),
    }
    match map.entry::<Mark>() {
        Entry::Occupied(entry) => {
            assert!(entry.is_unit());
            entry.remove()
        }
        Entry::Vacant(_) => unreachable!(),
    }
    assert!(!map.contains_key::<Mark>());
    assert!(map.contains_key::<Count>());
}

#[test]
fn vacant_entry_is_filled() {
    let mut map = TypeMap::new();
    match map.entry::<Name>() {
        Entry::Occupied(_) => unreachable!(),
        Entry::Vacant(entry) => entry.insert("a".to_string()).push('b'),
    }
    assert_eq!(map.get::<Name>().map(|name| name.as_str()), Some("ab"));
}

#[test]
fn key_types_are_told_apart() {
    assert!(keys_differ::<Count, OtherCount>());
    assert!(keys_differ::<Count, Name>());
    assert!(!keys_differ::<Count, Count>());
}
