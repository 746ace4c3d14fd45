use gateway_core::table::Table;

#[test]
fn table_sets_and_gets() {
    let mut t: Table<u32> = Table::new();
    assert_eq!(t.len(), 0);
    assert_eq!(t.get("a"), None);
    t.set("a", 1);
    t.set("b", 2);
    t.set("a", 3);
    assert_eq!(t.len(), 2);
    assert_eq!(t.get("a"), Some(&3));
    assert_eq!(t.get("b"), Some(&2));
    assert_eq!(t.get("c"), None);
    assert_eq!(t.find("b"), Some(1));
    assert_eq!(t.find("c"), None);
}

#[test]
fn table_keeps_the_order_of_first_setting() {
    let mut t: Table<&'static str> = Table::new();
    t.set("second", "2");
    t.set("first", "1");
    t.set("second", "two");
    assert_eq!(t.key_at(0), "second");
    assert_eq!(*t.value_at(0), "two");
    assert_eq!(t.key_at(1), "first");
    assert_eq!(*t.value_at(1), "1");
}

#[test]
fn table_removes_by_index() {
    let mut t: Table<u32> = Table::new();
    t.set("a", 1);
    t.set("b", 2);
    t.set("c", 3);
    t.remove_at(1);
    assert_eq!(t.len(), 2);
    assert_eq!(t.get("b"), None);
    assert_eq!(t.key_at(1), "c");
    assert_eq!(t.get("c"), Some(&3));
    t.clear();
    assert_eq!(t.len(), 0);
    assert_eq!(t.get("a"), None);
}

#[test]
fn table_keys_are_whole_texts() {
    let mut t: Table<u32> = Table::new();
    t.set("", 0);
    t.set("a", 1);
    t.set("ab", 2);
    t.set("a✅", 3);
    assert_eq!(t.get(""), Some(&0));
    assert_eq!(t.get("a"), Some(&1));
    assert_eq!(t.get("ab"), Some(&2));
    assert_eq!(t.get("a✅"), Some(&3));
    assert_eq!(t.get("A"), None);
}
