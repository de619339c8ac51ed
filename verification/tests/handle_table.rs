use vicki::handle_table::{BindlessHandleTable, BindlessImageHandle};

#[test]
fn new_table_is_empty() {
    let table = BindlessHandleTable::new();
    assert!(!table.is_registered(0));
    assert!(!table.is_registered(usize::MAX));
}

#[test]
fn registered_handle_is_resolved() {
    let mut table = BindlessHandleTable::new();
    assert_eq!(table.register(0, BindlessImageHandle(40)), BindlessImageHandle(40));
    assert_eq!(table.register(1, BindlessImageHandle(41)), BindlessImageHandle(41));
    assert!(table.is_registered(0));
    assert!(table.is_registered(1));
    assert!(!table.is_registered(2));
    assert_eq!(table.resolve(0), BindlessImageHandle(40));
    assert_eq!(table.resolve(1), BindlessImageHandle(41));
}

#[test]
fn entries_are_written_once() {
    let mut table = BindlessHandleTable::new();
    table.register(3, BindlessImageHandle(7));
    assert_eq!(table.register(3, BindlessImageHandle(8)), BindlessImageHandle(7));
    assert_eq!(table.resolve(3), BindlessImageHandle(7));
}
