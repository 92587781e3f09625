use wavefront_obj::table::ObjectTable;

#[test]
fn an_empty_table_holds_nothing() {
    let table: ObjectTable<u32> = ObjectTable::new();
    assert!(table.get(0).is_none());
    assert!(table.as_slice().is_empty());
    assert_eq!(table.as_ref(), table.as_slice());
    assert!(table.iter().next().is_none());
}
