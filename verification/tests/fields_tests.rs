use tantivy_cli::fields::extract_search_fields;

#[test]
fn picks_indexed_fields_in_order() {
    assert_eq!(extract_search_fields(&vec![true, false, true, true]), vec![0, 2, 3]);
}

#[test]
fn no_fields_no_selection() {
    assert_eq!(extract_search_fields(&Vec::new()), Vec::<u32>::new());
}

#[test]
fn unindexed_schema_selects_nothing() {
    assert_eq!(extract_search_fields(&vec![false, false]), Vec::<u32>::new());
}
