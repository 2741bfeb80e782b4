use webtable::error::CellError;
use webtable::table::WideColumnTable;

fn open(dir: &str, name: &str) -> (fjall::Keyspace, WideColumnTable) {
    let keyspace = fjall::Config::new(dir).temporary(true).open().unwrap();
    let table = WideColumnTable::new(keyspace.clone(), name).unwrap();
    (keyspace, table)
}

#[test]
fn end_to_end_versions_of_one_cell() {
    let (_ks, table) = open("/tmp/webtable_tests/end_to_end", "t");
    table.insert("com.example", "meta", "lang", None, b"EN").unwrap();
    table.insert("com.example", "meta", "lang", Some(1000), b"FR").unwrap();
    let cells = table.prefix(b"com.example\0meta\0lang\0").unwrap();
    assert_eq!(cells.len(), 2);
    assert_eq!(cells[0].value(), b"FR");
    assert_eq!(cells[0].timestamp(), 1000);
    assert_eq!(cells[1].value(), b"EN");
    assert_eq!(cells[1].timestamp(), 0);
}

#[test]
fn row_prefix_scan_returns_exactly_that_row() {
    let (_ks, table) = open("/tmp/webtable_tests/row_scan", "t");
    table.insert("a", "f", "q", Some(1), b"1").unwrap();
    table.insert("ab", "f", "q", Some(1), b"2").unwrap();
    table.insert("a", "g", "q", None, b"3").unwrap();
    table.insert("a", "f", "p", Some(5), b"4").unwrap();
    table.insert("b", "f", "q", Some(1), b"5").unwrap();
    let cells = table.prefix(b"a\0").unwrap();
    let seen: Vec<(&str, &str, &[u8])> =
        cells.iter().map(|c| (c.column_family(), c.column_qualifier(), c.value())).collect();
    assert_eq!(seen, vec![("f", "p", &b"4"[..]), ("f", "q", &b"1"[..]), ("g", "q", &b"3"[..])]);
    assert!(cells.iter().all(|c| c.row_key() == "a"));
    assert_eq!(table.prefix(b"").unwrap().len(), 5);
    assert_eq!(table.prefix(b"c\0").unwrap().len(), 0);
}

#[test]
fn overwrite_keeps_one_entry_with_second_value() {
    let (_ks, table) = open("/tmp/webtable_tests/overwrite", "t");
    table.insert("r", "f", "q", Some(7), b"first").unwrap();
    table.insert("r", "f", "q", Some(7), b"second").unwrap();
    table.insert("r", "f", "q", Some(8), b"other").unwrap();
    let cells = table.prefix(b"r\0f\0q\0").unwrap();
    assert_eq!(cells.len(), 2);
    assert_eq!(cells[0].timestamp(), 8);
    assert_eq!(cells[1].timestamp(), 7);
    assert_eq!(cells[1].value(), b"second");
}

#[test]
fn nul_field_is_rejected_without_a_write() {
    let (_ks, table) = open("/tmp/webtable_tests/reject", "t");
    assert!(matches!(table.insert("r\0x", "f", "q", None, b"v"), Err(CellError::Validation)));
    assert!(matches!(table.insert("r", "f\0", "q", None, b"v"), Err(CellError::Validation)));
    assert!(matches!(table.insert("r", "f", "\0", Some(1), b"v"), Err(CellError::Validation)));
    assert_eq!(table.prefix(b"").unwrap().len(), 0);
}

#[test]
fn malformed_stored_key_is_reported_as_corruption() {
    let (ks, table) = open("/tmp/webtable_tests/corrupt", "t");
    table.insert("r", "f", "q", None, b"ok").unwrap();
    let raw = ks.open_partition("t", fjall::PartitionCreateOptions::default()).unwrap();
    raw.insert(b"r\0broken".to_vec(), b"x".to_vec()).unwrap();
    assert!(matches!(table.prefix(b"r\0"), Err(CellError::Corruption)));
    assert_eq!(table.prefix(b"r\0f\0").unwrap().len(), 1);
}

#[test]
fn tables_are_separate_partitions() {
    let keyspace = fjall::Config::new("/tmp/webtable_tests/partitions").temporary(true).open().unwrap();
    let one = WideColumnTable::new(keyspace.clone(), "one").unwrap();
    let two = WideColumnTable::new(keyspace.clone(), "two").unwrap();
    one.insert("r", "f", "q", None, b"1").unwrap();
    assert_eq!(one.prefix(b"").unwrap().len(), 1);
    assert_eq!(two.prefix(b"").unwrap().len(), 0);
}

#[test]
fn oversized_key_is_rejected_without_a_write() {
    let (_ks, table) = open("/tmp/webtable_tests/too_large", "t");
    let long_row = "r".repeat(65530);
    assert!(matches!(table.insert(&long_row, "f", "q", None, b"v"), Err(CellError::TooLarge)));
    let fitting_row = "r".repeat(65522);
    table.insert(&fitting_row, "f", "q", None, b"v").unwrap();
    assert_eq!(table.prefix(b"").unwrap().len(), 1);
    assert!(matches!(table.insert("a\0", &long_row, "q", None, b"v"), Err(CellError::Validation)));
}

#[test]
fn prefix_longer_than_any_key_reads_nothing() {
    let (_ks, table) = open("/tmp/webtable_tests/long_prefix", "t");
    let row = "r".repeat(65522);
    table.insert(&row, "f", "q", None, b"v").unwrap();
    let mut prefix = row.into_bytes();
    prefix.extend_from_slice(&[0u8; 14]);
    assert_eq!(table.prefix(&prefix).unwrap().len(), 0);
    assert_eq!(table.prefix(&prefix[..65523]).unwrap().len(), 1);
}
