use webtable::cell::Cell;
use webtable::codec::serialize_cell_key;
use webtable::error::CellError;
use webtable::table::decode_pairs;
use fjall::Slice;

fn decode(key: Vec<u8>, value: Vec<u8>) -> Result<Cell, CellError> {
    Cell::decode(Slice::from(key), Slice::from(value))
}

fn key(row: &str, family: &str, qualifier: &str, ts: Option<u64>) -> Vec<u8> {
    serialize_cell_key(row, family, qualifier, ts).unwrap()
}

#[test]
fn encodes_fields_delimiters_and_inverted_timestamp() {
    let k = key("a", "bc", "d", Some(1));
    assert_eq!(
        k,
        vec![b'a', 0, b'b', b'c', 0, b'd', 0, 0xff, 0xff, 0xff, 0xff, 0xff, 0xff, 0xff, 0xfe]
    );
}

#[test]
fn absent_timestamp_encodes_as_all_ones() {
    let k = key("r", "f", "q", None);
    assert_eq!(&k[6..], &[0xffu8; 8]);
    assert_eq!(k, key("r", "f", "q", Some(0)));
}

#[test]
fn key_length_is_fields_plus_eleven() {
    let k = key("com.example", "meta", "", Some(1000));
    assert_eq!(k.len(), 11 + 4 + 0 + 11);
    assert_eq!(&k[k.len() - 8..], &(!1000u64).to_be_bytes());
}

#[test]
fn nul_in_any_field_is_rejected() {
    assert!(matches!(serialize_cell_key("a\0b", "f", "q", None), Err(CellError::Validation)));
    assert!(matches!(serialize_cell_key("a", "\0", "q", Some(3)), Err(CellError::Validation)));
    assert!(matches!(serialize_cell_key("a", "f", "q\0", None), Err(CellError::Validation)));
}

#[test]
fn decode_round_trips_identity_and_value() {
    let k = key("com.example", "meta", "lang", Some(1000));
    let c = decode(k, b"FR".to_vec()).unwrap();
    assert_eq!(c.row_key(), "com.example");
    assert_eq!(c.column_family(), "meta");
    assert_eq!(c.column_qualifier(), "lang");
    assert_eq!(c.timestamp(), 1000);
    assert_eq!(c.value(), b"FR");
}

#[test]
fn decode_round_trips_absent_timestamp_as_zero() {
    let c = decode(key("r", "f", "q", None), vec![]).unwrap();
    assert_eq!(c.timestamp(), 0);
    assert_eq!(c.value(), b"");
}

#[test]
fn decode_round_trips_tail_with_nul_bytes() {
    for ts in [255u64, 0xff00, u64::MAX, 0xffff_ffff_0000_00ff] {
        let c = decode(key("row", "fam", "q", Some(ts)), vec![1, 2, 3]).unwrap();
        assert_eq!(c.row_key(), "row");
        assert_eq!(c.column_family(), "fam");
        assert_eq!(c.column_qualifier(), "q");
        assert_eq!(c.timestamp(), ts);
        assert_eq!(c.value(), &[1, 2, 3]);
    }
}

#[test]
fn decode_round_trips_unicode_and_empty_fields() {
    let c = decode(key("ÿtré", "", "日本", Some(7)), vec![0]).unwrap();
    assert_eq!(c.row_key(), "ÿtré");
    assert_eq!(c.column_family(), "");
    assert_eq!(c.column_qualifier(), "日本");
    assert_eq!(c.timestamp(), 7);
}

#[test]
fn decode_rejects_too_few_segments() {
    let raw = vec![b'a', 0, b'b', 0, 1, 2, 3, 4, 5, 6, 7, 8];
    assert!(matches!(decode(raw, vec![]), Err(CellError::Corruption)));
    assert!(matches!(decode(b"plain".to_vec(), vec![]), Err(CellError::Corruption)));
    assert!(matches!(decode(vec![], vec![]), Err(CellError::Corruption)));
}

#[test]
fn decode_rejects_wrong_tail_length() {
    let mut raw = key("a", "b", "c", Some(5));
    raw.pop();
    assert!(matches!(decode(raw, vec![]), Err(CellError::Corruption)));
    let mut longer = key("a", "b", "c", Some(5));
    longer.push(1);
    assert!(matches!(decode(longer, vec![]), Err(CellError::Corruption)));
}

#[test]
fn decode_rejects_invalid_text() {
    let mut raw = vec![0xffu8, 0, b'f', 0, b'q', 0];
    raw.extend_from_slice(&[0xff; 8]);
    assert!(matches!(decode(raw, vec![]), Err(CellError::Corruption)));
}

#[test]
fn decode_pairs_keeps_order_and_fails_on_one_bad_key() {
    let pairs = vec![
        (Slice::from(key("a", "f", "q", Some(2))), Slice::from(b"x".to_vec())),
        (Slice::from(key("b", "f", "q", None)), Slice::from(b"y".to_vec())),
    ];
    let cells = decode_pairs(pairs).unwrap();
    assert_eq!(cells.len(), 2);
    assert_eq!(cells[0].row_key(), "a");
    assert_eq!(cells[0].value(), b"x");
    assert_eq!(cells[1].row_key(), "b");
    assert_eq!(cells[1].value(), b"y");
    let bad = vec![
        (Slice::from(key("a", "f", "q", Some(2))), Slice::from(Vec::new())),
        (Slice::from(b"junk".to_vec()), Slice::from(Vec::new())),
    ];
    assert!(matches!(decode_pairs(bad), Err(CellError::Corruption)));
    assert_eq!(decode_pairs(vec![]).unwrap().len(), 0);
}

#[test]
fn newer_versions_sort_first() {
    assert!(key("r", "f", "q", Some(2000)) < key("r", "f", "q", Some(1000)));
    assert!(key("r", "f", "q", Some(u64::MAX)) < key("r", "f", "q", Some(0)));
    assert!(key("r", "f", "q", Some(256)) < key("r", "f", "q", Some(255)));
}

#[test]
fn absent_timestamp_sorts_last() {
    let absent = key("r", "f", "q", None);
    for ts in [1u64, 1000, u64::MAX] {
        assert!(key("r", "f", "q", Some(ts)) < absent);
    }
}

#[test]
fn rows_families_and_qualifiers_sort_in_order() {
    assert!(key("a", "zzz", "zzz", None) < key("ab", "a", "a", Some(u64::MAX)));
    assert!(key("a", "x", "q", Some(1)) < key("b", "a", "a", None));
    assert!(key("r", "a", "z", None) < key("r", "b", "a", Some(9)));
    assert!(key("r", "f", "a", None) < key("r", "f", "b", Some(9)));
}

#[test]
fn row_prefix_matches_only_its_row() {
    let mut prefix = b"com.example".to_vec();
    prefix.push(0);
    assert!(key("com.example", "meta", "lang", None).starts_with(&prefix));
    assert!(!key("com.example.www", "meta", "lang", None).starts_with(&prefix));
    assert!(!key("com.exampl", "e", "lang", None).starts_with(&prefix));
}

#[test]
fn describe_shows_fields_and_cuts_value_at_fifty_bytes() {
    let c = decode(key("r", "f", "q", Some(9)), vec![b'a'; 60]).unwrap();
    assert_eq!(c.describe(), format!("r@f:q?9 => \"{}\"", "a".repeat(50)));
    assert_eq!(c.value().len(), 60);
    let short = decode(key("row", "fam", "", None), b"hi".to_vec()).unwrap();
    assert_eq!(short.describe(), "row@fam:?0 => \"hi\"");
}

#[test]
fn describe_renders_large_timestamps_quotes_and_invalid_bytes() {
    let c = decode(key("r", "f", "q", Some(u64::MAX)), vec![b'"', 0xff, b'x']).unwrap();
    assert_eq!(c.describe(), "r@f:q?18446744073709551615 => \"\\\"\u{fffd}x\"");
    let zero = decode(key("r", "f", "q", Some(10)), vec![]).unwrap();
    assert_eq!(zero.describe(), "r@f:q?10 => \"\"");
}
