use rustodo::codec::{canon_string, decode_archival, encode_archival};
use rustodo::error::TodoError;
use rustodo::ids::{format_id, parse_id};
use rustodo::record::{Archival, TodoRecord};
use rustodo::text::{contains_sub, dec_string_i64, dec_string_u64};

#[test]
fn format_id_zero() {
    assert_eq!(format_id(0), "00000000-0000-0000-0000-000000000000");
}

#[test]
fn format_id_known_value() {
    let id: u128 = 0x0123456789abcdef0123456789abcdef;
    assert_eq!(format_id(id), "01234567-89ab-cdef-0123-456789abcdef");
}

#[test]
fn format_id_max() {
    assert_eq!(format_id(u128::MAX), "ffffffff-ffff-ffff-ffff-ffffffffffff");
}

#[test]
fn parse_id_round_trip() {
    for id in [0u128, 5, 0xdeadbeef, u128::MAX, 0x0123456789abcdef0123456789abcdef] {
        let text = format_id(id);
        assert_eq!(parse_id(&text), Some(id));
    }
}

#[test]
fn parse_id_rejects_bad_shapes() {
    assert_eq!(parse_id(""), None);
    assert_eq!(parse_id("01234567-89ab-cdef-0123-456789abcde"), None);
    assert_eq!(parse_id("01234567-89AB-cdef-0123-456789abcdef"), None);
    assert_eq!(parse_id("0123456789ab-cdef-0123-456789abcdefx"), None);
    assert_eq!(parse_id("01234567x89ab-cdef-0123-456789abcdef"), None);
}

#[test]
fn decimal_formatting() {
    assert_eq!(dec_string_u64(0), "0");
    assert_eq!(dec_string_u64(907), "907");
    assert_eq!(dec_string_i64(-42), "-42");
    assert_eq!(dec_string_i64(1700000000), "1700000000");
}

#[test]
fn encode_archival_forms() {
    assert_eq!(encode_archival(&Archival::Active), "No");
    assert_eq!(encode_archival(&Archival::Archived), "Yes");
    assert_eq!(
        encode_archival(&Archival::ReplacedBy(5)),
        "Replaced(00000000-0000-0000-0000-000000000005)"
    );
}

#[test]
fn archival_round_trip() {
    for a in [Archival::Active, Archival::Archived, Archival::ReplacedBy(0xabcdef)] {
        let text = encode_archival(&a);
        assert_eq!(decode_archival(&text), Ok(a));
    }
}

#[test]
fn decode_archival_rejects_corrupt_markers() {
    for bad in [
        "",
        "no",
        "YES",
        "Maybe",
        "Replaced()",
        "Replaced(0123)",
        "Replaced(01234567-89AB-cdef-0123-456789abcdef)",
        "Replaced(01234567-89ab-cdef-0123-456789abcdef",
    ] {
        assert_eq!(decode_archival(bad), Err(TodoError::DeserializationError));
    }
}

#[test]
fn canonical_text_exact() {
    let rec = TodoRecord {
        id: 1,
        text: String::from("buy milk"),
        done: true,
        date: 907,
        archival: Archival::Active,
    };
    assert_eq!(
        canon_string(&rec),
        "00000000-0000-0000-0000-000000000001 buy milk true 907 No"
    );
}

#[test]
fn error_texts() {
    assert_eq!(TodoError::NotFound.text(), "no record matches the given id");
    assert_eq!(TodoError::StoreError.text(), "the store refused the operation");
    assert_eq!(
        TodoError::DeserializationError.text(),
        "a stored value is corrupt"
    );
}

#[test]
fn substring_search_basics() {
    assert!(contains_sub("hello world", ""));
    assert!(contains_sub("hello world", "lo wo"));
    assert!(contains_sub("hello world", "hello world"));
    assert!(!contains_sub("hello world", "worlds"));
    assert!(!contains_sub("", "a"));
    assert!(contains_sub("", ""));
}
