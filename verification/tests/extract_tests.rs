use kat::extract::{
    extract_bytes_line, extract_fields_line, select_bytes, select_chars, select_fields,
};
use kat::index_set::{build_index_set, IndexSet};
use kat::positions::{parse_positions, Range};

fn set_of(list: &str) -> IndexSet {
    build_index_set(&parse_positions(list).unwrap())
}

#[test]
fn test_chars_end_to_end() {
    // "hello" with positions [0,1) and [4,5) gives "ho".
    let set = set_of("1,5");
    assert_eq!(select_chars("hello", &set), "ho");
}

#[test]
fn test_chars_multibyte_index() {
    // Character indices count code points, not bytes.
    let set = set_of("2");
    assert_eq!(select_chars("h\u{e9}llo", &set), "\u{e9}");
}

#[test]
fn test_chars_out_of_range_is_empty() {
    let set = set_of("7-9");
    assert_eq!(select_chars("hello", &set), "");
}

#[test]
fn test_chars_empty_set_gives_empty_line() {
    let set = build_index_set(&Vec::<Range>::new());
    assert_eq!(select_chars("hello", &set), "");
}

#[test]
fn test_overlapping_ranges_select_once() {
    // [0,3) and [2,5) overlap; index 2 is selected exactly once.
    let set = set_of("1-3,3-5");
    assert_eq!(select_chars("abcdef", &set), "abcde");
}

#[test]
fn test_bytes_ascii() {
    let set = set_of("1,3");
    let line = b"abc".to_vec();
    assert_eq!(select_bytes(&line, &set), b"ac".to_vec());
}

#[test]
fn test_bytes_lossy_decode() {
    // Selecting byte 2 of a 3-byte line splits the two-byte "e acute" in
    // half; decoding never fails and substitutes the replacement marker.
    let set = set_of("1-2");
    let line = "h\u{e9}llo".as_bytes().to_vec();
    assert_eq!(extract_bytes_line(&line, &set), "h\u{fffd}");
}

#[test]
fn test_bytes_whole_line_round_trips() {
    let set = set_of("1-5");
    let line = "hello".as_bytes().to_vec();
    assert_eq!(extract_bytes_line(&line, &set), "hello");
}

#[test]
fn test_select_fields() {
    let fields = vec!["a".to_string(), "b".to_string(), "c".to_string()];
    let set = set_of("1,3");
    assert_eq!(select_fields(&fields, &set), vec!["a", "c"]);
}

#[test]
fn test_fields_end_to_end() {
    // Tab-delimited "a\tb\tc" with positions [0,1) and [2,3) gives "a\tc".
    let set = set_of("1,3");
    let out = extract_fields_line("a\tb\tc", &set, b'\t');
    assert_eq!(out.unwrap(), "a\tc\n");
}

#[test]
fn test_fields_all_columns_reproduce_record() {
    // Selecting every column re-serializes the original record, up to the
    // trailing record terminator.
    let set = set_of("1-3");
    let out = extract_fields_line("a\tb\tc", &set, b'\t');
    assert_eq!(out.unwrap(), "a\tb\tc\n");
}

#[test]
fn test_fields_quoted_delimiter() {
    // A quoted field may contain the delimiter; it is kept whole and
    // re-quoted on output.
    let set = set_of("1");
    let out = extract_fields_line("\"a,b\",c", &set, b',');
    assert_eq!(out.unwrap(), "\"a,b\"\n");
}

#[test]
fn test_fields_custom_delimiter() {
    let set = set_of("2");
    let out = extract_fields_line("a;b;c", &set, b';');
    assert_eq!(out.unwrap(), "b\n");
}
