use distore::codec::{head_content, marker_line, tail_content};
use distore::numbers::u64_to_string;
use distore::{FileEntry, IntParseError, ParseError};

const MARKER: &str = "### This message is generated by Distore. Do not edit this message.";

#[test]
fn decode_head_scenario() {
    let e = FileEntry::from_str("name=a.txt\nsize=10\nlen=1\n").unwrap();
    assert_eq!(e.name, Some("a.txt".to_string()));
    assert_eq!(e.size, Some(10));
    assert_eq!(e.len, Some(1));
    assert_eq!(e.next, None);
}

#[test]
fn decode_missing_separator() {
    match FileEntry::from_str("size") {
        Err(ParseError::InvalidInput(s)) => assert_eq!(s, "size"),
        _ => panic!("expected an InvalidInput error"),
    }
    match FileEntry::from_str("name=a.txt\nsize\nlen=1\n") {
        Err(ParseError::InvalidInput(s)) => assert_eq!(s, "name=a.txt\nsize\nlen=1\n"),
        _ => panic!("expected an InvalidInput error"),
    }
}

#[test]
fn decode_empty_yields_all_absent() {
    let e = FileEntry::from_str("").unwrap();
    assert!(e.name.is_none());
    assert!(e.size.is_none());
    assert!(e.len.is_none());
    assert!(e.next.is_none());
}

#[test]
fn decode_without_next_line_yields_no_next() {
    let e = FileEntry::from_str("name=f\nsize=3\nlen=1\n").unwrap();
    assert_eq!(e.next, None);
    let e = FileEntry::from_str(&format!("{}\nname=f\nsize=3\nlen=2\n", MARKER)).unwrap();
    assert_eq!(e.next, None);
}

#[test]
fn decode_skips_comments_and_unknown_keys() {
    let e = FileEntry::from_str("# a comment\nfoo=bar\nname=n\n\n").unwrap();
    assert_eq!(e.name, Some("n".to_string()));
    assert!(e.size.is_none());
    assert!(e.len.is_none());
    assert!(e.next.is_none());
}

#[test]
fn decode_numeric_errors() {
    match FileEntry::from_str("size=abc") {
        Err(ParseError::ParseIntError(IntParseError::InvalidDigit)) => {}
        _ => panic!("expected an InvalidDigit error"),
    }
    match FileEntry::from_str("size=99999999999999999999999") {
        Err(ParseError::ParseIntError(IntParseError::PosOverflow)) => {}
        _ => panic!("expected a PosOverflow error"),
    }
    match FileEntry::from_str("len=") {
        Err(ParseError::ParseIntError(IntParseError::Empty)) => {}
        _ => panic!("expected an Empty error"),
    }
}

#[test]
fn decode_takes_value_after_first_separator() {
    let e = FileEntry::from_str("name=a=b").unwrap();
    assert_eq!(e.name, Some("a=b".to_string()));
}

#[test]
fn decode_last_key_wins() {
    let e = FileEntry::from_str("size=1\nsize=2").unwrap();
    assert_eq!(e.size, Some(2));
}

#[test]
fn encode_head_without_next() {
    let c = head_content("a.txt", 10, 1, None);
    assert_eq!(c, format!("{}\nname=a.txt\nsize=10\nlen=1\n", MARKER));
}

#[test]
fn encode_head_with_next() {
    let c = head_content("a.txt", 10, 3, Some(42));
    assert_eq!(c, format!("{}\nname=a.txt\nsize=10\nlen=3\nnext=42", MARKER));
}

#[test]
fn encode_tail() {
    assert_eq!(tail_content(Some(7)), "next=7");
    assert_eq!(tail_content(None), "");
}

#[test]
fn encode_then_decode_gives_fields_back() {
    let c = head_content("some file.bin", u64::MAX, 12345, Some(u64::MAX));
    let e = FileEntry::from_str(&c).unwrap();
    assert_eq!(e.name, Some("some file.bin".to_string()));
    assert_eq!(e.size, Some(u64::MAX));
    assert_eq!(e.len, Some(12345));
    assert_eq!(e.next, Some(u64::MAX));
}

#[test]
fn marker_is_the_expected_line() {
    assert_eq!(marker_line(), MARKER);
}

#[test]
fn u64_formatting() {
    assert_eq!(u64_to_string(0), "0");
    assert_eq!(u64_to_string(10), "10");
    assert_eq!(u64_to_string(u64::MAX), "18446744073709551615");
}

#[test]
fn default_entry_has_all_fields_absent() {
    let e = FileEntry::default();
    assert!(e.name.is_none() && e.size.is_none() && e.len.is_none() && e.next.is_none());
    let e = FileEntry::new();
    assert!(e.name.is_none() && e.size.is_none() && e.len.is_none() && e.next.is_none());
}
