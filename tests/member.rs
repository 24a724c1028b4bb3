use unihan::{parse_member, ErrorKind};

#[test]
fn member_records_in_line_order() {
    let text = b"# header\nU+4E00\tkDefinition\tone\n\nU+4E01\tkDefinition\tseventh\n";
    let recs = parse_member(&text.to_vec()).unwrap();
    assert_eq!(recs.len(), 2);
    assert_eq!(recs[0].character, 0x4E00);
    assert_eq!(recs[0].value, "one");
    assert_eq!(recs[1].character, 0x4E01);
    assert_eq!(recs[1].value, "seventh");
}

#[test]
fn crlf_endings_are_stripped() {
    let text = b"U+4E00\tkDefinition\tone\r\nU+4E01\tkTotal\t2\r\n";
    let recs = parse_member(&text.to_vec()).unwrap();
    assert_eq!(recs[0].value, "one");
    assert_eq!(recs[1].value, "2");
}

#[test]
fn last_line_without_newline_counts() {
    let recs = parse_member(&b"U+41\ta\tb".to_vec()).unwrap();
    assert_eq!(recs.len(), 1);
    assert_eq!(recs[0].value, "b");
}

#[test]
fn carriage_return_without_newline_is_kept() {
    let recs = parse_member(&b"U+41\ta\tb\r".to_vec()).unwrap();
    assert_eq!(recs[0].value, "b\r");
}

#[test]
fn empty_member_has_no_records() {
    assert!(parse_member(&Vec::new()).unwrap().is_empty());
    assert!(parse_member(&b"\n\n# only comments\n".to_vec()).unwrap().is_empty());
}

#[test]
fn malformed_line_fails_the_member() {
    let text = b"U+4E00\ta\tb\nU+ZZ\ta\tb\nU+4E01\ta\tb\n";
    let e = parse_member(&text.to_vec()).unwrap_err();
    assert_eq!(e.kind, ErrorKind::Parse);
}

#[test]
fn invalid_utf8_fails_the_member() {
    let text = b"U+4E00\ta\tb\n\xff\xfe\n".to_vec();
    let e = parse_member(&text).unwrap_err();
    assert_eq!(e.kind, ErrorKind::Encoding);
}

#[test]
fn first_failure_wins() {
    let text = b"\xff\nU+ZZ\ta\tb\n".to_vec();
    assert_eq!(parse_member(&text).unwrap_err().kind, ErrorKind::Encoding);
    let text = b"U+ZZ\ta\tb\n\xff\n".to_vec();
    assert_eq!(parse_member(&text).unwrap_err().kind, ErrorKind::Parse);
}
