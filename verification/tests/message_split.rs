use dkim_verifier::message::{header_field, split_message, HeaderField};

const MAIL: &[u8] = b"From: Alice <alice@example.com>\r\nTo: Bob <bob@example.org>\r\nSubject: A  test\r\n\tof  folding\r\nDate: Mon, 1 Jan 2024 00:00:00 +0000\r\n\r\nHello  Bob,\r\n\r\nthis is \t the body. \r\n\r\n\r\n";

fn field(name: &[u8], value: &[u8]) -> HeaderField {
    HeaderField { name: name.to_vec(), value: value.to_vec() }
}

#[test]
fn splits_header_fields_and_body() {
    let m = split_message(MAIL).unwrap();
    assert_eq!(
        m.headers,
        vec![
            field(b"From", b" Alice <alice@example.com>"),
            field(b"To", b" Bob <bob@example.org>"),
            field(b"Subject", b" A  test\r\n\tof  folding"),
            field(b"Date", b" Mon, 1 Jan 2024 00:00:00 +0000"),
        ]
    );
    assert_eq!(m.body, b"Hello  Bob,\r\n\r\nthis is \t the body. \r\n\r\n\r\n");
}

#[test]
fn message_without_body() {
    let m = split_message(b"A: 1\r\nB:2\r\n").unwrap();
    assert_eq!(m.headers, vec![field(b"A", b" 1"), field(b"B", b"2")]);
    assert_eq!(m.body, b"");
    let n = split_message(b"A: 1").unwrap();
    assert_eq!(n.headers, vec![field(b"A", b" 1")]);
    assert_eq!(n.body, b"");
}

#[test]
fn message_without_header_fields() {
    let m = split_message(b"\r\nbody").unwrap();
    assert!(m.headers.is_empty());
    assert_eq!(m.body, b"body");
    let e = split_message(b"").unwrap();
    assert!(e.headers.is_empty());
    assert_eq!(e.body, b"");
}

#[test]
fn bare_line_feeds_end_lines_too() {
    let m = split_message(b"A: 1\nB: 2\n c\n\nbody\n").unwrap();
    assert_eq!(m.headers, vec![field(b"A", b" 1"), field(b"B", b" 2\n c")]);
    assert_eq!(m.body, b"body\n");
}

#[test]
fn name_keeps_blanks_before_colon() {
    let m = split_message(b"Subject : x\r\n\r\n").unwrap();
    assert_eq!(m.headers, vec![field(b"Subject ", b" x")]);
}

#[test]
fn line_without_colon_is_a_name_without_value() {
    let m = split_message(b"nocolon\nA: 1\n\n").unwrap();
    assert_eq!(m.headers, vec![field(b"nocolon", b""), field(b"A", b" 1")]);
}

#[test]
fn lone_carriage_return_in_place_of_empty_line_is_refused() {
    assert_eq!(split_message(b"A: 1\r\n\rbody"), None);
}

#[test]
fn line_that_begins_with_a_space_is_refused() {
    assert_eq!(split_message(b" A: 1\r\n\r\nbody"), None);
}

#[test]
fn header_field_from_extent() {
    let raw = b"xxA: b\r\nyy";
    assert_eq!(header_field(raw, 2, 8, 1), field(b"A", b" b"));
    assert_eq!(header_field(raw, 2, 7, 1), field(b"A", b" b\r"));
    assert_eq!(header_field(raw, 2, 6, 1), field(b"A", b" b"));
    assert_eq!(header_field(raw, 2, 4, 1), field(b"A", b""));
    assert_eq!(header_field(raw, 2, 4, 2), field(b"A:", b""));
    assert_eq!(header_field(b"A:\n", 0, 3, 1), field(b"A", b""));
    assert_eq!(header_field(b"A:\r\n", 0, 4, 1), field(b"A", b""));
}
