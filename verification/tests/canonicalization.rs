use dkim_verifier::canon::{
    canonicalize_body, canonicalize_header, canonicalize_header_text, normalize_bytes,
    relaxed_name_bytes, relaxed_value_bytes, squeeze_bytes, stripped_len, Canonicalization,
};

const ODD_INPUTS: [&[u8]; 14] = [
    b"",
    b"\r",
    b"\n",
    b"\r\n",
    b" ",
    b" \r \n",
    b"\r\r\n\n",
    b"a \t b  \r\nc",
    b"  lead\r\n \r\n\ttab\t\r\n\r\n\r\n",
    b"no newline at end  ",
    b"a\nb\n\n",
    b"\t\r\n\t\r\n",
    b"x \r",
    b"x \rY\n z",
];

#[test]
fn simple_body_ends_in_exactly_one_line_terminator() {
    assert_eq!(canonicalize_body(b"a\r\n\r\n\r\n", Canonicalization::Simple), b"a\r\n");
    assert_eq!(canonicalize_body(b"a\r\n", Canonicalization::Simple), b"a\r\n");
    assert_eq!(canonicalize_body(b"a", Canonicalization::Simple), b"a\r\n");
    assert_eq!(canonicalize_body(b"\r\n\r\n", Canonicalization::Simple), b"\r\n");
}

#[test]
fn simple_body_of_nothing_is_one_line_terminator() {
    assert_eq!(canonicalize_body(b"", Canonicalization::Simple), b"\r\n");
}

#[test]
fn simple_body_keeps_blanks_and_inner_empty_lines() {
    assert_eq!(
        canonicalize_body(b"Hello  Bob,\r\n\r\nthis is \t the body. \r\n\r\n\r\n", Canonicalization::Simple),
        b"Hello  Bob,\r\n\r\nthis is \t the body. \r\n"
    );
}

#[test]
fn simple_body_repairs_bare_line_feeds() {
    assert_eq!(canonicalize_body(b"a\nb\n\n", Canonicalization::Simple), b"a\r\nb\r\n");
    assert_eq!(normalize_bytes(b"a\nb\r\nc\rd"), b"a\r\nb\r\nc\rd");
    assert_eq!(normalize_bytes(b"\r\r\n\n"), b"\r\r\n\r\n");
}

#[test]
fn relaxed_body_squeezes_blanks_and_drops_trailing_lines() {
    assert_eq!(
        canonicalize_body(b"Hello  Bob,\r\n\r\nthis is \t the body. \r\n\r\n\r\n", Canonicalization::Relaxed),
        b"Hello Bob,\r\n\r\nthis is the body.\r\n"
    );
    assert_eq!(canonicalize_body(b"a \t b  \r\nc", Canonicalization::Relaxed), b"a b\r\nc\r\n");
    assert_eq!(canonicalize_body(b"  lead", Canonicalization::Relaxed), b" lead\r\n");
}

#[test]
fn relaxed_body_of_nothing_is_nothing() {
    assert_eq!(canonicalize_body(b"", Canonicalization::Relaxed), b"");
    assert_eq!(canonicalize_body(b"\r\n\r\n", Canonicalization::Relaxed), b"");
    assert_eq!(canonicalize_body(b" \t\r\n \r\n", Canonicalization::Relaxed), b"");
}

#[test]
fn relaxed_body_of_published_example() {
    // " C \r\nD \t E\r\n\r\n\r\n" is the body of the example in the DKIM standard.
    assert_eq!(canonicalize_body(b" C \r\nD \t E\r\n\r\n\r\n", Canonicalization::Relaxed), b" C\r\nD E\r\n");
    assert_eq!(canonicalize_body(b" C \r\nD \t E\r\n\r\n\r\n", Canonicalization::Simple), b" C \r\nD \t E\r\n");
}

#[test]
fn relaxed_header_of_published_example() {
    assert_eq!(canonicalize_header(b"A", b" X", Canonicalization::Relaxed), b"a:X\r\n");
    assert_eq!(canonicalize_header(b"B ", b" Y\t\r\n\tZ  ", Canonicalization::Relaxed), b"b:Y Z\r\n");
}

#[test]
fn simple_header_is_passed_through() {
    assert_eq!(canonicalize_header(b"A", b" X", Canonicalization::Simple), b"A: X\r\n");
    assert_eq!(canonicalize_header(b"B ", b" Y\t\r\n\tZ  ", Canonicalization::Simple), b"B : Y\t\r\n\tZ  \r\n");
}

#[test]
fn header_text_has_no_line_terminator() {
    assert_eq!(canonicalize_header_text(b"SUBJect", b"  Hi  there ", Canonicalization::Relaxed), b"subject:Hi there");
    assert_eq!(canonicalize_header_text(b"SUBJect", b"  Hi  there ", Canonicalization::Simple), b"SUBJect:  Hi  there ");
}

#[test]
fn relaxed_name_and_value() {
    assert_eq!(relaxed_name_bytes(b"Message-ID \t"), b"message-id");
    assert_eq!(relaxed_value_bytes(b" \r\n a\r\n  b \t c  "), b"a b c");
    assert_eq!(relaxed_value_bytes(b"   "), b"");
}

#[test]
fn squeeze_keeps_one_space_per_run() {
    assert_eq!(squeeze_bytes(b"a  b\t\tc ", false), b"a b c");
    assert_eq!(squeeze_bytes(b"a \r\n b", false), b"a\r\n b");
    assert_eq!(squeeze_bytes(b"a \r\n b", true), b"a b");
    assert_eq!(squeeze_bytes(b" \r x", false), b" \r x");
}

#[test]
fn stripped_len_counts_what_stays() {
    assert_eq!(stripped_len(b"ab\r\n\r\n"), 2);
    assert_eq!(stripped_len(b"ab\r\n\n"), 5);
    assert_eq!(stripped_len(b"\r\n"), 0);
    assert_eq!(stripped_len(b""), 0);
}

#[test]
fn body_canonicalization_is_idempotent() {
    for mode in [Canonicalization::Simple, Canonicalization::Relaxed] {
        for input in ODD_INPUTS {
            let once = canonicalize_body(input, mode);
            let twice = canonicalize_body(&once, mode);
            assert_eq!(once, twice, "{:?} {:?}", mode, input);
        }
    }
}

#[test]
fn header_parts_are_idempotent() {
    for input in ODD_INPUTS {
        let name = relaxed_name_bytes(input);
        assert_eq!(relaxed_name_bytes(&name), name);
        let value = relaxed_value_bytes(input);
        assert_eq!(relaxed_value_bytes(&value), value);
        let lines = normalize_bytes(input);
        assert_eq!(normalize_bytes(&lines), lines);
    }
}

#[test]
fn header_line_canonicalization_is_idempotent() {
    for mode in [Canonicalization::Simple, Canonicalization::Relaxed] {
        for value in ODD_INPUTS {
            let once = canonicalize_header(b"Subject ", value, mode);
            let colon = once.iter().position(|b| *b == b':').unwrap();
            let twice = canonicalize_header(&once[..colon], &once[colon + 1..once.len() - 2], mode);
            assert_eq!(once, twice, "{:?} {:?}", mode, value);
        }
    }
}
