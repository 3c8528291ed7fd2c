use dkim_verifier::tags::{
    parse_dkim_signature, parse_tag_list, parse_tags, DkimSignatureTags, MalformedSignature,
    MandatoryTag,
};

fn value(tags: &DkimSignatureTags, name: &str) -> Option<String> {
    tags.get(name.as_bytes()).map(|v| String::from_utf8(v.clone()).unwrap())
}

#[test]
fn parses_the_tags_of_a_signature() {
    let tags = parse_dkim_signature(
        "v=1; a=rsa-sha256; d=example.com; s=s1; h=from:subject; bh=YWJj; b=ZGVm",
    )
    .unwrap();
    assert_eq!(value(&tags, "v").as_deref(), Some("1"));
    assert_eq!(value(&tags, "a").as_deref(), Some("rsa-sha256"));
    assert_eq!(value(&tags, "d").as_deref(), Some("example.com"));
    assert_eq!(value(&tags, "s").as_deref(), Some("s1"));
    assert_eq!(value(&tags, "h").as_deref(), Some("from:subject"));
    assert_eq!(value(&tags, "bh").as_deref(), Some("YWJj"));
    assert_eq!(value(&tags, "b").as_deref(), Some("ZGVm"));
    assert_eq!(value(&tags, "c"), None);
    assert!(tags.contains(b"bh"));
    assert!(!tags.contains(b"x"));
}

#[test]
fn value_begins_after_the_first_equals_sign() {
    let tags = parse_dkim_signature("d=a; s=b; h=c; bh=YQ==; b=Yg==; x=1=2=3").unwrap();
    assert_eq!(value(&tags, "bh").as_deref(), Some("YQ=="));
    assert_eq!(value(&tags, "b").as_deref(), Some("Yg=="));
    assert_eq!(value(&tags, "x").as_deref(), Some("1=2=3"));
}

#[test]
fn later_tag_replaces_earlier_one() {
    let tags = parse_dkim_signature("d=first; s=b; h=c; bh=x; b=y; d=second").unwrap();
    assert_eq!(value(&tags, "d").as_deref(), Some("second"));
}

#[test]
fn order_of_tags_does_not_matter() {
    let a = parse_dkim_signature("b=1; bh=2; d=3; s=4; h=5").unwrap();
    let b = parse_dkim_signature("h=5; s=4; d=3; bh=2; b=1").unwrap();
    for name in ["b", "bh", "d", "s", "h"] {
        assert_eq!(value(&a, name), value(&b, name));
    }
}

#[test]
fn names_and_values_are_trimmed_outside_only() {
    let tags = parse_dkim_signature(" d = exa mple ;\r\n s\t=\ts1 ; h= from : to ; bh=x; b=y").unwrap();
    assert_eq!(value(&tags, "d").as_deref(), Some("exa mple"));
    assert_eq!(value(&tags, "s").as_deref(), Some("s1"));
    assert_eq!(value(&tags, "h").as_deref(), Some("from : to"));
}

#[test]
fn base64_tags_lose_inner_white_space() {
    let tags = parse_dkim_signature("d=a; s=b; h=c; bh= YW Jj\r\n ZA== ; b=ab\r\n\tcd ef").unwrap();
    assert_eq!(value(&tags, "bh").as_deref(), Some("YWJjZA=="));
    assert_eq!(value(&tags, "b").as_deref(), Some("abcdef"));
}

#[test]
fn segments_without_equals_sign_are_passed_over() {
    let tags = parse_dkim_signature("junk; d=a; ; s=b; h=c; bh=x; b=y;").unwrap();
    assert_eq!(value(&tags, "d").as_deref(), Some("a"));
    assert_eq!(value(&tags, "junk"), None);
}

#[test]
fn missing_body_hash_is_malformed() {
    assert_eq!(
        parse_dkim_signature("v=1; d=example.com; s=s1; h=from; b=abc").err(),
        Some(MalformedSignature { missing: MandatoryTag::BodyHash })
    );
}

#[test]
fn body_hash_without_equals_sign_is_malformed() {
    assert_eq!(
        parse_dkim_signature("v=1; d=example.com; s=s1; h=from; bh; b=abc").err(),
        Some(MalformedSignature { missing: MandatoryTag::BodyHash })
    );
}

#[test]
fn each_missing_mandatory_tag_is_named() {
    assert_eq!(
        parse_tags(b"bh=1; d=2; s=3; h=4").err(),
        Some(MalformedSignature { missing: MandatoryTag::Signature })
    );
    assert_eq!(
        parse_tags(b"b=1; bh=1; s=3; h=4").err(),
        Some(MalformedSignature { missing: MandatoryTag::Domain })
    );
    assert_eq!(
        parse_tags(b"b=1; bh=1; d=3; h=4").err(),
        Some(MalformedSignature { missing: MandatoryTag::Selector })
    );
    assert_eq!(
        parse_tags(b"b=1; bh=1; d=3; s=4").err(),
        Some(MalformedSignature { missing: MandatoryTag::SignedHeaders })
    );
}

#[test]
fn first_missing_tag_is_reported() {
    assert_eq!(parse_tags(b"").err(), Some(MalformedSignature { missing: MandatoryTag::Signature }));
    assert_eq!(parse_tags(b"b=1").err(), Some(MalformedSignature { missing: MandatoryTag::BodyHash }));
}

#[test]
fn empty_value_counts_as_present() {
    let tags = parse_tags(b"b=; bh=; d=; s=; h=").unwrap();
    assert_eq!(value(&tags, "b").as_deref(), Some(""));
}

#[test]
fn tag_list_alone_asks_for_nothing() {
    let tags = parse_tag_list(b"v=DKIM1; k=rsa; p=abc");
    assert_eq!(value(&tags, "k").as_deref(), Some("rsa"));
    assert_eq!(value(&tags, "p").as_deref(), Some("abc"));
    let none = parse_tag_list(b"");
    assert!(!none.contains(b""));
}

#[test]
fn with_tag_sets_and_replaces() {
    let tags = DkimSignatureTags::new()
        .with_tag(b"a".to_vec(), b"1".to_vec())
        .with_tag(b"b".to_vec(), b"2".to_vec())
        .with_tag(b"a".to_vec(), b"3".to_vec());
    assert_eq!(value(&tags, "a").as_deref(), Some("3"));
    assert_eq!(value(&tags, "b").as_deref(), Some("2"));
    assert_eq!(value(&tags, "c"), None);
}
