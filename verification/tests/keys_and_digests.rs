use dkim_verifier::dns::{key_query, key_record_name};
use dkim_verifier::key::{parse_key_record, KeyResolution, PublicKeyMaterial};
use dkim_verifier::signature::{
    algorithm, canonicalization, mode, signed_names, HashAlgorithm, KeyAlgorithm,
    SignatureAlgorithm,
};
use dkim_verifier::canon::Canonicalization;
use dkim_verifier::signing::{
    build_signing_input, canonicalize_signed_fields, compute_digest, hash_texts_match,
    remove_signature, verify_body_hash, verify_signature,
};
use dkim_verifier::message::HeaderField;
use dkim_verifier::tags::parse_tag_list;

fn hex(bytes: &[u8]) -> String {
    let mut s = String::new();
    for b in bytes {
        s.push_str(&format!("{:02x}", b));
    }
    s
}

fn field(name: &[u8], value: &[u8]) -> HeaderField {
    HeaderField { name: name.to_vec(), value: value.to_vec() }
}

#[test]
fn digests_of_abc() {
    assert_eq!(
        hex(&compute_digest(HashAlgorithm::Sha256, b"abc")),
        "ba7816bf8f01cfea414140de5dae2223b00361a396177a9cb410ff61f20015ad"
    );
    assert_eq!(hex(&compute_digest(HashAlgorithm::Sha1, b"abc")), "a9993e364706816aba3e25717850c26c9cd0d89d");
}

#[test]
fn body_hash_is_compared_as_base64_text() {
    assert!(verify_body_hash(b"abc", HashAlgorithm::Sha256, b"ungWv48Bz+pBQUDeXa4iI7ADYaOWF3qctBD/YfIAFa0="));
    assert!(verify_body_hash(b"abc", HashAlgorithm::Sha1, b"qZk+NkcGgWq6PiVxeFDCbJzQ2J0="));
    assert!(!verify_body_hash(b"abd", HashAlgorithm::Sha256, b"ungWv48Bz+pBQUDeXa4iI7ADYaOWF3qctBD/YfIAFa0="));
    assert!(!verify_body_hash(b"abc", HashAlgorithm::Sha1, b"ungWv48Bz+pBQUDeXa4iI7ADYaOWF3qctBD/YfIAFa0="));
    assert!(!verify_body_hash(b"abc", HashAlgorithm::Sha256, b"abc"));
    assert!(!verify_body_hash(b"abc", HashAlgorithm::Sha256, b""));
    assert!(hash_texts_match(b"YQ==", b"YQ=="));
    assert!(!hash_texts_match(b"YQ==", b"YQ="));
}

#[test]
fn key_record_with_key() {
    match parse_key_record(b"v=DKIM1; k=ed25519; p=11qYAYKxCrfVS/7TyWQHOg7hcvPapiMlrwIaaPcHURo=") {
        KeyResolution::Resolved(key) => {
            assert_eq!(key.algorithm, KeyAlgorithm::Ed25519);
            assert_eq!(key.bytes.len(), 32);
            assert_eq!(hex(&key.bytes[..4]), "d75a9801");
        }
        other => panic!("{:?}", other),
    }
    assert_eq!(
        parse_key_record(b"p = YW Jj\r\n ZA=="),
        KeyResolution::Resolved(PublicKeyMaterial { algorithm: KeyAlgorithm::Rsa, bytes: b"abcd".to_vec() })
    );
    assert_eq!(
        parse_key_record(b"k=rsa; p=YQ=="),
        KeyResolution::Resolved(PublicKeyMaterial { algorithm: KeyAlgorithm::Rsa, bytes: b"a".to_vec() })
    );
}

#[test]
fn key_record_without_key() {
    assert_eq!(parse_key_record(b"v=DKIM1; k=rsa"), KeyResolution::NotFound);
    assert_eq!(parse_key_record(b"v=DKIM1; k=rsa; p="), KeyResolution::NotFound);
    assert_eq!(parse_key_record(b"v=DKIM1; k=dsa; p=YQ=="), KeyResolution::NotFound);
    assert_eq!(parse_key_record(b"v=DKIM1; p=not base64!"), KeyResolution::NotFound);
    assert_eq!(parse_key_record(b""), KeyResolution::NotFound);
}

#[test]
fn name_of_the_key_record() {
    assert_eq!(key_record_name(b"s1", b"example.com"), b"s1._domainkey.example.com");
}

#[test]
fn query_for_the_key_record() {
    let q = key_query(b"s1", b"example.com").unwrap();
    let mut expected: Vec<u8> = vec![0x12, 0x34, 0x01, 0x00, 0x00, 0x01, 0, 0, 0, 0, 0, 0];
    expected.extend_from_slice(b"\x02s1\x0a_domainkey\x07example\x03com");
    expected.extend_from_slice(&[0x00, 0x00, 0x10, 0x00, 0x01]);
    assert_eq!(q, expected);
}

#[test]
fn query_is_refused_for_labels_that_cannot_be_carried() {
    assert_eq!(key_query(b"", b"example.com"), None);
    assert_eq!(key_query(b"s1", b"example..com"), None);
    assert_eq!(key_query(b"s1", b"example.com."), None);
    let long = vec![b'a'; 64];
    assert_eq!(key_query(&long, b"example.com"), None);
    let fits = vec![b'a'; 63];
    assert!(key_query(&fits, b"example.com").is_some());
}

#[test]
fn algorithm_and_modes_of_the_tags() {
    assert_eq!(algorithm(&parse_tag_list(b"v=1")), Some(SignatureAlgorithm::RsaSha256));
    assert_eq!(algorithm(&parse_tag_list(b"a=rsa-sha256")), Some(SignatureAlgorithm::RsaSha256));
    assert_eq!(algorithm(&parse_tag_list(b"a=rsa-sha1")), Some(SignatureAlgorithm::RsaSha1));
    assert_eq!(algorithm(&parse_tag_list(b"a=ed25519-sha256")), Some(SignatureAlgorithm::Ed25519Sha256));
    assert_eq!(algorithm(&parse_tag_list(b"a=RSA-SHA256")), None);
    assert_eq!(algorithm(&parse_tag_list(b"a=")), None);
    assert_eq!(SignatureAlgorithm::RsaSha1.hash(), HashAlgorithm::Sha1);
    assert_eq!(SignatureAlgorithm::RsaSha256.hash(), HashAlgorithm::Sha256);
    assert_eq!(SignatureAlgorithm::Ed25519Sha256.hash(), HashAlgorithm::Sha256);
    assert_eq!(SignatureAlgorithm::RsaSha1.key(), KeyAlgorithm::Rsa);
    assert_eq!(SignatureAlgorithm::Ed25519Sha256.key(), KeyAlgorithm::Ed25519);

    let s = Canonicalization::Simple;
    let r = Canonicalization::Relaxed;
    assert_eq!(canonicalization(&parse_tag_list(b"v=1")), Some((s, s)));
    assert_eq!(canonicalization(&parse_tag_list(b"c=relaxed")), Some((r, s)));
    assert_eq!(canonicalization(&parse_tag_list(b"c=simple")), Some((s, s)));
    assert_eq!(canonicalization(&parse_tag_list(b"c=simple/relaxed")), Some((s, r)));
    assert_eq!(canonicalization(&parse_tag_list(b"c=relaxed / relaxed")), Some((r, r)));
    assert_eq!(canonicalization(&parse_tag_list(b"c=relaxed/")), None);
    assert_eq!(canonicalization(&parse_tag_list(b"c=")), None);
    assert_eq!(canonicalization(&parse_tag_list(b"c=a/b/c")), None);
    assert_eq!(mode(b"simple"), Some(s));
    assert_eq!(mode(b"Simple"), None);
}

#[test]
fn names_of_the_signed_header_fields() {
    assert_eq!(
        signed_names(&parse_tag_list(b"h= from : To:\r\n subject ")),
        vec![b"from".to_vec(), b"To".to_vec(), b"subject".to_vec()]
    );
    assert_eq!(signed_names(&parse_tag_list(b"h=")), vec![b"".to_vec()]);
    assert!(signed_names(&parse_tag_list(b"v=1")).is_empty());
}

#[test]
fn signature_value_is_taken_out_and_nothing_else() {
    assert_eq!(remove_signature(b" v=1; b=abc; d=x"), b" v=1; b=; d=x");
    assert_eq!(remove_signature(b" v=1; bh=abc;\r\n b = ab\r\n cd"), b" v=1; bh=abc;\r\n b =");
    assert_eq!(remove_signature(b"b=abc"), b"b=");
    assert_eq!(remove_signature(b"bh=abc; x; ;"), b"bh=abc; x; ;");
    assert_eq!(remove_signature(b""), b"");
}

#[test]
fn signed_fields_are_taken_from_the_bottom_up() {
    let headers = vec![
        field(b"Received", b" one"),
        field(b"From", b" a"),
        field(b"RECEIVED", b" two"),
        field(b"To", b" b"),
    ];
    let names = vec![
        b"received".to_vec(),
        b"from".to_vec(),
        b"received".to_vec(),
        b"received".to_vec(),
        b"cc".to_vec(),
    ];
    assert_eq!(
        canonicalize_signed_fields(&headers, &names, None, Canonicalization::Relaxed),
        b"received:two\r\nfrom:a\r\nreceived:one\r\n"
    );
    assert_eq!(
        canonicalize_signed_fields(&headers, &names, Some(2), Canonicalization::Simple),
        b"Received: one\r\nFrom: a\r\n"
    );
    assert_eq!(
        build_signing_input(&headers, &names, &field(b"DKIM-Signature", b" v=1; b=xyz"), None, Canonicalization::Relaxed),
        b"received:two\r\nfrom:a\r\nreceived:one\r\ndkim-signature:v=1; b="
    );
}

#[test]
fn signature_needs_a_key_of_its_type() {
    let rsa = PublicKeyMaterial { algorithm: KeyAlgorithm::Rsa, bytes: vec![1, 2, 3] };
    let ed = PublicKeyMaterial { algorithm: KeyAlgorithm::Ed25519, bytes: vec![0; 32] };
    assert!(!verify_signature(b"data", &[0; 64], &rsa, SignatureAlgorithm::Ed25519Sha256));
    assert!(!verify_signature(b"data", &[0; 64], &ed, SignatureAlgorithm::RsaSha256));
    assert!(!verify_signature(b"data", &[0; 64], &rsa, SignatureAlgorithm::RsaSha256));
    assert!(!verify_signature(b"data", &[0; 64], &rsa, SignatureAlgorithm::RsaSha1));
    assert!(!verify_signature(b"data", &[0; 63], &ed, SignatureAlgorithm::Ed25519Sha256));
    assert!(!verify_signature(b"data", &[], &ed, SignatureAlgorithm::Ed25519Sha256));
}
