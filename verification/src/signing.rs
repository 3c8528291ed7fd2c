//! The bytes that a signature signs, and the two checks made on them: the
//! hash of the body, and the signature over the header fields.

use vstd::prelude::*;
use crate::bytes::{
    append_bytes, ascii, bytes_eq, copy_range, find_byte, find_from, is_text, join,
    lemma_find_byte, seqs_of, split, split_bytes, trim_bytes, EQUALS, SEMICOLON,
};
use crate::canon::{
    canonical_header, canonical_header_text, canonicalize_header, canonicalize_header_text,
    relaxed_name, relaxed_name_bytes, Canonicalization,
};
use crate::crypto::{
    base64_encode, base64_text, ed25519_accepts, ed25519_verify, rsa_sha1_accepts,
    rsa_sha1_verify, rsa_sha256_accepts, rsa_sha256_verify, sha1, sha1_digest, sha256,
    sha256_digest,
};
use crate::key::{KeyText, PublicKeyMaterial};
use crate::message::{fields_of, FieldText, HeaderField};
use crate::signature::{HashAlgorithm, SignatureAlgorithm};
use crate::tags::{has_equals, tag_name};

verus! {

/// Whether the segment is the tag `b`, which holds the signature.
pub open spec fn is_signature_tag(segment: Seq<u8>) -> bool {
    has_equals(segment) && tag_name(segment) == ascii("b"@)
}

/// The segment as it is signed: the tag `b` keeps its name and loses its
/// value, every other segment stays as it is.
pub open spec fn emptied(segment: Seq<u8>) -> Seq<u8> {
    if is_signature_tag(segment) {
        segment.take(find_byte(segment, EQUALS) as int + 1)
    } else {
        segment
    }
}

/// The value of a signature header field with the value of its `b` tag
/// taken out.
pub open spec fn without_signature(value: Seq<u8>) -> Seq<u8> {
    let segments = split(value, SEMICOLON);
    join(Seq::new(segments.len(), |i: int| emptied(segments[i])), SEMICOLON)
}

/// The value of a signature header field with the signature taken out.
pub fn remove_signature(value: &[u8]) -> (r: Vec<u8>)
    ensures
        r@ == without_signature(value@),
{
    let segments = split_bytes(value, SEMICOLON);
    let ghost pieces = split(value@, SEMICOLON);
    let ghost signed = Seq::new(pieces.len(), |i: int| emptied(pieces[i]));
    let mut out: Vec<u8> = Vec::new();
    let mut i: usize = 0;
    assert(seqs_of(segments@).len() == segments@.len());
    while i < segments.len()
        invariant
            i <= segments@.len(),
            seqs_of(segments@) == pieces,
            segments@.len() == pieces.len(),
            signed == Seq::new(pieces.len(), |i: int| emptied(pieces[i])),
            out@ == join(signed.take(i as int), SEMICOLON),
        decreases segments@.len() - i,
    {
        let segment = segments[i].as_slice();
        let ghost before = out@;
        proof {
            assert(seqs_of(segments@)[i as int] == segment@);
            assert(signed.take(i + 1).drop_last() =~= signed.take(i as int));
            assert(signed.take(i + 1).last() == emptied(segment@));
            lemma_find_byte(segment@, EQUALS);
            reveal_strlit("b");
        }
        if i > 0 {
            out.push(SEMICOLON);
        }
        let eq = find_from(segment, EQUALS, 0);
        assert(segment@.skip(0) =~= segment@);
        let mut is_b = false;
        if eq < segment.len() {
            let name_part = copy_range(segment, 0, eq);
            assert(name_part@ =~= segment@.take(eq as int));
            let name = trim_bytes(name_part.as_slice());
            is_b = is_text(name.as_slice(), "b");
        }
        assert(is_b == is_signature_tag(segment@));
        if is_b {
            let kept = copy_range(segment, 0, eq + 1);
            assert(kept@ =~= segment@.take(eq as int + 1));
            append_bytes(&mut out, kept.as_slice());
        } else {
            append_bytes(&mut out, segment);
        }
        proof {
            if i == 0 {
                assert(before =~= Seq::<u8>::empty());
                assert(out@ =~= emptied(segment@));
            } else {
                assert(out@ =~= before + seq![SEMICOLON] + emptied(segment@));
            }
        }
        i += 1;
    }
    assert(signed.take(segments@.len() as int) =~= signed);
    out
}

/// Whether a header field with the name `field_name` is meant by `wanted`:
/// case and white space do not count.
pub open spec fn names_match(field_name: Seq<u8>, wanted: Seq<u8>) -> bool {
    relaxed_name(field_name) == relaxed_name(wanted)
}

/// The header fields already taken, as a set of indices.
pub open spec fn taken(used: Seq<bool>) -> Set<int> {
    Set::new(|i: int| 0 <= i < used.len() && used[i])
}

/// The index of the last header field before `below` that `wanted` means and
/// that is not in `used`; -1 where there is none.
pub open spec fn last_unused(
    headers: Seq<FieldText>,
    wanted: Seq<u8>,
    used: Set<int>,
    below: int,
) -> int
    decreases below,
{
    if below <= 0 {
        -1
    } else if !used.contains(below - 1) && names_match(headers[below - 1].name, wanted) {
        below - 1
    } else {
        last_unused(headers, wanted, used, below - 1)
    }
}

/// The signed header fields in canonical form, one after the other. Each
/// name of `names` takes the last header field of that name that no earlier
/// name took; a name without such a header field adds nothing.
pub open spec fn signed_fields_text(
    headers: Seq<FieldText>,
    names: Seq<Seq<u8>>,
    used: Set<int>,
    mode: Canonicalization,
) -> Seq<u8>
    decreases names.len(),
{
    if names.len() == 0 {
        Seq::empty()
    } else {
        let i = last_unused(headers, names[0], used, headers.len() as int);
        if 0 <= i < headers.len() {
            canonical_header(headers[i].name, headers[i].value, mode) + signed_fields_text(
                headers,
                names.skip(1),
                used.insert(i),
                mode,
            )
        } else {
            signed_fields_text(headers, names.skip(1), used, mode)
        }
    }
}

fn find_last_unused(headers: &Vec<HeaderField>, wanted: &[u8], used: &Vec<bool>) -> (r: Option<
    usize,
>)
    requires
        used@.len() == headers@.len(),
    ensures
        match r {
            Some(i) => i < headers@.len() && i == last_unused(
                fields_of(headers@),
                wanted@,
                taken(used@),
                headers@.len() as int,
            ),
            None => last_unused(
                fields_of(headers@),
                wanted@,
                taken(used@),
                headers@.len() as int,
            ) == -1,
        },
{
    let relaxed = relaxed_name_bytes(wanted);
    let mut i: usize = headers.len();
    while i > 0
        invariant
            i <= headers@.len(),
            used@.len() == headers@.len(),
            relaxed@ == relaxed_name(wanted@),
            last_unused(fields_of(headers@), wanted@, taken(used@), headers@.len() as int)
                == last_unused(fields_of(headers@), wanted@, taken(used@), i as int),
        decreases i,
    {
        let name = relaxed_name_bytes(headers[i - 1].name.as_slice());
        assert(fields_of(headers@)[i - 1].name == headers@[i - 1].name@);
        if !used[i - 1] && bytes_eq(name.as_slice(), relaxed.as_slice()) {
            return Some(i - 1);
        }
        i -= 1;
    }
    None
}

/// The signed header fields in canonical form, one after the other.
pub fn canonicalize_signed_fields(
    headers: &Vec<HeaderField>,
    names: &Vec<Vec<u8>>,
    own: Option<usize>,
    mode: Canonicalization,
) -> (r: Vec<u8>)
    ensures
        r@ == signed_fields_text(fields_of(headers@), seqs_of(names@), own_set(own), mode),
{
    let mut used: Vec<bool> = Vec::new();
    let mut j: usize = 0;
    while j < headers.len()
        invariant
            j <= headers@.len(),
            used@.len() == j,
            forall|i: int| 0 <= i < j ==> used@[i] == own_set(own).contains(i),
        decreases headers@.len() - j,
    {
        used.push(own == Some(j));
        j += 1;
    }
    let ghost fields = fields_of(headers@);
    let ghost wanted = seqs_of(names@);
    let ghost whole = signed_fields_text(fields, wanted, own_set(own), mode);
    let mut out: Vec<u8> = Vec::new();
    let mut k: usize = 0;
    proof {
        assert(wanted.skip(0) =~= wanted);
        lemma_own_set(fields, wanted, own, used@, mode);
    }
    while k < names.len()
        invariant
            k <= names@.len(),
            used@.len() == headers@.len(),
            fields == fields_of(headers@),
            wanted == seqs_of(names@),
            whole == out@ + signed_fields_text(fields, wanted.skip(k as int), taken(used@), mode),
        decreases names@.len() - k,
    {
        let ghost before = out@;
        let ghost rest = wanted.skip(k as int);
        let ghost was = taken(used@);
        assert(rest[0] == names@[k as int]@);
        assert(rest.skip(1) =~= wanted.skip(k + 1));
        match find_last_unused(headers, names[k].as_slice(), &used) {
            Some(i) => {
                let line = canonicalize_header(
                    headers[i].name.as_slice(),
                    headers[i].value.as_slice(),
                    mode,
                );
                append_bytes(&mut out, line.as_slice());
                used.set(i, true);
                assert(taken(used@) =~= was.insert(i as int));
                assert(fields[i as int] == headers@[i as int]@);
                assert(whole =~= out@ + signed_fields_text(
                    fields,
                    wanted.skip(k + 1),
                    taken(used@),
                    mode,
                ));
            },
            None => {},
        }
        k += 1;
    }
    assert(whole =~= out@);
    out
}

/// The header fields that are out of reach from the start: the signature's
/// own one, where it stands among the others.
pub open spec fn own_set(own: Option<usize>) -> Set<int> {
    match own {
        Some(i) => set![i as int],
        None => Set::empty(),
    }
}

proof fn lemma_own_set(
    fields: Seq<FieldText>,
    names: Seq<Seq<u8>>,
    own: Option<usize>,
    used: Seq<bool>,
    mode: Canonicalization,
)
    requires
        used.len() == fields.len(),
        forall|i: int| 0 <= i < used.len() ==> used[i] == own_set(own).contains(i),
    ensures
        signed_fields_text(fields, names, own_set(own), mode) == signed_fields_text(
            fields,
            names,
            taken(used),
            mode,
        ),
{
    lemma_used_in_range(fields, names, own_set(own), taken(used), mode);
}

/// Only the indices of header fields count in `used`.
proof fn lemma_used_in_range(
    fields: Seq<FieldText>,
    names: Seq<Seq<u8>>,
    a: Set<int>,
    b: Set<int>,
    mode: Canonicalization,
)
    requires
        forall|i: int| 0 <= i < fields.len() ==> (a.contains(i) <==> b.contains(i)),
    ensures
        signed_fields_text(fields, names, a, mode) == signed_fields_text(fields, names, b, mode),
    decreases names.len(),
{
    if names.len() > 0 {
        lemma_last_unused_in_range(fields, names[0], a, b, fields.len() as int);
        let i = last_unused(fields, names[0], a, fields.len() as int);
        if 0 <= i < fields.len() {
            lemma_used_in_range(fields, names.skip(1), a.insert(i), b.insert(i), mode);
        } else {
            lemma_used_in_range(fields, names.skip(1), a, b, mode);
        }
    }
}

proof fn lemma_last_unused_in_range(
    fields: Seq<FieldText>,
    wanted: Seq<u8>,
    a: Set<int>,
    b: Set<int>,
    below: int,
)
    requires
        below <= fields.len(),
        forall|i: int| 0 <= i < fields.len() ==> (a.contains(i) <==> b.contains(i)),
    ensures
        last_unused(fields, wanted, a, below) == last_unused(fields, wanted, b, below),
        -1 <= last_unused(fields, wanted, a, below) < below || below < 0,
    decreases below,
{
    if below > 0 {
        lemma_last_unused_in_range(fields, wanted, a, b, below - 1);
    }
}

/// The digest of `data` that `hash` names.
pub open spec fn digest(hash: HashAlgorithm, data: Seq<u8>) -> Seq<u8> {
    match hash {
        HashAlgorithm::Sha1 => sha1(data),
        HashAlgorithm::Sha256 => sha256(data),
    }
}

/// The digest of `data` that `hash` names.
pub fn compute_digest(hash: HashAlgorithm, data: &[u8]) -> (r: Vec<u8>)
    ensures
        r@ == digest(hash, data@),
        r@.len() <= 32,
{
    match hash {
        HashAlgorithm::Sha1 => sha1_digest(data),
        HashAlgorithm::Sha256 => sha256_digest(data),
    }
}

/// Whether the digest of the canonical body, written in base64, is the text
/// that the signature claims.
pub open spec fn body_hash_matches(body: Seq<u8>, hash: HashAlgorithm, claimed: Seq<u8>) -> bool {
    base64_text(digest(hash, body)) == claimed
}

/// Whether `computed`, the base64 text of a digest, is the claimed text.
pub fn hash_texts_match(computed: &[u8], claimed: &[u8]) -> (r: bool)
    ensures
        r == (computed@ == claimed@),
{
    bytes_eq(computed, claimed)
}

/// Compares the hash of a body in canonical form with the one claimed for it.
/// A mismatch is an answer, not a fault.
pub fn verify_body_hash(body: &[u8], hash: HashAlgorithm, claimed: &[u8]) -> (r: bool)
    ensures
        r == body_hash_matches(body@, hash, claimed@),
{
    let d = compute_digest(hash, body);
    let text = base64_encode(d.as_slice());
    hash_texts_match(text.as_slice(), claimed)
}

/// Whether `signature` signs `data` under `key` with `algorithm`. A key of
/// another type than the algorithm's never does.
pub open spec fn signature_accepted(
    algorithm: SignatureAlgorithm,
    key: KeyText,
    data: Seq<u8>,
    signature: Seq<u8>,
) -> bool {
    key.algorithm == algorithm.key_of() && match algorithm {
        SignatureAlgorithm::RsaSha1 => rsa_sha1_accepts(key.bytes, sha1(data), signature),
        SignatureAlgorithm::RsaSha256 => rsa_sha256_accepts(key.bytes, sha256(data), signature),
        SignatureAlgorithm::Ed25519Sha256 => ed25519_accepts(key.bytes, sha256(data), signature),
    }
}

/// Checks a signature over the signed data. Whatever is wrong with key or
/// signature, the answer is `false`, never a fault.
pub fn verify_signature(
    signed_data: &[u8],
    signature: &[u8],
    public_key: &PublicKeyMaterial,
    algorithm: SignatureAlgorithm,
) -> (r: bool)
    ensures
        r == signature_accepted(algorithm, public_key@, signed_data@, signature@),
{
    if public_key.algorithm != algorithm.key() {
        return false;
    }
    let key = public_key.bytes.as_slice();
    match algorithm {
        SignatureAlgorithm::RsaSha1 => {
            let d = sha1_digest(signed_data);
            rsa_sha1_verify(key, d.as_slice(), signature)
        },
        SignatureAlgorithm::RsaSha256 => {
            let d = sha256_digest(signed_data);
            rsa_sha256_verify(key, d.as_slice(), signature)
        },
        SignatureAlgorithm::Ed25519Sha256 => {
            let d = sha256_digest(signed_data);
            ed25519_verify(key, d.as_slice(), signature)
        },
    }
}

/// The bytes that the signature in `field` signs: the signed header fields,
/// then the signature's own header field without the signature in it and
/// without a line terminator at its end.
pub open spec fn signing_input(
    headers: Seq<FieldText>,
    names: Seq<Seq<u8>>,
    field: FieldText,
    used: Set<int>,
    mode: Canonicalization,
) -> Seq<u8> {
    signed_fields_text(headers, names, used, mode) + canonical_header_text(
        field.name,
        without_signature(field.value),
        mode,
    )
}

/// The bytes that the signature in `field` signs.
pub fn build_signing_input(
    headers: &Vec<HeaderField>,
    names: &Vec<Vec<u8>>,
    field: &HeaderField,
    own: Option<usize>,
    mode: Canonicalization,
) -> (r: Vec<u8>)
    ensures
        r@ == signing_input(fields_of(headers@), seqs_of(names@), field@, own_set(own), mode),
{
    let mut out = canonicalize_signed_fields(headers, names, own, mode);
    let unsigned = remove_signature(field.value.as_slice());
    let last = canonicalize_header_text(field.name.as_slice(), unsigned.as_slice(), mode);
    append_bytes(&mut out, last.as_slice());
    out
}

} // verus!
