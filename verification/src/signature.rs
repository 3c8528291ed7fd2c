//! What the tags of a signature say: the algorithm, the canonicalization, and
//! the names of the signed header fields.

use vstd::prelude::*;
use crate::bytes::{
    ascii, is_text, seqs_of, split, split_bytes, text_bytes, trim, trim_bytes, COLON,
};
use crate::canon::Canonicalization;
use crate::tags::DkimSignatureTags;

verus! {

pub const SLASH: u8 = 0x2f;

#[derive(Clone, Copy, Debug, PartialEq, Eq, Structural)]
pub enum HashAlgorithm {
    Sha1,
    Sha256,
}

#[derive(Clone, Copy, Debug, PartialEq, Eq, Structural)]
pub enum KeyAlgorithm {
    Rsa,
    Ed25519,
}

/// The pairs of key type and digest that a signature can name in its `a` tag.
#[derive(Clone, Copy, Debug, PartialEq, Eq, Structural)]
pub enum SignatureAlgorithm {
    RsaSha1,
    RsaSha256,
    Ed25519Sha256,
}

impl SignatureAlgorithm {
    pub open spec fn hash_of(self) -> HashAlgorithm {
        match self {
            SignatureAlgorithm::RsaSha1 => HashAlgorithm::Sha1,
            _ => HashAlgorithm::Sha256,
        }
    }

    pub open spec fn key_of(self) -> KeyAlgorithm {
        match self {
            SignatureAlgorithm::Ed25519Sha256 => KeyAlgorithm::Ed25519,
            _ => KeyAlgorithm::Rsa,
        }
    }

    /// The digest that the algorithm takes of body and header fields.
    pub fn hash(self) -> (r: HashAlgorithm)
        ensures
            r == self.hash_of(),
    {
        match self {
            SignatureAlgorithm::RsaSha1 => HashAlgorithm::Sha1,
            _ => HashAlgorithm::Sha256,
        }
    }

    /// The type of key that the algorithm works with.
    pub fn key(self) -> (r: KeyAlgorithm)
        ensures
            r == self.key_of(),
    {
        match self {
            SignatureAlgorithm::Ed25519Sha256 => KeyAlgorithm::Ed25519,
            _ => KeyAlgorithm::Rsa,
        }
    }
}

/// The algorithm that the `a` tag names; RSA with SHA-256 where there is no
/// such tag, and none where its value is not known.
pub open spec fn algorithm_of(tags: Map<Seq<u8>, Seq<u8>>) -> Option<SignatureAlgorithm> {
    if !tags.contains_key(ascii("a"@)) {
        Some(SignatureAlgorithm::RsaSha256)
    } else {
        let v = tags[ascii("a"@)];
        if v == ascii("rsa-sha256"@) {
            Some(SignatureAlgorithm::RsaSha256)
        } else if v == ascii("rsa-sha1"@) {
            Some(SignatureAlgorithm::RsaSha1)
        } else if v == ascii("ed25519-sha256"@) {
            Some(SignatureAlgorithm::Ed25519Sha256)
        } else {
            None
        }
    }
}

/// The algorithm that the tags name.
pub fn algorithm(tags: &DkimSignatureTags) -> (r: Option<SignatureAlgorithm>)
    ensures
        r == algorithm_of(tags@),
{
    proof {
        reveal_strlit("a");
        reveal_strlit("rsa-sha256");
        reveal_strlit("rsa-sha1");
        reveal_strlit("ed25519-sha256");
    }
    match tags.get(text_bytes("a").as_slice()) {
        None => Some(SignatureAlgorithm::RsaSha256),
        Some(v) => {
            if is_text(v.as_slice(), "rsa-sha256") {
                Some(SignatureAlgorithm::RsaSha256)
            } else if is_text(v.as_slice(), "rsa-sha1") {
                Some(SignatureAlgorithm::RsaSha1)
            } else if is_text(v.as_slice(), "ed25519-sha256") {
                Some(SignatureAlgorithm::Ed25519Sha256)
            } else {
                None
            }
        },
    }
}

/// The mode that a word names.
pub open spec fn mode_of(word: Seq<u8>) -> Option<Canonicalization> {
    if word == ascii("simple"@) {
        Some(Canonicalization::Simple)
    } else if word == ascii("relaxed"@) {
        Some(Canonicalization::Relaxed)
    } else {
        None
    }
}

/// The mode that `word` names.
pub fn mode(word: &[u8]) -> (r: Option<Canonicalization>)
    ensures
        r == mode_of(word@),
{
    proof {
        reveal_strlit("simple");
        reveal_strlit("relaxed");
    }
    if is_text(word, "simple") {
        Some(Canonicalization::Simple)
    } else if is_text(word, "relaxed") {
        Some(Canonicalization::Relaxed)
    } else {
        None
    }
}

/// The modes that the value of a `c` tag names, for the header fields and for
/// the body: one word for the header fields, with the body then simple, or two
/// words with a slash between them.
pub open spec fn modes_of(value: Seq<u8>) -> Option<(Canonicalization, Canonicalization)> {
    let words = split(value, SLASH);
    if words.len() == 1 {
        match mode_of(trim(words[0])) {
            Some(header) => Some((header, Canonicalization::Simple)),
            None => None,
        }
    } else if words.len() == 2 {
        match (mode_of(trim(words[0])), mode_of(trim(words[1]))) {
            (Some(header), Some(body)) => Some((header, body)),
            _ => None,
        }
    } else {
        None
    }
}

/// The canonicalization of header fields and body that the `c` tag names;
/// simple for both where there is no such tag.
pub open spec fn canonicalization_of(tags: Map<Seq<u8>, Seq<u8>>) -> Option<
    (Canonicalization, Canonicalization),
> {
    if !tags.contains_key(ascii("c"@)) {
        Some((Canonicalization::Simple, Canonicalization::Simple))
    } else {
        modes_of(tags[ascii("c"@)])
    }
}

/// The canonicalization of header fields and of the body that the tags name.
pub fn canonicalization(tags: &DkimSignatureTags) -> (r: Option<
    (Canonicalization, Canonicalization),
>)
    ensures
        r == canonicalization_of(tags@),
{
    proof {
        reveal_strlit("c");
    }
    match tags.get(text_bytes("c").as_slice()) {
        None => Some((Canonicalization::Simple, Canonicalization::Simple)),
        Some(v) => {
            let words = split_bytes(v.as_slice(), SLASH);
            assert(seqs_of(words@).len() == words@.len());
            if words.len() == 1 {
                assert(seqs_of(words@)[0] == words@[0]@);
                let first = trim_bytes(words[0].as_slice());
                match mode(first.as_slice()) {
                    Some(header) => Some((header, Canonicalization::Simple)),
                    None => None,
                }
            } else if words.len() == 2 {
                assert(seqs_of(words@)[0] == words@[0]@);
                assert(seqs_of(words@)[1] == words@[1]@);
                let first = trim_bytes(words[0].as_slice());
                let second = trim_bytes(words[1].as_slice());
                match (mode(first.as_slice()), mode(second.as_slice())) {
                    (Some(header), Some(body)) => Some((header, body)),
                    _ => None,
                }
            } else {
                None
            }
        },
    }
}

/// The pieces of `list` between colons, each trimmed.
pub open spec fn names_in(list: Seq<u8>) -> Seq<Seq<u8>> {
    let pieces = split(list, COLON);
    Seq::new(pieces.len(), |i: int| trim(pieces[i]))
}

/// The names of the signed header fields, in the order of the `h` tag; none
/// where there is no such tag.
pub open spec fn signed_names_of(tags: Map<Seq<u8>, Seq<u8>>) -> Seq<Seq<u8>> {
    if tags.contains_key(ascii("h"@)) {
        names_in(tags[ascii("h"@)])
    } else {
        Seq::empty()
    }
}

/// The names of the signed header fields, in the order of the `h` tag.
pub fn signed_names(tags: &DkimSignatureTags) -> (r: Vec<Vec<u8>>)
    ensures
        seqs_of(r@) == signed_names_of(tags@),
{
    proof {
        reveal_strlit("h");
    }
    let mut names: Vec<Vec<u8>> = Vec::new();
    match tags.get(text_bytes("h").as_slice()) {
        None => {
            assert(seqs_of(names@) =~= Seq::<Seq<u8>>::empty());
        },
        Some(list) => {
            let pieces = split_bytes(list.as_slice(), COLON);
            let mut i: usize = 0;
            while i < pieces.len()
                invariant
                    i <= pieces@.len(),
                    seqs_of(pieces@) == split(list@, COLON),
                    names@.len() == i,
                    forall|j: int| 0 <= j < i ==> (#[trigger] names@[j])@ == trim(pieces@[j]@),
                decreases pieces@.len() - i,
            {
                names.push(trim_bytes(pieces[i].as_slice()));
                i += 1;
            }
            assert forall|j: int| 0 <= j < names@.len() implies seqs_of(names@)[j] == names_in(
                list@,
            )[j] by {
                assert(seqs_of(pieces@)[j] == pieces@[j]@);
            }
            assert(seqs_of(pieces@).len() == pieces@.len());
            assert(seqs_of(names@) =~= names_in(list@));
        },
    }
    names
}

} // verus!
