//! The signer's public key, as it reaches the verification from outside.

use vstd::prelude::*;
use crate::bytes::{ascii, is_text, strip_fws, strip_fws_bytes, text_bytes};
use crate::crypto::{base64_data, base64_decode};
use crate::signature::KeyAlgorithm;
use crate::tags::{parse_tag_list, tag_map};

verus! {

/// A public key: its type and its bytes. For RSA the bytes are the DER
/// encoding of a SubjectPublicKeyInfo, for Ed25519 the 32 bytes of the key.
#[derive(Clone, Debug, PartialEq, Eq)]
pub struct PublicKeyMaterial {
    pub algorithm: KeyAlgorithm,
    pub bytes: Vec<u8>,
}

/// A `PublicKeyMaterial` as a mathematical value.
pub struct KeyText {
    pub algorithm: KeyAlgorithm,
    pub bytes: Seq<u8>,
}

impl View for PublicKeyMaterial {
    type V = KeyText;

    open spec fn view(&self) -> KeyText {
        KeyText { algorithm: self.algorithm, bytes: self.bytes@ }
    }
}

/// What the search for a signer's key came to. The search itself happens
/// ahead of the verification, which takes its result as given.
#[derive(Clone, Debug, PartialEq, Eq)]
pub enum KeyResolution {
    /// The key that the signer publishes.
    Resolved(PublicKeyMaterial),
    /// The signer publishes no key under the selector.
    NotFound,
    /// The search failed for now.
    Unavailable,
}

/// A `KeyResolution` as a mathematical value.
pub enum KeyState {
    Resolved(KeyText),
    NotFound,
    Unavailable,
}

impl View for KeyResolution {
    type V = KeyState;

    open spec fn view(&self) -> KeyState {
        match self {
            KeyResolution::Resolved(key) => KeyState::Resolved(key@),
            KeyResolution::NotFound => KeyState::NotFound,
            KeyResolution::Unavailable => KeyState::Unavailable,
        }
    }
}

/// The type of key that the `k` tag of a key record names; RSA where there
/// is no such tag, and none where its value is not known.
pub open spec fn key_algorithm_of(tags: Map<Seq<u8>, Seq<u8>>) -> Option<KeyAlgorithm> {
    if !tags.contains_key(ascii("k"@)) {
        Some(KeyAlgorithm::Rsa)
    } else if tags[ascii("k"@)] == ascii("rsa"@) {
        Some(KeyAlgorithm::Rsa)
    } else if tags[ascii("k"@)] == ascii("ed25519"@) {
        Some(KeyAlgorithm::Ed25519)
    } else {
        None
    }
}

/// What a key record says. The record is a tag list; its `p` tag holds the
/// key in base64. Without a `p` tag, with an empty one (a key withdrawn), with
/// one that is no base64 text, or with a key type that is not known, the
/// record names no key.
pub open spec fn key_record_of(record: Seq<u8>) -> KeyState {
    let tags = tag_map(record);
    if !tags.contains_key(ascii("p"@)) {
        KeyState::NotFound
    } else {
        let text = strip_fws(tags[ascii("p"@)]);
        match (key_algorithm_of(tags), base64_data(text)) {
            (Some(algorithm), Some(bytes)) => if text.len() == 0 {
                KeyState::NotFound
            } else {
                KeyState::Resolved(KeyText { algorithm, bytes })
            },
            _ => KeyState::NotFound,
        }
    }
}

/// Reads the key record that a signer publishes.
pub fn parse_key_record(record: &[u8]) -> (r: KeyResolution)
    ensures
        r@ == key_record_of(record@),
{
    let tags = parse_tag_list(record);
    proof {
        reveal_strlit("p");
        reveal_strlit("k");
        reveal_strlit("rsa");
        reveal_strlit("ed25519");
    }
    let text = match tags.get(text_bytes("p").as_slice()) {
        Some(v) => strip_fws_bytes(v.as_slice()),
        None => {
            return KeyResolution::NotFound;
        },
    };
    let algorithm = match tags.get(text_bytes("k").as_slice()) {
        None => KeyAlgorithm::Rsa,
        Some(v) => {
            if is_text(v.as_slice(), "rsa") {
                KeyAlgorithm::Rsa
            } else if is_text(v.as_slice(), "ed25519") {
                KeyAlgorithm::Ed25519
            } else {
                return KeyResolution::NotFound;
            }
        },
    };
    match base64_decode(text.as_slice()) {
        Some(bytes) => {
            if text.len() == 0 {
                KeyResolution::NotFound
            } else {
                KeyResolution::Resolved(PublicKeyMaterial { algorithm, bytes })
            }
        },
        None => KeyResolution::NotFound,
    }
}

} // verus!
