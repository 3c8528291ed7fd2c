//! Digests, base64 and signature arithmetic. None of it is computed here: each
//! function below hands its arguments to a library and gives back what the
//! library returned. Verification takes their contracts on trust.

use vstd::prelude::*;

verus! {

/// The SHA-256 digest of `data`.
pub uninterp spec fn sha256(data: Seq<u8>) -> Seq<u8>;

/// The SHA-1 digest of `data`.
pub uninterp spec fn sha1(data: Seq<u8>) -> Seq<u8>;

/// The base64 text of `data`, in the standard alphabet and padded.
pub uninterp spec fn base64_text(data: Seq<u8>) -> Seq<u8>;

/// The bytes that the base64 text `text` stands for, if it is such a text.
pub uninterp spec fn base64_data(text: Seq<u8>) -> Option<Seq<u8>>;

/// Whether `signature` is an RSA signature, with PKCS#1 v1.5 padding, of the
/// SHA-256 digest `digest` under the key whose SubjectPublicKeyInfo encoding
/// is `key`.
pub uninterp spec fn rsa_sha256_accepts(key: Seq<u8>, digest: Seq<u8>, signature: Seq<u8>) -> bool;

/// As `rsa_sha256_accepts`, for a SHA-1 digest.
pub uninterp spec fn rsa_sha1_accepts(key: Seq<u8>, digest: Seq<u8>, signature: Seq<u8>) -> bool;

/// Whether `signature` is an Ed25519 signature of `message` under the key
/// with the 32 bytes `key`.
pub uninterp spec fn ed25519_accepts(key: Seq<u8>, message: Seq<u8>, signature: Seq<u8>) -> bool;

/// Calls `sha2::Sha256::digest`. Trusted: the result is a function of the
/// input alone, and 32 bytes long.
#[verifier::external_body]
pub(crate) fn sha256_digest(data: &[u8]) -> (r: Vec<u8>)
    ensures
        r@ == sha256(data@),
        r@.len() == 32,
{
    <sha2::Sha256 as sha2::Digest>::digest(data).to_vec()
}

/// Calls `sha1::Sha1::digest`. Trusted: the result is a function of the
/// input alone, and 20 bytes long.
#[verifier::external_body]
pub(crate) fn sha1_digest(data: &[u8]) -> (r: Vec<u8>)
    ensures
        r@ == sha1(data@),
        r@.len() == 20,
{
    <sha1::Sha1 as sha1::Digest>::digest(data).to_vec()
}

/// Calls `base64::encode`. Trusted: the result is a function of the input
/// alone. The length is bounded because the encoder computes the size of its
/// buffer in `usize`.
#[verifier::external_body]
#[allow(deprecated)]
pub(crate) fn base64_encode(data: &[u8]) -> (r: Vec<u8>)
    requires
        data@.len() <= 0x1000_0000,
    ensures
        r@ == base64_text(data@),
{
    base64::encode(data).into_bytes()
}

/// Calls `base64::decode`. Trusted: whether the text decodes, and to what, is
/// a function of the text alone.
#[verifier::external_body]
#[allow(deprecated)]
pub(crate) fn base64_decode(text: &[u8]) -> (r: Option<Vec<u8>>)
    ensures
        r is Some <==> base64_data(text@) is Some,
        r matches Some(data) ==> base64_data(text@) == Some(data@),
{
    match base64::decode(text) {
        Ok(data) => Some(data),
        Err(_) => None,
    }
}

/// Decodes the key with `rsa::pkcs8::DecodePublicKey::from_public_key_der`
/// and calls `rsa::RsaPublicKey::verify` with `rsa::Pkcs1v15Sign` for SHA-256.
/// Trusted: the answer is a function of the three byte strings alone; a key
/// that does not decode is answered with `false`.
#[verifier::external_body]
pub(crate) fn rsa_sha256_verify(key: &[u8], digest: &[u8], signature: &[u8]) -> (r: bool)
    ensures
        r == rsa_sha256_accepts(key@, digest@, signature@),
{
    let decoded: Result<rsa::RsaPublicKey, _> = rsa::pkcs8::DecodePublicKey::from_public_key_der(
        key,
    );
    match decoded {
        Ok(k) => k.verify(rsa::Pkcs1v15Sign::new::<sha2::Sha256>(), digest, signature).is_ok(),
        Err(_) => false,
    }
}

/// As `rsa_sha256_verify`, with `rsa::Pkcs1v15Sign` for SHA-1.
#[verifier::external_body]
pub(crate) fn rsa_sha1_verify(key: &[u8], digest: &[u8], signature: &[u8]) -> (r: bool)
    ensures
        r == rsa_sha1_accepts(key@, digest@, signature@),
{
    let decoded: Result<rsa::RsaPublicKey, _> = rsa::pkcs8::DecodePublicKey::from_public_key_der(
        key,
    );
    match decoded {
        Ok(k) => k.verify(rsa::Pkcs1v15Sign::new::<sha1::Sha1>(), digest, signature).is_ok(),
        Err(_) => false,
    }
}

/// Calls `ed25519_dalek::Verifier::verify` on a key and a signature read from
/// the bytes given. Trusted: the answer is a function of the three byte
/// strings alone; a key or a signature of the wrong length, or a key that is
/// no point of the curve, is answered with `false`.
#[verifier::external_body]
pub(crate) fn ed25519_verify(key: &[u8], message: &[u8], signature: &[u8]) -> (r: bool)
    ensures
        r == ed25519_accepts(key@, message@, signature@),
{
    match (
        ed25519_dalek::VerifyingKey::try_from(key),
        ed25519_dalek::Signature::from_slice(signature),
    ) {
        (Ok(k), Ok(s)) => ed25519_dalek::Verifier::verify(&k, message, &s).is_ok(),
        _ => false,
    }
}

} // verus!
