//! What holds of every verification, whatever the message, the signature and
//! the key are.

use vstd::prelude::*;
use crate::bytes::{join, lemma_join_split, split, SEMICOLON};
use crate::canon::canonical_body;
use crate::crypto::base64_text;
use crate::key::KeyState;
use crate::message::{message_of, FieldText, MessageText};
use crate::outcome::{outcome_of, HeaderCheck, Outcome, Verdict};
use crate::signature::{algorithm_of, canonicalization_of};
use crate::signing::{digest, emptied, is_signature_tag, without_signature};
use crate::tags::{first_missing, tag_map};
use crate::verify::{
    all_pass, body_check, first_failure, header_check_of, is_signature_field, overall,
    report_of, reports_upto, signature_check, signature_verdict, KeyEntryText, ReportText,
    SignatureReportText,
};

verus! {

/// A signature passes exactly when its header field is accepted, the body
/// hashes to the claimed value, and the signature fits the signed header
/// fields under the key.
pub proof fn lemma_pass_means_every_check(
    message: MessageText,
    field: FieldText,
    used: Set<int>,
    key: KeyState,
)
    ensures
        signature_verdict(message, field, used, key) == Verdict::Pass <==> {
            &&& header_check_of(tag_map(field.value), key) == HeaderCheck::Accepted
            &&& body_check(message.body, tag_map(field.value))
            &&& signature_check(message.headers, field, used, tag_map(field.value), key)
        },
{
}

/// A signature that lacks a mandatory tag comes to a permanent error,
/// whatever the message and the key are.
pub proof fn lemma_missing_tag_is_permanent_error(
    message: MessageText,
    field: FieldText,
    used: Set<int>,
    key: KeyState,
)
    requires
        first_missing(tag_map(field.value)) is Some,
    ensures
        outcome_of(signature_verdict(message, field, used, key)) == Outcome::PermError(
            "malformed signature"@,
        ),
{
}

/// The base64 text of the digest of a body in the canonical form that the
/// tags of a signature ask for.
pub open spec fn body_hash_text(body: Seq<u8>, tags: Map<Seq<u8>, Seq<u8>>) -> Seq<u8> {
    base64_text(
        digest(
            algorithm_of(tags)->Some_0.hash_of(),
            canonical_body(body, canonicalization_of(tags)->Some_0.1),
        ),
    )
}

/// Where a signature passes for one message, it fails with a body hash
/// mismatch for every message whose body hashes to another text, whatever
/// the header fields of that message are.
pub proof fn lemma_changed_body_fails_body_hash(
    signed: MessageText,
    changed: MessageText,
    field: FieldText,
    used: Set<int>,
    key: KeyState,
)
    requires
        signature_verdict(signed, field, used, key) == Verdict::Pass,
        body_hash_text(changed.body, tag_map(field.value)) != body_hash_text(
            signed.body,
            tag_map(field.value),
        ),
    ensures
        signature_verdict(changed, field, used, key) == Verdict::BodyHashMismatch,
        outcome_of(signature_verdict(changed, field, used, key)) == Outcome::Fail(
            "body hash mismatch"@,
        ),
{
}

/// Where a signature passes for one message, then for a message with the
/// same body and other header fields it either still fits, or fails with a
/// signature mismatch and nothing else.
pub proof fn lemma_changed_headers_fail_signature(
    signed: MessageText,
    changed: MessageText,
    field: FieldText,
    used: Set<int>,
    key: KeyState,
)
    requires
        signature_verdict(signed, field, used, key) == Verdict::Pass,
        changed.body == signed.body,
    ensures
        signature_verdict(changed, field, used, key) == (if signature_check(
            changed.headers,
            field,
            used,
            tag_map(field.value),
            key,
        ) {
            Verdict::Pass
        } else {
            Verdict::SignatureMismatch
        }),
{
}

proof fn lemma_no_signature_field_no_report(message: MessageText, keys: Seq<KeyEntryText>, n: int)
    requires
        n <= message.headers.len(),
        forall|i: int| 0 <= i < n ==> !is_signature_field(#[trigger] message.headers[i]),
    ensures
        reports_upto(message, keys, n).len() == 0,
    decreases n,
{
    if n > 0 {
        lemma_no_signature_field_no_report(message, keys, n - 1);
    }
}

proof fn lemma_signature_field_is_reported(
    message: MessageText,
    keys: Seq<KeyEntryText>,
    n: int,
    at: int,
)
    requires
        0 <= at < n <= message.headers.len(),
        is_signature_field(message.headers[at]),
    ensures
        reports_upto(message, keys, n).len() > 0,
    decreases n,
{
    if at < n - 1 {
        lemma_signature_field_is_reported(message, keys, n - 1, at);
    }
}

/// A message is reported as without signature exactly when it can be read
/// and none of its header fields is a signature. That result differs from
/// every failure.
pub proof fn lemma_absent_means_no_signature(raw: Seq<u8>, keys: Seq<KeyEntryText>)
    ensures
        overall(report_of(raw, keys)) == Outcome::Absent <==> (message_of(raw) matches Some(m)
            && forall|i: int|
            0 <= i < m.headers.len() ==> !is_signature_field(#[trigger] m.headers[i])),
        forall|reason: Seq<char>| Outcome::Absent != Outcome::Fail(reason),
{
    match message_of(raw) {
        Some(m) => {
            let n = m.headers.len() as int;
            if forall|i: int| 0 <= i < n ==> !is_signature_field(#[trigger] m.headers[i]) {
                lemma_no_signature_field_no_report(m, keys, n);
            } else {
                let at = choose|i: int| 0 <= i < n && is_signature_field(#[trigger] m.headers[i]);
                lemma_signature_field_is_reported(m, keys, n, at);
                lemma_first_failure(reports_upto(m, keys, n));
            }
        },
        None => {},
    }
}

/// The first failure is a verdict other than `Pass`, and there is none
/// exactly when every signature passed.
pub proof fn lemma_first_failure(signatures: Seq<SignatureReportText>)
    ensures
        first_failure(signatures) is None <==> forall|i: int|
            0 <= i < signatures.len() ==> (#[trigger] signatures[i]).verdict == Verdict::Pass,
        first_failure(signatures) matches Some(v) ==> v != Verdict::Pass && outcome_of(v)
            != Outcome::Pass && outcome_of(v) != Outcome::Absent,
    decreases signatures.len(),
{
    if signatures.len() > 0 {
        let rest = signatures.skip(1);
        lemma_first_failure(rest);
        if signatures[0].verdict == Verdict::Pass {
            assert forall|i: int| 0 <= i < rest.len() implies rest[i] == signatures[i + 1] by {}
            if first_failure(rest) is None {
                assert forall|i: int| 0 <= i < signatures.len() implies (
                #[trigger] signatures[i]).verdict == Verdict::Pass by {
                    if i > 0 {
                        assert(rest[i - 1] == signatures[i]);
                    }
                }
            } else {
                let j = choose|j: int| 0 <= j < rest.len() && (#[trigger] rest[j]).verdict
                    != Verdict::Pass;
                assert(signatures[j + 1] == rest[j]);
            }
        }
    }
}

/// The result for a whole message is `Pass` exactly when the message has a
/// signature and every signature passed: one that does not pass is enough to
/// keep the message from passing.
pub proof fn lemma_overall_pass_means_all_pass(report: ReportText)
    ensures
        overall(report) == Outcome::Pass <==> all_pass(report),
{
    lemma_first_failure(report.signatures);
}

/// Taking the signature out of the value of a signature header field
/// changes nothing where no tag `b` stands in it.
pub proof fn lemma_without_signature_keeps_the_rest(value: Seq<u8>)
    requires
        forall|i: int|
            0 <= i < split(value, SEMICOLON).len() ==> !is_signature_tag(
                #[trigger] split(value, SEMICOLON)[i],
            ),
    ensures
        without_signature(value) == value,
{
    let segments = split(value, SEMICOLON);
    let signed = Seq::new(segments.len(), |i: int| emptied(segments[i]));
    assert(signed =~= segments);
    lemma_join_split(value, SEMICOLON);
    assert(join(signed, SEMICOLON) == value);
}

} // verus!
