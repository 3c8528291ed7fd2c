//! The results of a verification, and the steps that lead to one.

use vstd::prelude::*;

verus! {

/// The result of verifying one signature, or a whole message, in the
/// classes that mail authentication distinguishes. A policy layer can tell a
/// message without signature from one with an invalid or a malformed one.
#[derive(Debug, PartialEq, Eq, Clone)]
pub enum DkimResult {
    /// The signature is valid.
    Pass,
    /// A signature is there, but nothing can be said of it.
    Neutral(String),
    /// The signature is well-formed and does not match the message.
    Fail(String),
    /// The signature cannot be verified, and trying again will not help.
    PermError(String),
    /// The signature could not be verified this time.
    TempError(String),
    /// The message carries no signature.
    Absent,
}

/// A `DkimResult` as a mathematical value.
pub enum Outcome {
    Pass,
    Neutral(Seq<char>),
    Fail(Seq<char>),
    PermError(Seq<char>),
    TempError(Seq<char>),
    Absent,
}

impl View for DkimResult {
    type V = Outcome;

    open spec fn view(&self) -> Outcome {
        match self {
            DkimResult::Pass => Outcome::Pass,
            DkimResult::Neutral(reason) => Outcome::Neutral(reason@),
            DkimResult::Fail(reason) => Outcome::Fail(reason@),
            DkimResult::PermError(reason) => Outcome::PermError(reason@),
            DkimResult::TempError(reason) => Outcome::TempError(reason@),
            DkimResult::Absent => Outcome::Absent,
        }
    }
}

/// How the verification of one signature ended, with the exact cause.
#[derive(Clone, Copy, Debug, PartialEq, Eq, Structural)]
pub enum Verdict {
    /// Every check succeeded.
    Pass,
    /// The body does not hash to the value that the signature claims.
    BodyHashMismatch,
    /// The signature does not fit the signed header fields and the key.
    SignatureMismatch,
    /// A mandatory tag is missing from the signature.
    MalformedSignature,
    /// The `a` tag names no algorithm that is known here.
    UnsupportedAlgorithm,
    /// The `c` tag names no canonicalization that is known here.
    UnsupportedCanonicalization,
    /// The signer publishes no key under the selector.
    KeyNotFound,
    /// The key could not be obtained this time.
    KeyUnavailable,
}

/// The class and the reason under which a verdict is reported.
pub open spec fn outcome_of(verdict: Verdict) -> Outcome {
    match verdict {
        Verdict::Pass => Outcome::Pass,
        Verdict::BodyHashMismatch => Outcome::Fail("body hash mismatch"@),
        Verdict::SignatureMismatch => Outcome::Fail("signature mismatch"@),
        Verdict::MalformedSignature => Outcome::PermError("malformed signature"@),
        Verdict::UnsupportedAlgorithm => Outcome::PermError("unsupported algorithm"@),
        Verdict::UnsupportedCanonicalization => Outcome::PermError(
            "unsupported canonicalization"@,
        ),
        Verdict::KeyNotFound => Outcome::PermError("key not found"@),
        Verdict::KeyUnavailable => Outcome::TempError("key unavailable"@),
    }
}

impl DkimResult {
    /// The result under which `verdict` is reported.
    pub fn of_verdict(verdict: Verdict) -> (r: DkimResult)
        ensures
            r@ == outcome_of(verdict),
    {
        match verdict {
            Verdict::Pass => DkimResult::Pass,
            Verdict::BodyHashMismatch => DkimResult::Fail("body hash mismatch".to_owned()),
            Verdict::SignatureMismatch => DkimResult::Fail("signature mismatch".to_owned()),
            Verdict::MalformedSignature => DkimResult::PermError(
                "malformed signature".to_owned(),
            ),
            Verdict::UnsupportedAlgorithm => DkimResult::PermError(
                "unsupported algorithm".to_owned(),
            ),
            Verdict::UnsupportedCanonicalization => DkimResult::PermError(
                "unsupported canonicalization".to_owned(),
            ),
            Verdict::KeyNotFound => DkimResult::PermError("key not found".to_owned()),
            Verdict::KeyUnavailable => DkimResult::TempError("key unavailable".to_owned()),
        }
    }

    /// Whether this is `Pass`.
    pub fn is_pass(&self) -> (r: bool)
        ensures
            r == (self@ == Outcome::Pass),
    {
        match self {
            DkimResult::Pass => true,
            _ => false,
        }
    }
}

/// What was found when the signature header field was read and the key for
/// it looked up.
#[derive(Clone, Copy, Debug, PartialEq, Eq, Structural)]
pub enum HeaderCheck {
    /// The tags are complete and understood, and the key is at hand.
    Accepted,
    /// A mandatory tag is missing.
    Malformed,
    /// The algorithm is not known.
    UnsupportedAlgorithm,
    /// The canonicalization is not known.
    UnsupportedCanonicalization,
    /// There is no key.
    KeyNotFound,
    /// The key could not be obtained this time.
    KeyUnavailable,
}

/// Where the verification of one signature stands.
#[derive(Clone, Copy, Debug, PartialEq, Eq, Structural)]
pub enum Stage {
    Start,
    HeaderParsed,
    BodyHashChecked,
    SignatureChecked,
    Finished(Verdict),
}

impl Stage {
    /// The stage after the header check, which only `Start` awaits.
    pub open spec fn after_header(self, check: HeaderCheck) -> Stage {
        match self {
            Stage::Start => match check {
                HeaderCheck::Accepted => Stage::HeaderParsed,
                HeaderCheck::Malformed => Stage::Finished(Verdict::MalformedSignature),
                HeaderCheck::UnsupportedAlgorithm => Stage::Finished(
                    Verdict::UnsupportedAlgorithm,
                ),
                HeaderCheck::UnsupportedCanonicalization => Stage::Finished(
                    Verdict::UnsupportedCanonicalization,
                ),
                HeaderCheck::KeyNotFound => Stage::Finished(Verdict::KeyNotFound),
                HeaderCheck::KeyUnavailable => Stage::Finished(Verdict::KeyUnavailable),
            },
            _ => self,
        }
    }

    /// The stage after the body hash was compared, which only `HeaderParsed`
    /// awaits.
    pub open spec fn after_body_hash(self, matches: bool) -> Stage {
        match self {
            Stage::HeaderParsed => if matches {
                Stage::BodyHashChecked
            } else {
                Stage::Finished(Verdict::BodyHashMismatch)
            },
            _ => self,
        }
    }

    /// The stage after the signature was checked, which only
    /// `BodyHashChecked` awaits.
    pub open spec fn after_signature(self, accepted: bool) -> Stage {
        match self {
            Stage::BodyHashChecked => if accepted {
                Stage::SignatureChecked
            } else {
                Stage::Finished(Verdict::SignatureMismatch)
            },
            _ => self,
        }
    }

    /// The stage after the last step, which leads from `SignatureChecked` to
    /// `Pass`.
    pub open spec fn concluded(self) -> Stage {
        match self {
            Stage::SignatureChecked => Stage::Finished(Verdict::Pass),
            _ => self,
        }
    }

    /// Takes the step that follows the header check.
    pub fn header_checked(self, check: HeaderCheck) -> (r: Stage)
        ensures
            r == self.after_header(check),
    {
        match self {
            Stage::Start => match check {
                HeaderCheck::Accepted => Stage::HeaderParsed,
                HeaderCheck::Malformed => Stage::Finished(Verdict::MalformedSignature),
                HeaderCheck::UnsupportedAlgorithm => Stage::Finished(
                    Verdict::UnsupportedAlgorithm,
                ),
                HeaderCheck::UnsupportedCanonicalization => Stage::Finished(
                    Verdict::UnsupportedCanonicalization,
                ),
                HeaderCheck::KeyNotFound => Stage::Finished(Verdict::KeyNotFound),
                HeaderCheck::KeyUnavailable => Stage::Finished(Verdict::KeyUnavailable),
            },
            _ => self,
        }
    }

    /// Takes the step that follows the comparison of the body hash.
    pub fn body_hash_checked(self, matches: bool) -> (r: Stage)
        ensures
            r == self.after_body_hash(matches),
    {
        match self {
            Stage::HeaderParsed => if matches {
                Stage::BodyHashChecked
            } else {
                Stage::Finished(Verdict::BodyHashMismatch)
            },
            _ => self,
        }
    }

    /// Takes the step that follows the check of the signature.
    pub fn signature_checked(self, accepted: bool) -> (r: Stage)
        ensures
            r == self.after_signature(accepted),
    {
        match self {
            Stage::BodyHashChecked => if accepted {
                Stage::SignatureChecked
            } else {
                Stage::Finished(Verdict::SignatureMismatch)
            },
            _ => self,
        }
    }

    /// Takes the last step.
    pub fn conclude(self) -> (r: Stage)
        ensures
            r == self.concluded(),
    {
        match self {
            Stage::SignatureChecked => Stage::Finished(Verdict::Pass),
            _ => self,
        }
    }

    /// The verdict, once the verification is finished.
    pub fn verdict(self) -> (r: Option<Verdict>)
        ensures
            r == (match self {
                Stage::Finished(v) => Some(v),
                _ => None,
            }),
    {
        match self {
            Stage::Finished(v) => Some(v),
            _ => None,
        }
    }
}

/// The stage that the three checks lead to, taken in their order from `Start`.
pub open spec fn final_stage(check: HeaderCheck, body_matches: bool, accepted: bool) -> Stage {
    Stage::Start.after_header(check).after_body_hash(body_matches).after_signature(
        accepted,
    ).concluded()
}

/// The verdict that the three checks lead to. The first check that fails
/// decides; the later ones are then not looked at.
pub open spec fn verdict_of(check: HeaderCheck, body_matches: bool, accepted: bool) -> Verdict {
    match check {
        HeaderCheck::Accepted => if !body_matches {
            Verdict::BodyHashMismatch
        } else if !accepted {
            Verdict::SignatureMismatch
        } else {
            Verdict::Pass
        },
        HeaderCheck::Malformed => Verdict::MalformedSignature,
        HeaderCheck::UnsupportedAlgorithm => Verdict::UnsupportedAlgorithm,
        HeaderCheck::UnsupportedCanonicalization => Verdict::UnsupportedCanonicalization,
        HeaderCheck::KeyNotFound => Verdict::KeyNotFound,
        HeaderCheck::KeyUnavailable => Verdict::KeyUnavailable,
    }
}

/// Whatever the checks find, the four steps end in a finished stage, and the
/// verdict there is that of the first failed check.
pub proof fn lemma_steps_finish(check: HeaderCheck, body_matches: bool, accepted: bool)
    ensures
        final_stage(check, body_matches, accepted) == Stage::Finished(
            verdict_of(check, body_matches, accepted),
        ),
{
}

/// A signature passes exactly when the header is accepted, the body hash
/// matches and the signature fits.
pub proof fn lemma_pass_needs_every_check(check: HeaderCheck, body_matches: bool, accepted: bool)
    ensures
        verdict_of(check, body_matches, accepted) == Verdict::Pass <==> check
            == HeaderCheck::Accepted && body_matches && accepted,
{
}

} // verus!
