use dkim_verifier::outcome::{DkimResult, HeaderCheck, Stage, Verdict};
use dkim_verifier::verify::{Report, SignatureReport};

fn run(check: HeaderCheck, body: bool, signature: bool) -> Stage {
    Stage::Start.header_checked(check).body_hash_checked(body).signature_checked(signature).conclude()
}

fn report(verdicts: &[Verdict]) -> Report {
    Report {
        readable: true,
        signatures: verdicts
            .iter()
            .enumerate()
            .map(|(i, v)| SignatureReport {
                domain: format!("d{}.example", i).into_bytes(),
                selector: b"s".to_vec(),
                verdict: *v,
            })
            .collect(),
    }
}

#[test]
fn every_check_passed_is_pass() {
    assert_eq!(run(HeaderCheck::Accepted, true, true), Stage::Finished(Verdict::Pass));
}

#[test]
fn first_failed_check_decides() {
    assert_eq!(run(HeaderCheck::Accepted, false, true), Stage::Finished(Verdict::BodyHashMismatch));
    assert_eq!(run(HeaderCheck::Accepted, false, false), Stage::Finished(Verdict::BodyHashMismatch));
    assert_eq!(run(HeaderCheck::Accepted, true, false), Stage::Finished(Verdict::SignatureMismatch));
    assert_eq!(run(HeaderCheck::Malformed, true, true), Stage::Finished(Verdict::MalformedSignature));
    assert_eq!(run(HeaderCheck::UnsupportedAlgorithm, true, true), Stage::Finished(Verdict::UnsupportedAlgorithm));
    assert_eq!(
        run(HeaderCheck::UnsupportedCanonicalization, true, true),
        Stage::Finished(Verdict::UnsupportedCanonicalization)
    );
    assert_eq!(run(HeaderCheck::KeyNotFound, true, true), Stage::Finished(Verdict::KeyNotFound));
    assert_eq!(run(HeaderCheck::KeyUnavailable, false, false), Stage::Finished(Verdict::KeyUnavailable));
}

#[test]
fn stages_follow_one_another() {
    let s = Stage::Start;
    assert_eq!(s.verdict(), None);
    let s = s.header_checked(HeaderCheck::Accepted);
    assert_eq!(s, Stage::HeaderParsed);
    let s = s.body_hash_checked(true);
    assert_eq!(s, Stage::BodyHashChecked);
    let s = s.signature_checked(true);
    assert_eq!(s, Stage::SignatureChecked);
    let s = s.conclude();
    assert_eq!(s.verdict(), Some(Verdict::Pass));
}

#[test]
fn step_out_of_turn_changes_nothing() {
    assert_eq!(Stage::Start.body_hash_checked(false), Stage::Start);
    assert_eq!(Stage::Start.signature_checked(false), Stage::Start);
    assert_eq!(Stage::Start.conclude(), Stage::Start);
    assert_eq!(Stage::HeaderParsed.header_checked(HeaderCheck::Malformed), Stage::HeaderParsed);
    assert_eq!(Stage::HeaderParsed.signature_checked(true), Stage::HeaderParsed);
    assert_eq!(Stage::BodyHashChecked.body_hash_checked(false), Stage::BodyHashChecked);
    let done = Stage::Finished(Verdict::BodyHashMismatch);
    assert_eq!(done.header_checked(HeaderCheck::Accepted), done);
    assert_eq!(done.body_hash_checked(true), done);
    assert_eq!(done.signature_checked(true), done);
    assert_eq!(done.conclude(), done);
}

#[test]
fn verdicts_are_reported_in_their_classes() {
    assert_eq!(DkimResult::of_verdict(Verdict::Pass), DkimResult::Pass);
    assert_eq!(DkimResult::of_verdict(Verdict::BodyHashMismatch), DkimResult::Fail("body hash mismatch".to_string()));
    assert_eq!(DkimResult::of_verdict(Verdict::SignatureMismatch), DkimResult::Fail("signature mismatch".to_string()));
    assert_eq!(
        DkimResult::of_verdict(Verdict::MalformedSignature),
        DkimResult::PermError("malformed signature".to_string())
    );
    assert_eq!(
        DkimResult::of_verdict(Verdict::UnsupportedAlgorithm),
        DkimResult::PermError("unsupported algorithm".to_string())
    );
    assert_eq!(
        DkimResult::of_verdict(Verdict::UnsupportedCanonicalization),
        DkimResult::PermError("unsupported canonicalization".to_string())
    );
    assert_eq!(DkimResult::of_verdict(Verdict::KeyNotFound), DkimResult::PermError("key not found".to_string()));
    assert_eq!(DkimResult::of_verdict(Verdict::KeyUnavailable), DkimResult::TempError("key unavailable".to_string()));
    assert!(DkimResult::Pass.is_pass());
    assert!(!DkimResult::Absent.is_pass());
    assert!(!DkimResult::Neutral("x".to_string()).is_pass());
    assert_ne!(DkimResult::Absent, DkimResult::Fail(String::new()));
}

#[test]
fn report_of_several_signatures() {
    let r = report(&[Verdict::Pass, Verdict::SignatureMismatch, Verdict::KeyUnavailable, Verdict::Pass]);
    assert!(!r.all_passed());
    assert_eq!(r.result(), DkimResult::Fail("signature mismatch".to_string()));
    assert_eq!(r.passed_domains(), vec![b"d0.example".to_vec(), b"d3.example".to_vec()]);
    let p = report(&[Verdict::Pass, Verdict::Pass]);
    assert!(p.all_passed());
    assert_eq!(p.result(), DkimResult::Pass);
    let t = report(&[Verdict::KeyUnavailable, Verdict::BodyHashMismatch]);
    assert_eq!(t.result(), DkimResult::TempError("key unavailable".to_string()));
}

#[test]
fn report_without_signatures() {
    let r = report(&[]);
    assert!(!r.all_passed());
    assert_eq!(r.result(), DkimResult::Absent);
    let u = Report { readable: false, signatures: vec![] };
    assert!(!u.all_passed());
    assert_eq!(u.result(), DkimResult::PermError("malformed message".to_string()));
}
