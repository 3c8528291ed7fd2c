//! The verification itself: one signature against a message, every signature
//! of a message, and the signature that a witness record names.

use vstd::prelude::*;
use crate::bytes::{
    ascii, copy_range, eq_ignore_case, lowercase, seqs_of, text_bytes, trim, trim_bytes,
};
use crate::canon::{canonical_body, canonicalize_body, relaxed_name, relaxed_name_bytes};
use crate::crypto::{base64_data, base64_decode};
use crate::key::{KeyResolution, KeyState};
use crate::message::{
    message_of, split_message, FieldText, HeaderField, Message, MessageText,
};
use crate::outcome::{
    lemma_steps_finish, outcome_of, verdict_of, DkimResult, HeaderCheck, Outcome, Stage, Verdict,
};
use crate::signature::{
    algorithm, algorithm_of, canonicalization, canonicalization_of, signed_names,
    signed_names_of,
};
use crate::signing::{
    body_hash_matches, build_signing_input, own_set, signature_accepted, signing_input,
    verify_body_hash, verify_signature,
};
use crate::tags::{first_missing, parse_tag_list, parse_tags, tag_map};

verus! {

/// What reading the signature's tags and looking at the key comes to: the
/// first of these that is wrong decides.
pub open spec fn header_check_of(tags: Map<Seq<u8>, Seq<u8>>, key: KeyState) -> HeaderCheck {
    if first_missing(tags) is Some {
        HeaderCheck::Malformed
    } else if algorithm_of(tags) is None {
        HeaderCheck::UnsupportedAlgorithm
    } else if canonicalization_of(tags) is None {
        HeaderCheck::UnsupportedCanonicalization
    } else {
        match key {
            KeyState::Resolved(_) => HeaderCheck::Accepted,
            KeyState::NotFound => HeaderCheck::KeyNotFound,
            KeyState::Unavailable => HeaderCheck::KeyUnavailable,
        }
    }
}

/// Whether the body, in the canonical form that the tags ask for, hashes to
/// the value of the `bh` tag.
pub open spec fn body_check(body: Seq<u8>, tags: Map<Seq<u8>, Seq<u8>>) -> bool {
    &&& algorithm_of(tags) matches Some(a)
    &&& canonicalization_of(tags) matches Some(modes)
    &&& tags.contains_key(ascii("bh"@))
    &&& body_hash_matches(canonical_body(body, modes.1), a.hash_of(), tags[ascii("bh"@)])
}

/// Whether the value of the `b` tag is base64 text for a signature that the
/// key accepts for the signed header fields.
pub open spec fn signature_check(
    headers: Seq<FieldText>,
    field: FieldText,
    used: Set<int>,
    tags: Map<Seq<u8>, Seq<u8>>,
    key: KeyState,
) -> bool {
    &&& algorithm_of(tags) matches Some(a)
    &&& canonicalization_of(tags) matches Some(modes)
    &&& key matches KeyState::Resolved(k)
    &&& tags.contains_key(ascii("b"@))
    &&& base64_data(tags[ascii("b"@)]) matches Some(signature)
    &&& signature_accepted(
        a,
        k,
        signing_input(headers, signed_names_of(tags), field, used, modes.0),
        signature,
    )
}

/// The verdict on the signature in the header field `field`, for the message
/// and the key given. `used` holds the header fields that the signature
/// cannot sign: its own, where it is one of the message's.
pub open spec fn signature_verdict(
    message: MessageText,
    field: FieldText,
    used: Set<int>,
    key: KeyState,
) -> Verdict {
    let tags = tag_map(field.value);
    verdict_of(
        header_check_of(tags, key),
        body_check(message.body, tags),
        signature_check(message.headers, field, used, tags, key),
    )
}

fn finished(stage: Stage) -> (r: Verdict)
    requires
        stage is Finished,
    ensures
        stage == Stage::Finished(r),
{
    stage.verdict().unwrap()
}

/// Verifies the signature in the header field `field` against the message.
/// `own` is the place of that header field among the message's, if it is one
/// of them. The checks run in their order and stop at the first that fails.
pub fn verify_dkim_signature(
    message: &Message,
    field: &HeaderField,
    own: Option<usize>,
    key: &KeyResolution,
) -> (r: Verdict)
    ensures
        r == signature_verdict(message@, field@, own_set(own), key@),
{
    let ghost map = tag_map(field@.value);
    proof {
        reveal_strlit("b");
        reveal_strlit("bh");
        lemma_steps_finish(
            header_check_of(map, key@),
            body_check(message@.body, map),
            signature_check(message@.headers, field@, own_set(own), map, key@),
        );
    }
    let start = Stage::Start;
    let tags = match parse_tags(field.value.as_slice()) {
        Ok(tags) => tags,
        Err(_) => {
            return finished(start.header_checked(HeaderCheck::Malformed));
        },
    };
    let algorithm = match algorithm(&tags) {
        Some(a) => a,
        None => {
            return finished(start.header_checked(HeaderCheck::UnsupportedAlgorithm));
        },
    };
    let (header_mode, body_mode) = match canonicalization(&tags) {
        Some(modes) => modes,
        None => {
            return finished(start.header_checked(HeaderCheck::UnsupportedCanonicalization));
        },
    };
    let public_key = match key {
        KeyResolution::Resolved(k) => k,
        KeyResolution::NotFound => {
            return finished(start.header_checked(HeaderCheck::KeyNotFound));
        },
        KeyResolution::Unavailable => {
            return finished(start.header_checked(HeaderCheck::KeyUnavailable));
        },
    };
    let stage = start.header_checked(HeaderCheck::Accepted);

    let claimed = tag_copy(&tags, text_bytes("bh").as_slice());
    let body = canonicalize_body(message.body.as_slice(), body_mode);
    let matches = verify_body_hash(body.as_slice(), algorithm.hash(), claimed.as_slice());
    let stage = stage.body_hash_checked(matches);
    if !matches {
        return finished(stage);
    }
    let text = tag_copy(&tags, text_bytes("b").as_slice());
    let names = signed_names(&tags);
    let data = build_signing_input(&message.headers, &names, field, own, header_mode);
    let accepted = match base64_decode(text.as_slice()) {
        Some(signature) => verify_signature(
            data.as_slice(),
            signature.as_slice(),
            public_key,
            algorithm,
        ),
        None => false,
    };
    finished(stage.signature_checked(accepted).conclude())
}

/// The key of one signer, as it was found, or not, ahead of the verification.
#[derive(Clone, Debug, PartialEq, Eq)]
pub struct KeyEntry {
    pub selector: Vec<u8>,
    pub domain: Vec<u8>,
    pub resolution: KeyResolution,
}

/// A `KeyEntry` as a mathematical value.
pub struct KeyEntryText {
    pub selector: Seq<u8>,
    pub domain: Seq<u8>,
    pub resolution: KeyState,
}

impl View for KeyEntry {
    type V = KeyEntryText;

    open spec fn view(&self) -> KeyEntryText {
        KeyEntryText {
            selector: self.selector@,
            domain: self.domain@,
            resolution: self.resolution@,
        }
    }
}

pub open spec fn entries_of(v: Seq<KeyEntry>) -> Seq<KeyEntryText> {
    Seq::new(v.len(), |i: int| v[i]@)
}

/// Whether the entry is for this selector and domain; case does not count.
pub open spec fn entry_is_for(entry: KeyEntryText, selector: Seq<u8>, domain: Seq<u8>) -> bool {
    lowercase(entry.selector) == lowercase(selector) && lowercase(entry.domain) == lowercase(
        domain,
    )
}

/// What the first entry for the selector and domain says of the key; where
/// no entry is for them, the key is unavailable.
pub open spec fn key_for(keys: Seq<KeyEntryText>, selector: Seq<u8>, domain: Seq<u8>) -> KeyState
    decreases keys.len(),
{
    if keys.len() == 0 {
        KeyState::Unavailable
    } else if entry_is_for(keys[0], selector, domain) {
        keys[0].resolution
    } else {
        key_for(keys.skip(1), selector, domain)
    }
}

fn find_key<'a>(keys: &'a Vec<KeyEntry>, selector: &[u8], domain: &[u8]) -> (r: Option<
    &'a KeyResolution,
>)
    ensures
        match r {
            Some(k) => k@ == key_for(entries_of(keys@), selector@, domain@),
            None => key_for(entries_of(keys@), selector@, domain@) == KeyState::Unavailable,
        },
{
    let mut i: usize = 0;
    assert(entries_of(keys@).skip(0) =~= entries_of(keys@));
    while i < keys.len()
        invariant
            i <= keys@.len(),
            key_for(entries_of(keys@), selector@, domain@) == key_for(
                entries_of(keys@).skip(i as int),
                selector@,
                domain@,
            ),
        decreases keys@.len() - i,
    {
        let entry = &keys[i];
        assert(entries_of(keys@).skip(i as int)[0] == entry@);
        assert(entries_of(keys@).skip(i as int).skip(1) =~= entries_of(keys@).skip(i + 1));
        if eq_ignore_case(entry.selector.as_slice(), selector) && eq_ignore_case(
            entry.domain.as_slice(),
            domain,
        ) {
            return Some(&entry.resolution);
        }
        i += 1;
    }
    None
}

/// What was found of one signature: who signed, and the verdict.
#[derive(Clone, Debug, PartialEq, Eq)]
pub struct SignatureReport {
    /// The value of the `d` tag; empty where the signature has none.
    pub domain: Vec<u8>,
    /// The value of the `s` tag; empty where the signature has none.
    pub selector: Vec<u8>,
    pub verdict: Verdict,
}

/// A `SignatureReport` as a mathematical value.
pub struct SignatureReportText {
    pub domain: Seq<u8>,
    pub selector: Seq<u8>,
    pub verdict: Verdict,
}

impl View for SignatureReport {
    type V = SignatureReportText;

    open spec fn view(&self) -> SignatureReportText {
        SignatureReportText {
            domain: self.domain@,
            selector: self.selector@,
            verdict: self.verdict,
        }
    }
}

pub open spec fn reports_of(v: Seq<SignatureReport>) -> Seq<SignatureReportText> {
    Seq::new(v.len(), |i: int| v[i]@)
}

/// What was found of a message: whether it could be read at all, and one
/// report for each of its signatures, in their order.
#[derive(Clone, Debug, PartialEq, Eq)]
pub struct Report {
    pub readable: bool,
    pub signatures: Vec<SignatureReport>,
}

/// A `Report` as a mathematical value.
pub struct ReportText {
    pub readable: bool,
    pub signatures: Seq<SignatureReportText>,
}

impl View for Report {
    type V = ReportText;

    open spec fn view(&self) -> ReportText {
        ReportText { readable: self.readable, signatures: reports_of(self.signatures@) }
    }
}

/// Whether the header field holds a signature.
pub open spec fn is_signature_field(field: FieldText) -> bool {
    relaxed_name(field.name) == ascii("dkim-signature"@)
}

pub open spec fn tag_or_empty(tags: Map<Seq<u8>, Seq<u8>>, name: Seq<u8>) -> Seq<u8> {
    if tags.contains_key(name) {
        tags[name]
    } else {
        Seq::empty()
    }
}

/// The report on the signature in the header field at `index`.
pub open spec fn report_for(message: MessageText, index: int, keys: Seq<KeyEntryText>)
    -> SignatureReportText {
    let field = message.headers[index];
    let tags = tag_map(field.value);
    let domain = tag_or_empty(tags, ascii("d"@));
    let selector = tag_or_empty(tags, ascii("s"@));
    SignatureReportText {
        domain,
        selector,
        verdict: signature_verdict(message, field, set![index], key_for(keys, selector, domain)),
    }
}

/// The reports on the signatures among the first `n` header fields.
pub open spec fn reports_upto(message: MessageText, keys: Seq<KeyEntryText>, n: int) -> Seq<
    SignatureReportText,
>
    decreases n,
{
    if n <= 0 {
        Seq::empty()
    } else {
        let before = reports_upto(message, keys, n - 1);
        if is_signature_field(message.headers[n - 1]) {
            before.push(report_for(message, n - 1, keys))
        } else {
            before
        }
    }
}

/// The report that a raw message is owed.
pub open spec fn report_of(raw: Seq<u8>, keys: Seq<KeyEntryText>) -> ReportText {
    match message_of(raw) {
        Some(m) => ReportText {
            readable: true,
            signatures: reports_upto(m, keys, m.headers.len() as int),
        },
        None => ReportText { readable: false, signatures: Seq::empty() },
    }
}

fn tag_copy(tags: &crate::tags::DkimSignatureTags, name: &[u8]) -> (r: Vec<u8>)
    ensures
        r@ == tag_or_empty(tags@, name@),
{
    match tags.get(name) {
        Some(v) => {
            let c = copy_range(v.as_slice(), 0, v.len());
            assert(c@ =~= v@);
            c
        },
        None => Vec::new(),
    }
}

/// Verifies every signature that the message carries, each on its own, with
/// the key that `keys` holds for its selector and domain.
pub fn verify_message(raw: &[u8], keys: &Vec<KeyEntry>) -> (r: Report)
    ensures
        r@ == report_of(raw@, entries_of(keys@)),
{
    let message = match split_message(raw) {
        Some(m) => m,
        None => {
            let r = Report { readable: false, signatures: Vec::new() };
            assert(reports_of(r.signatures@) =~= Seq::<SignatureReportText>::empty());
            return r;
        },
    };
    let mut signatures: Vec<SignatureReport> = Vec::new();
    let mut i: usize = 0;
    assert(reports_of(signatures@) =~= Seq::<SignatureReportText>::empty());
    while i < message.headers.len()
        invariant
            i <= message.headers@.len(),
            reports_of(signatures@) == reports_upto(message@, entries_of(keys@), i as int),
        decreases message.headers@.len() - i,
    {
        let field = &message.headers[i];
        proof {
            assert(message@.headers[i as int] == field@);
            reveal_strlit("dkim-signature");
            reveal_strlit("d");
            reveal_strlit("s");
        }
        let name = relaxed_name_bytes(field.name.as_slice());
        if crate::bytes::is_text(name.as_slice(), "dkim-signature") {
            let tags = parse_tag_list(field.value.as_slice());
            let domain = tag_copy(&tags, text_bytes("d").as_slice());
            let selector = tag_copy(&tags, text_bytes("s").as_slice());
            let unavailable = KeyResolution::Unavailable;
            let key = match find_key(keys, selector.as_slice(), domain.as_slice()) {
                Some(k) => k,
                None => &unavailable,
            };
            let verdict = verify_dkim_signature(&message, field, Some(i), key);
            let ghost before = reports_of(signatures@);
            signatures.push(SignatureReport { domain, selector, verdict });
            assert(reports_of(signatures@) =~= before.push(
                report_for(message@, i as int, entries_of(keys@)),
            ));
        }
        i += 1;
    }
    Report { readable: true, signatures }
}

/// The verdict of the first signature that did not pass, if there is one.
pub open spec fn first_failure(signatures: Seq<SignatureReportText>) -> Option<Verdict>
    decreases signatures.len(),
{
    if signatures.len() == 0 {
        None
    } else if signatures[0].verdict != Verdict::Pass {
        Some(signatures[0].verdict)
    } else {
        first_failure(signatures.skip(1))
    }
}

/// Whether there is a signature, and every signature passed.
pub open spec fn all_pass(report: ReportText) -> bool {
    &&& report.readable
    &&& report.signatures.len() > 0
    &&& forall|i: int|
        0 <= i < report.signatures.len() ==> (#[trigger] report.signatures[i]).verdict
            == Verdict::Pass
}

/// The one result for the whole message: a permanent error where it could
/// not be read, `Absent` where it has no signature, `Pass` where every
/// signature passed, and else what the first signature that did not pass
/// came to.
pub open spec fn overall(report: ReportText) -> Outcome {
    if !report.readable {
        Outcome::PermError("malformed message"@)
    } else if report.signatures.len() == 0 {
        Outcome::Absent
    } else {
        match first_failure(report.signatures) {
            Some(v) => outcome_of(v),
            None => Outcome::Pass,
        }
    }
}

/// The domains of the signatures that passed, in their order.
pub open spec fn passed_domains_of(signatures: Seq<SignatureReportText>) -> Seq<Seq<u8>>
    decreases signatures.len(),
{
    if signatures.len() == 0 {
        Seq::empty()
    } else {
        let before = passed_domains_of(signatures.drop_last());
        if signatures.last().verdict == Verdict::Pass {
            before.push(signatures.last().domain)
        } else {
            before
        }
    }
}

impl Report {
    fn first_failed(&self) -> (r: Option<Verdict>)
        ensures
            r == first_failure(self@.signatures),
            r is None <==> forall|i: int|
                0 <= i < self@.signatures.len() ==> (#[trigger] self@.signatures[i]).verdict
                    == Verdict::Pass,
    {
        let mut i: usize = 0;
        let ghost all = reports_of(self.signatures@);
        assert(all.skip(0) =~= all);
        while i < self.signatures.len()
            invariant
                i <= self.signatures@.len(),
                all == reports_of(self.signatures@),
                first_failure(all) == first_failure(all.skip(i as int)),
                forall|j: int| 0 <= j < i ==> (#[trigger] all[j]).verdict == Verdict::Pass,
            decreases self.signatures@.len() - i,
        {
            let v = self.signatures[i].verdict;
            assert(all.skip(i as int)[0] == self.signatures@[i as int]@);
            assert(all[i as int] == self.signatures@[i as int]@);
            assert(all.skip(i as int).skip(1) =~= all.skip(i + 1));
            if v != Verdict::Pass {
                return Some(v);
            }
            i += 1;
        }
        None
    }

    /// Whether the message has a signature and every one of them passed.
    pub fn all_passed(&self) -> (r: bool)
        ensures
            r == all_pass(self@),
    {
        self.readable && self.signatures.len() > 0 && self.first_failed().is_none()
    }

    /// The one result for the whole message.
    pub fn result(&self) -> (r: DkimResult)
        ensures
            r@ == overall(self@),
    {
        if !self.readable {
            DkimResult::PermError("malformed message".to_owned())
        } else if self.signatures.len() == 0 {
            DkimResult::Absent
        } else {
            match self.first_failed() {
                Some(v) => DkimResult::of_verdict(v),
                None => DkimResult::Pass,
            }
        }
    }

    /// The domains whose signatures passed, in the order of the signatures.
    pub fn passed_domains(&self) -> (r: Vec<Vec<u8>>)
        ensures
            seqs_of(r@) == passed_domains_of(self@.signatures),
    {
        let mut out: Vec<Vec<u8>> = Vec::new();
        let mut i: usize = 0;
        let ghost all = reports_of(self.signatures@);
        assert(seqs_of(out@) =~= Seq::<Seq<u8>>::empty());
        assert(all.take(0) =~= Seq::<SignatureReportText>::empty());
        while i < self.signatures.len()
            invariant
                i <= self.signatures@.len(),
                all == reports_of(self.signatures@),
                seqs_of(out@) == passed_domains_of(all.take(i as int)),
            decreases self.signatures@.len() - i,
        {
            let s = &self.signatures[i];
            assert(all.take(i + 1).drop_last() =~= all.take(i as int));
            assert(all.take(i + 1).last() == s@);
            if s.verdict == Verdict::Pass {
                let ghost before = seqs_of(out@);
                let d = copy_range(s.domain.as_slice(), 0, s.domain.len());
                assert(d@ =~= s.domain@);
                out.push(d);
                assert(seqs_of(out@) =~= before.push(s@.domain));
            }
            i += 1;
        }
        assert(all.take(self.signatures@.len() as int) =~= all);
        out
    }
}

/// The record that a verification is run on: the message, the signer, and
/// the signature header field that is to be verified.
#[derive(Clone, Debug, PartialEq, Eq)]
pub struct DkimData {
    /// The message as it was transmitted, header fields and body.
    pub original_email: String,
    /// The selector under which the signer's key was looked up.
    pub selector: String,
    /// The domain under which the signer's key was looked up.
    pub domain: String,
    /// The value of the signature header field, exactly as it follows the
    /// colon in the message.
    pub dkim_signature: String,
    /// The body with its transfer encoding undone. It is for the reader; the
    /// verification hashes the body as it stands in `original_email`.
    pub decoded_body: String,
}

/// The result that a message and a signature given beside it are owed.
pub open spec fn witness_outcome(email: Seq<u8>, signature: Seq<u8>, key: KeyState) -> Outcome {
    if trim(signature).len() == 0 {
        Outcome::Absent
    } else {
        match message_of(email) {
            Some(m) => outcome_of(
                signature_verdict(
                    m,
                    FieldText { name: ascii("DKIM-Signature"@), value: signature },
                    Set::empty(),
                    key,
                ),
            ),
            None => Outcome::PermError("malformed message"@),
        }
    }
}

/// Verifies the signature `signature`, the value of a signature header
/// field, against the message `email`.
pub fn verify_witness(email: &[u8], signature: &[u8], key: &KeyResolution) -> (r: DkimResult)
    ensures
        r@ == witness_outcome(email@, signature@, key@),
{
    if trim_bytes(signature).len() == 0 {
        return DkimResult::Absent;
    }
    let message = match split_message(email) {
        Some(m) => m,
        None => {
            return DkimResult::PermError("malformed message".to_owned());
        },
    };
    proof {
        reveal_strlit("DKIM-Signature");
    }
    let value = copy_range(signature, 0, signature.len());
    assert(value@ =~= signature@);
    let field = HeaderField { name: text_bytes("DKIM-Signature"), value };
    DkimResult::of_verdict(verify_dkim_signature(&message, &field, None, key))
}

/// Verifies the signature that the record names against the record's
/// message, with the key given.
pub fn verify_dkim(dkim_data: &DkimData, key: &KeyResolution) -> (r: DkimResult)
    ensures
        r@ == witness_outcome(
            vstd::utf8::encode_utf8(dkim_data.original_email@),
            vstd::utf8::encode_utf8(dkim_data.dkim_signature@),
            key@,
        ),
{
    verify_witness(
        dkim_data.original_email.as_str().as_bytes(),
        dkim_data.dkim_signature.as_str().as_bytes(),
        key,
    )
}

} // verus!
