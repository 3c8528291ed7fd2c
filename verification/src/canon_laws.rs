//! What holds of the canonical forms: each is a fixed point of the function
//! that produced it, so canonicalizing twice changes nothing.

use vstd::prelude::*;
use crate::bytes::{
    find_byte, is_fws, lemma_find_byte_unique, lower, trim_start, COLON, CR, LF, SP,
};
use crate::canon::{
    blank_is_dropped, canonical_body, canonical_header, canonical_header_text, crlf,
    ends_with_crlf, is_blank, normalize_line_endings, relaxed_body, relaxed_name, relaxed_value,
    simple_body, squeeze, starts_with_crlf, strip_trailing_crlfs, Canonicalization,
};
use crate::message::{field_at, without_line_end};

verus! {

/// Every line feed but a leading one follows a carriage return.
pub open spec fn lf_follows_cr(s: Seq<u8>) -> bool {
    forall|i: int| 1 <= i < s.len() && #[trigger] s[i] == LF ==> s[i - 1] == CR
}

/// Every line feed follows a carriage return.
pub open spec fn is_normalized(s: Seq<u8>) -> bool {
    lf_follows_cr(s) && (s.len() > 0 ==> s[0] != LF)
}

/// Every blank is a single space with something other than a blank or a line
/// terminator after it.
pub open spec fn is_squeezed(s: Seq<u8>, fold: bool) -> bool {
    forall|i: int|
        0 <= i < s.len() && is_blank(#[trigger] s[i], fold) ==> {
            &&& s[i] == SP
            &&& i + 1 < s.len()
            &&& !is_blank(s[i + 1], fold)
            &&& !starts_with_crlf(s.skip(i + 1))
        }
}

/// No white space and no upper-case letter.
pub open spec fn is_relaxed_name(s: Seq<u8>) -> bool {
    forall|i: int| 0 <= i < s.len() ==> !is_fws(#[trigger] s[i]) && lower(s[i]) == s[i]
}

proof fn lemma_normalize_head(s: Seq<u8>)
    ensures
        normalize_line_endings(s).len() > 0 ==> normalize_line_endings(s)[0] != LF,
{
    if s.len() > 0 {
        if starts_with_crlf(s) {
            assert(normalize_line_endings(s)[0] == crlf()[0]);
        } else if s[0] == LF {
            assert(normalize_line_endings(s)[0] == crlf()[0]);
        } else {
            assert(normalize_line_endings(s)[0] == seq![s[0]][0]);
        }
    }
}

/// Repairing line terminators leaves no line feed without its carriage return.
pub proof fn lemma_normalize_is_normalized(s: Seq<u8>)
    ensures
        is_normalized(normalize_line_endings(s)),
    decreases s.len(),
{
    let out = normalize_line_endings(s);
    lemma_normalize_head(s);
    if s.len() > 0 {
        let rest = if starts_with_crlf(s) {
            s.skip(2)
        } else {
            s.skip(1)
        };
        let head = if starts_with_crlf(s) || s[0] == LF {
            crlf()
        } else {
            seq![s[0]]
        };
        let tail = normalize_line_endings(rest);
        lemma_normalize_is_normalized(rest);
        lemma_normalize_head(rest);
        assert(out == head + tail);
        assert forall|i: int| 1 <= i < out.len() && #[trigger] out[i] == LF implies out[i - 1] == CR by {
            if i < head.len() {
                assert(out[i - 1] == head[i - 1]);
            } else {
                assert(out[i] == tail[i - head.len()]);
                assert(i - head.len() >= 1);
                assert(out[i - 1] == tail[i - head.len() - 1]);
            }
        }
    }
}

/// Where every line feed follows a carriage return, nothing is left to repair.
pub proof fn lemma_normalized_is_fixed(s: Seq<u8>)
    requires
        is_normalized(s),
    ensures
        normalize_line_endings(s) == s,
    decreases s.len(),
{
    if s.len() > 0 {
        if starts_with_crlf(s) {
            let rest = s.skip(2);
            assert forall|i: int| 1 <= i < rest.len() && #[trigger] rest[i] == LF implies rest[i - 1]
                == CR by {
                assert(s[i + 2] == LF);
            }
            if rest.len() > 0 && rest[0] == LF {
                assert(s[2] == LF);
                assert(s[1] == CR);
            }
            lemma_normalized_is_fixed(rest);
            assert(crlf() + rest =~= s);
        } else {
            let rest = s.skip(1);
            assert forall|i: int| 1 <= i < rest.len() && #[trigger] rest[i] == LF implies rest[i - 1]
                == CR by {
                assert(s[i + 1] == LF);
            }
            if rest.len() > 0 && rest[0] == LF {
                assert(s[1] == LF);
                assert(s[0] == CR);
            }
            lemma_normalized_is_fixed(rest);
            assert(seq![s[0]] + rest =~= s);
        }
    }
}

/// A line feed at the head of the squeezed form was at the head before, and
/// only a body (not a folded header value) can have one there.
proof fn lemma_squeeze_head_lf(s: Seq<u8>, fold: bool)
    ensures
        squeeze(s, fold).len() > 0 && squeeze(s, fold)[0] == LF ==> s.len() > 0 && s[0] == LF
            && !fold,
    decreases s.len(),
{
    if s.len() > 0 {
        if is_blank(s[0], fold) {
            if blank_is_dropped(s, fold) {
                lemma_squeeze_head_lf(s.skip(1), fold);
                if s.len() > 1 {
                    assert(s.skip(1)[0] == s[1]);
                }
            } else {
                assert(squeeze(s, fold)[0] == seq![SP][0]);
            }
        } else {
            assert(squeeze(s, fold)[0] == seq![s[0]][0]);
        }
    }
}

/// The squeezed form has every blank single, a space, and inside its line.
pub proof fn lemma_squeeze_is_squeezed(s: Seq<u8>, fold: bool)
    ensures
        is_squeezed(squeeze(s, fold), fold),
    decreases s.len(),
{
    let out = squeeze(s, fold);
    if s.len() > 0 {
        let rest = s.skip(1);
        let tail = squeeze(rest, fold);
        lemma_squeeze_is_squeezed(rest, fold);
        if is_blank(s[0], fold) && blank_is_dropped(s, fold) {
        } else {
            let head = if is_blank(s[0], fold) {
                SP
            } else {
                s[0]
            };
            assert(out == seq![head] + tail);
            assert forall|i: int| 0 <= i < out.len() && is_blank(#[trigger] out[i], fold) implies {
                &&& out[i] == SP
                &&& i + 1 < out.len()
                &&& !is_blank(out[i + 1], fold)
                &&& !starts_with_crlf(out.skip(i + 1))
            } by {
                if i == 0 {
                    assert(is_blank(s[0], fold));
                    assert(rest.len() > 0);
                    assert(rest[0] == s[1]);
                    assert(!is_blank(rest[0], fold));
                    let after = squeeze(rest.skip(1), fold);
                    assert(tail == seq![rest[0]] + after);
                    assert(out[1] == rest[0]);
                    assert(out.skip(1) =~= tail);
                    if starts_with_crlf(tail) {
                        assert(after[0] == tail[1]);
                        lemma_squeeze_head_lf(rest.skip(1), fold);
                        assert(rest.skip(1)[0] == s[2]);
                        assert(starts_with_crlf(s.skip(1)));
                    }
                } else {
                    assert(out[i] == tail[i - 1]);
                    assert(out[i + 1] == tail[i]);
                    assert(out.skip(i + 1) =~= tail.skip(i));
                }
            }
        }
    }
}

/// Squeezing changes nothing where every blank already is a single space
/// inside its line.
pub proof fn lemma_squeezed_is_fixed(s: Seq<u8>, fold: bool)
    requires
        is_squeezed(s, fold),
    ensures
        squeeze(s, fold) == s,
    decreases s.len(),
{
    if s.len() > 0 {
        let rest = s.skip(1);
        assert forall|i: int| 0 <= i < rest.len() && is_blank(#[trigger] rest[i], fold) implies {
            &&& rest[i] == SP
            &&& i + 1 < rest.len()
            &&& !is_blank(rest[i + 1], fold)
            &&& !starts_with_crlf(rest.skip(i + 1))
        } by {
            assert(rest[i] == s[i + 1]);
            assert(rest.skip(i + 1) =~= s.skip(i + 2));
        }
        lemma_squeezed_is_fixed(rest, fold);
        if is_blank(s[0], fold) {
            assert(!blank_is_dropped(s, fold));
            assert(seq![SP] + rest =~= s);
        } else {
            assert(seq![s[0]] + rest =~= s);
        }
    }
}

/// Squeezing a body moves no line feed away from its carriage return.
proof fn lemma_squeeze_keeps_lf_after_cr(s: Seq<u8>)
    requires
        lf_follows_cr(s),
    ensures
        lf_follows_cr(squeeze(s, false)),
    decreases s.len(),
{
    let out = squeeze(s, false);
    if s.len() > 0 {
        let rest = s.skip(1);
        let tail = squeeze(rest, false);
        assert forall|i: int| 1 <= i < rest.len() && #[trigger] rest[i] == LF implies rest[i - 1]
            == CR by {
            assert(s[i + 1] == LF);
        }
        lemma_squeeze_keeps_lf_after_cr(rest);
        if is_blank(s[0], false) && blank_is_dropped(s, false) {
        } else {
            let head = if is_blank(s[0], false) {
                SP
            } else {
                s[0]
            };
            assert(out == seq![head] + tail);
            assert forall|i: int| 1 <= i < out.len() && #[trigger] out[i] == LF implies out[i - 1] == CR by {
                assert(out[i] == tail[i - 1]);
                if i == 1 {
                    lemma_squeeze_head_lf(rest, false);
                    assert(rest[0] == s[1]);
                    assert(s[0] == CR);
                } else {
                    assert(out[i - 1] == tail[i - 2]);
                }
            }
        }
    }
}

/// What is stripped from the end is a run of line terminators, and what stays
/// does not end in one.
pub proof fn lemma_strip_trailing_crlfs(s: Seq<u8>)
    ensures
        strip_trailing_crlfs(s).len() <= s.len(),
        strip_trailing_crlfs(s) == s.take(strip_trailing_crlfs(s).len() as int),
        !ends_with_crlf(strip_trailing_crlfs(s)),
        strip_trailing_crlfs(s).len() < s.len() ==> starts_with_crlf(
            s.skip(strip_trailing_crlfs(s).len() as int),
        ),
    decreases s.len(),
{
    if ends_with_crlf(s) {
        let shorter = s.take(s.len() - 2);
        lemma_strip_trailing_crlfs(shorter);
        let r = strip_trailing_crlfs(shorter);
        assert(r =~= s.take(r.len() as int));
        if r.len() < shorter.len() {
            assert(shorter.skip(r.len() as int)[0] == s.skip(r.len() as int)[0]);
            assert(shorter.skip(r.len() as int)[1] == s.skip(r.len() as int)[1]);
        }
    } else {
        assert(s =~= s.take(s.len() as int));
    }
}

/// The simple body form is a fixed point of the simple canonicalization.
pub proof fn lemma_simple_body_idempotent(body: Seq<u8>)
    ensures
        simple_body(simple_body(body)) == simple_body(body),
{
    let lines = normalize_line_endings(body);
    let kept = strip_trailing_crlfs(lines);
    let once = kept + crlf();
    lemma_normalize_is_normalized(body);
    lemma_strip_trailing_crlfs(lines);
    assert forall|i: int| 1 <= i < once.len() && #[trigger] once[i] == LF implies once[i - 1] == CR by {
        if i < kept.len() {
            assert(once[i] == lines[i]);
            assert(once[i - 1] == lines[i - 1]);
        }
    }
    if kept.len() > 0 {
        assert(once[0] == lines[0]);
    }
    lemma_normalized_is_fixed(once);
    assert(once.take(once.len() - 2) =~= kept);
    assert(strip_trailing_crlfs(once) == strip_trailing_crlfs(kept));
}

/// The relaxed body form is a fixed point of the relaxed canonicalization.
pub proof fn lemma_relaxed_body_idempotent(body: Seq<u8>)
    ensures
        relaxed_body(relaxed_body(body)) == relaxed_body(body),
{
    let lines = normalize_line_endings(body);
    let text = squeeze(lines, false);
    let kept = strip_trailing_crlfs(text);
    lemma_normalize_is_normalized(body);
    lemma_squeeze_keeps_lf_after_cr(lines);
    lemma_squeeze_head_lf(lines, false);
    lemma_squeeze_is_squeezed(lines, false);
    lemma_strip_trailing_crlfs(text);
    if kept.len() == 0 {
        assert(relaxed_body(body) == kept);
        assert(normalize_line_endings(kept) == kept);
        assert(squeeze(kept, false) == kept);
    } else {
        let once = kept + crlf();
        assert(once[0] == text[0]);
        assert forall|i: int| 1 <= i < once.len() && #[trigger] once[i] == LF implies once[i - 1] == CR by {
            if i < kept.len() {
                assert(once[i] == text[i]);
                assert(once[i - 1] == text[i - 1]);
            }
        }
        lemma_normalized_is_fixed(once);
        assert forall|i: int| 0 <= i < once.len() && is_blank(#[trigger] once[i], false) implies {
            &&& once[i] == SP
            &&& i + 1 < once.len()
            &&& !is_blank(once[i + 1], false)
            &&& !starts_with_crlf(once.skip(i + 1))
        } by {
            assert(i < kept.len());
            assert(once[i] == text[i]);
            assert(is_blank(text[i], false));
            assert(!starts_with_crlf(text.skip(i + 1)));
            if i + 1 == kept.len() {
                assert(text.skip(i + 1) =~= text.skip(kept.len() as int));
            }
            assert(once[i + 1] == text[i + 1]);
            if starts_with_crlf(once.skip(i + 1)) {
                assert(once.skip(i + 1)[1] == once[i + 2]);
                assert(i + 2 < kept.len());
                assert(text.skip(i + 1)[0] == text[i + 1]);
                assert(text.skip(i + 1)[1] == text[i + 2]);
            }
        }
        lemma_squeezed_is_fixed(once, false);
        assert(once.take(once.len() - 2) =~= kept);
        assert(strip_trailing_crlfs(once) == strip_trailing_crlfs(kept));
    }
}

/// Canonicalizing a body that already is in canonical form, in the same mode,
/// gives it back unchanged.
pub proof fn lemma_canonical_body_idempotent(body: Seq<u8>, mode: Canonicalization)
    ensures
        canonical_body(canonical_body(body, mode), mode) == canonical_body(body, mode),
{
    match mode {
        Canonicalization::Simple => lemma_simple_body_idempotent(body),
        Canonicalization::Relaxed => lemma_relaxed_body_idempotent(body),
    }
}

/// Repairing line terminators twice is repairing them once.
pub proof fn lemma_normalize_idempotent(s: Seq<u8>)
    ensures
        normalize_line_endings(normalize_line_endings(s)) == normalize_line_endings(s),
{
    lemma_normalize_is_normalized(s);
    lemma_normalized_is_fixed(normalize_line_endings(s));
}

proof fn lemma_relaxed_name_is_relaxed(name: Seq<u8>)
    ensures
        is_relaxed_name(relaxed_name(name)),
    decreases name.len(),
{
    if name.len() > 0 {
        lemma_relaxed_name_is_relaxed(name.drop_last());
    }
}

proof fn lemma_relaxed_name_is_fixed(name: Seq<u8>)
    requires
        is_relaxed_name(name),
    ensures
        relaxed_name(name) == name,
    decreases name.len(),
{
    if name.len() > 0 {
        let shorter = name.drop_last();
        assert forall|i: int| 0 <= i < shorter.len() implies !is_fws(#[trigger] shorter[i])
            && lower(shorter[i]) == shorter[i] by {
            assert(shorter[i] == name[i]);
        }
        lemma_relaxed_name_is_fixed(shorter);
        assert(shorter.push(name.last()) =~= name);
    }
}

/// The relaxed form of a header name is a fixed point of the relaxation.
pub proof fn lemma_relaxed_name_idempotent(name: Seq<u8>)
    ensures
        relaxed_name(relaxed_name(name)) == relaxed_name(name),
{
    lemma_relaxed_name_is_relaxed(name);
    lemma_relaxed_name_is_fixed(relaxed_name(name));
}

proof fn lemma_trim_start_head(s: Seq<u8>)
    ensures
        trim_start(s).len() > 0 ==> !is_fws(trim_start(s)[0]),
    decreases s.len(),
{
    if s.len() > 0 && is_fws(s[0]) {
        lemma_trim_start_head(s.skip(1));
    }
}

/// The relaxed form of a header value is a fixed point of the relaxation.
pub proof fn lemma_relaxed_value_idempotent(value: Seq<u8>)
    ensures
        relaxed_value(relaxed_value(value)) == relaxed_value(value),
{
    let t = trim_start(value);
    let once = squeeze(t, true);
    lemma_trim_start_head(value);
    lemma_squeeze_is_squeezed(t, true);
    if once.len() > 0 {
        assert(is_squeezed(once, true));
        if is_fws(once[0]) {
            assert(is_blank(once[0], true));
            assert(t.len() > 0);
            assert(once[0] == (seq![t[0]] + squeeze(t.skip(1), true))[0]);
        }
    }
    assert(trim_start(once) == once);
    lemma_squeezed_is_fixed(once, true);
}

proof fn lemma_relaxed_name_keeps_no_colon(name: Seq<u8>)
    requires
        !name.contains(COLON),
    ensures
        !relaxed_name(name).contains(COLON),
    decreases name.len(),
{
    if name.len() > 0 {
        let shorter = name.drop_last();
        assert forall|i: int| 0 <= i < shorter.len() implies shorter[i] != COLON by {
            assert(name.contains(name[i]));
        }
        lemma_relaxed_name_keeps_no_colon(shorter);
        assert(name.contains(name.last()));
        let r = relaxed_name(name);
        assert forall|i: int| 0 <= i < r.len() implies r[i] != COLON by {
            if i < relaxed_name(shorter).len() {
                assert(relaxed_name(shorter).contains(relaxed_name(shorter)[i]));
            }
        }
    }
}

/// A header field in canonical form reads as a header field again, and
/// canonicalizing that one, in the same mode, gives the same line. The name
/// must hold no colon, as no name read from a message does: the line is read
/// up to its first colon.
pub proof fn lemma_canonical_header_idempotent(
    name: Seq<u8>,
    value: Seq<u8>,
    mode: Canonicalization,
)
    requires
        !name.contains(COLON),
    ensures
        ({
            let line = canonical_header(name, value, mode);
            let again = field_at(line, find_byte(line, COLON));
            canonical_header(again.name, again.value, mode) == line
        }),
{
    let line = canonical_header(name, value, mode);
    let n = match mode {
        Canonicalization::Simple => name,
        Canonicalization::Relaxed => relaxed_name(name),
    };
    let v = match mode {
        Canonicalization::Simple => normalize_line_endings(value),
        Canonicalization::Relaxed => relaxed_value(value),
    };
    assert(line =~= n + seq![COLON] + v + crlf());
    lemma_relaxed_name_keeps_no_colon(name);
    assert forall|j: int| 0 <= j < n.len() implies line[j] != COLON by {
        assert(line[j] == n[j]);
        assert(n.contains(n[j]));
    }
    assert(line[n.len() as int] == COLON);
    lemma_find_byte_unique(line, COLON, n.len() as int);
    let again = field_at(line, find_byte(line, COLON));
    assert(again.name =~= n);
    let rest = line.skip(n.len() as int + 1);
    assert(rest =~= v + crlf());
    assert(ends_with_crlf(rest));
    assert(without_line_end(rest) =~= v);
    assert(again.value == v);
    match mode {
        Canonicalization::Simple => {
            lemma_normalize_idempotent(value);
        },
        Canonicalization::Relaxed => {
            lemma_relaxed_name_idempotent(name);
            lemma_relaxed_value_idempotent(value);
        },
    }
    assert(canonical_header_text(again.name, again.value, mode) == canonical_header_text(
        name,
        value,
        mode,
    ));
}

} // verus!
