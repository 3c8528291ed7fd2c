//! Canonicalization of header fields and of the message body.
//!
//! Two modes exist, chosen independently for headers and body. `Simple` passes
//! the bytes through and only repairs line terminators; `Relaxed` also
//! collapses white space and lower-cases header names. Both are total: bytes
//! that form no sensible header or body still get a canonical form.

use vstd::prelude::*;
use crate::bytes::{
    append_bytes, byte_is_fws, copy_range, is_fws, is_wsp, lower, to_lower, trim_start, COLON, CR,
    HTAB, LF, SP,
};

verus! {

#[derive(Clone, Copy, Debug, PartialEq, Eq, Structural)]
pub enum Canonicalization {
    Simple,
    Relaxed,
}

pub open spec fn crlf() -> Seq<u8> {
    seq![CR, LF]
}

pub open spec fn starts_with_crlf(s: Seq<u8>) -> bool {
    s.len() >= 2 && s[0] == CR && s[1] == LF
}

pub open spec fn ends_with_crlf(s: Seq<u8>) -> bool {
    s.len() >= 2 && s[s.len() - 2] == CR && s[s.len() - 1] == LF
}

/// `s` with every line feed that no carriage return precedes turned into a
/// full line terminator.
pub open spec fn normalize_line_endings(s: Seq<u8>) -> Seq<u8>
    decreases s.len(),
{
    if s.len() == 0 {
        s
    } else if starts_with_crlf(s) {
        crlf() + normalize_line_endings(s.skip(2))
    } else if s[0] == LF {
        crlf() + normalize_line_endings(s.skip(1))
    } else {
        seq![s[0]] + normalize_line_endings(s.skip(1))
    }
}

/// What counts as a blank: space and tab, and in a header value (`fold`) the
/// line-break bytes too, since a header's line breaks only fold it.
pub open spec fn is_blank(b: u8, fold: bool) -> bool {
    is_wsp(b) || (fold && (b == CR || b == LF))
}

/// Whether the blank at the head of `s` disappears: it does when another
/// blank, a line terminator or the end of the input follows it.
pub open spec fn blank_is_dropped(s: Seq<u8>, fold: bool) -> bool {
    s.len() <= 1 || is_blank(s[1], fold) || starts_with_crlf(s.skip(1))
}

/// `s` with every run of blanks reduced to one space, and with the runs that
/// end a line, or the input, removed.
pub open spec fn squeeze(s: Seq<u8>, fold: bool) -> Seq<u8>
    decreases s.len(),
{
    if s.len() == 0 {
        s
    } else if is_blank(s[0], fold) {
        if blank_is_dropped(s, fold) {
            squeeze(s.skip(1), fold)
        } else {
            seq![SP] + squeeze(s.skip(1), fold)
        }
    } else {
        seq![s[0]] + squeeze(s.skip(1), fold)
    }
}

/// `s` without the line terminators at its end.
pub open spec fn strip_trailing_crlfs(s: Seq<u8>) -> Seq<u8>
    decreases s.len(),
{
    if ends_with_crlf(s) {
        strip_trailing_crlfs(s.take(s.len() - 2))
    } else {
        s
    }
}

/// Simple body form: line terminators repaired, and exactly one of them at the
/// end, also where the body is empty.
pub open spec fn simple_body(body: Seq<u8>) -> Seq<u8> {
    strip_trailing_crlfs(normalize_line_endings(body)) + crlf()
}

/// Relaxed body form: as the simple one, with blanks squeezed inside each line
/// and removed at its end; an empty body stays empty.
pub open spec fn relaxed_body(body: Seq<u8>) -> Seq<u8> {
    let s = strip_trailing_crlfs(squeeze(normalize_line_endings(body), false));
    if s.len() == 0 {
        s
    } else {
        s + crlf()
    }
}

pub open spec fn canonical_body(body: Seq<u8>, mode: Canonicalization) -> Seq<u8> {
    match mode {
        Canonicalization::Simple => simple_body(body),
        Canonicalization::Relaxed => relaxed_body(body),
    }
}

/// Relaxed form of a header name: lower case, no white space.
pub open spec fn relaxed_name(name: Seq<u8>) -> Seq<u8>
    decreases name.len(),
{
    if name.len() == 0 {
        name
    } else if is_fws(name.last()) {
        relaxed_name(name.drop_last())
    } else {
        relaxed_name(name.drop_last()).push(lower(name.last()))
    }
}

/// Relaxed form of a header value: unfolded, blanks squeezed, none at either end.
pub open spec fn relaxed_value(value: Seq<u8>) -> Seq<u8> {
    squeeze(trim_start(value), true)
}

/// A header field in canonical form, without the line terminator that ends it.
pub open spec fn canonical_header_text(
    name: Seq<u8>,
    value: Seq<u8>,
    mode: Canonicalization,
) -> Seq<u8> {
    match mode {
        Canonicalization::Simple => name + seq![COLON] + normalize_line_endings(value),
        Canonicalization::Relaxed => relaxed_name(name) + seq![COLON] + relaxed_value(value),
    }
}

/// A header field in canonical form, as one terminated line.
pub open spec fn canonical_header(
    name: Seq<u8>,
    value: Seq<u8>,
    mode: Canonicalization,
) -> Seq<u8> {
    canonical_header_text(name, value, mode) + crlf()
}

/// `s` with every line terminator in its full form.
pub fn normalize_bytes(s: &[u8]) -> (r: Vec<u8>)
    ensures
        r@ == normalize_line_endings(s@),
{
    let mut out: Vec<u8> = Vec::new();
    let mut i: usize = 0;
    assert(s@.skip(0) =~= s@);
    while i < s.len()
        invariant
            i <= s.len(),
            normalize_line_endings(s@) == out@ + normalize_line_endings(s@.skip(i as int)),
        decreases s.len() - i,
    {
        let ghost rest = s@.skip(i as int);
        let ghost before = out@;
        let b = s[i];
        if b == CR && i + 1 < s.len() && s[i + 1] == LF {
            out.push(CR);
            out.push(LF);
            assert(rest.skip(2) =~= s@.skip(i + 2));
            assert(out@ =~= before + crlf());
            i += 2;
        } else if b == LF {
            out.push(CR);
            out.push(LF);
            assert(rest.skip(1) =~= s@.skip(i + 1));
            assert(out@ =~= before + crlf());
            i += 1;
        } else {
            out.push(b);
            assert(rest.skip(1) =~= s@.skip(i + 1));
            assert(out@ =~= before + seq![b]);
            i += 1;
        }
        assert(normalize_line_endings(s@) =~= out@ + normalize_line_endings(s@.skip(i as int)));
    }
    assert(normalize_line_endings(s@) =~= out@);
    out
}

fn byte_is_blank(b: u8, fold: bool) -> (r: bool)
    ensures
        r == is_blank(b, fold),
{
    b == SP || b == HTAB || (fold && (b == CR || b == LF))
}

/// `s` with its runs of blanks squeezed; `fold` says whether line breaks
/// count as blanks, as they do in a header value.
pub fn squeeze_bytes(s: &[u8], fold: bool) -> (r: Vec<u8>)
    ensures
        r@ == squeeze(s@, fold),
{
    let mut out: Vec<u8> = Vec::new();
    let mut i: usize = 0;
    assert(s@.skip(0) =~= s@);
    while i < s.len()
        invariant
            i <= s.len(),
            squeeze(s@, fold) == out@ + squeeze(s@.skip(i as int), fold),
        decreases s.len() - i,
    {
        let ghost rest = s@.skip(i as int);
        let ghost before = out@;
        let b = s[i];
        assert(rest.skip(1) =~= s@.skip(i + 1));
        if byte_is_blank(b, fold) {
            let dropped = i + 1 >= s.len() || byte_is_blank(s[i + 1], fold) || (s[i + 1] == CR
                && i + 2 < s.len() && s[i + 2] == LF);
            assert(dropped == blank_is_dropped(rest, fold));
            if !dropped {
                out.push(SP);
                assert(out@ =~= before + seq![SP]);
            }
        } else {
            out.push(b);
            assert(out@ =~= before + seq![b]);
        }
        i += 1;
        assert(squeeze(s@, fold) =~= out@ + squeeze(s@.skip(i as int), fold));
    }
    assert(squeeze(s@, fold) =~= out@);
    out
}

/// Length of `s` once the line terminators at its end are gone.
pub fn stripped_len(s: &[u8]) -> (r: usize)
    ensures
        r <= s.len(),
        s@.take(r as int) == strip_trailing_crlfs(s@),
{
    let mut end: usize = s.len();
    assert(s@.take(end as int) =~= s@);
    while end >= 2 && s[end - 2] == CR && s[end - 1] == LF
        invariant
            end <= s.len(),
            strip_trailing_crlfs(s@) == strip_trailing_crlfs(s@.take(end as int)),
        decreases end,
    {
        assert(s@.take(end as int).take(end - 2) =~= s@.take(end - 2));
        end -= 2;
    }
    end
}

/// The body in the canonical form that `mode` asks for.
pub fn canonicalize_body(raw_body: &[u8], mode: Canonicalization) -> (r: Vec<u8>)
    ensures
        r@ == canonical_body(raw_body@, mode),
{
    let lines = normalize_bytes(raw_body);
    let text = match mode {
        Canonicalization::Simple => lines,
        Canonicalization::Relaxed => squeeze_bytes(lines.as_slice(), false),
    };
    let end = stripped_len(text.as_slice());
    let mut out = copy_range(text.as_slice(), 0, end);
    assert(out@ =~= strip_trailing_crlfs(text@));
    if end > 0 || mode == Canonicalization::Simple {
        out.push(CR);
        out.push(LF);
        assert(out@ =~= strip_trailing_crlfs(text@) + crlf());
    }
    out
}

/// The header name in relaxed form.
pub fn relaxed_name_bytes(name: &[u8]) -> (r: Vec<u8>)
    ensures
        r@ == relaxed_name(name@),
{
    let mut out: Vec<u8> = Vec::new();
    let mut i: usize = 0;
    while i < name.len()
        invariant
            i <= name.len(),
            out@ == relaxed_name(name@.take(i as int)),
        decreases name.len() - i,
    {
        let b = name[i];
        assert(name@.take(i + 1).drop_last() =~= name@.take(i as int));
        if !byte_is_fws(b) {
            out.push(to_lower(b));
        }
        i += 1;
    }
    assert(name@.take(name.len() as int) =~= name@);
    out
}

/// The header value in relaxed form.
pub fn relaxed_value_bytes(value: &[u8]) -> (r: Vec<u8>)
    ensures
        r@ == relaxed_value(value@),
{
    let mut i: usize = 0;
    assert(value@.skip(0) =~= value@);
    while i < value.len() && byte_is_fws(value[i])
        invariant
            i <= value.len(),
            trim_start(value@) == trim_start(value@.skip(i as int)),
        decreases value.len() - i,
    {
        assert(value@.skip(i as int).skip(1) =~= value@.skip(i + 1));
        i += 1;
    }
    let rest = copy_range(value, i, value.len());
    assert(rest@ =~= value@.skip(i as int));
    squeeze_bytes(rest.as_slice(), true)
}

/// The header field in canonical form, without a line terminator at its end:
/// the form in which a signature's own header field enters the signed data.
pub fn canonicalize_header_text(name: &[u8], raw_value: &[u8], mode: Canonicalization) -> (r: Vec<
    u8,
>)
    ensures
        r@ == canonical_header_text(name@, raw_value@, mode),
{
    match mode {
        Canonicalization::Simple => {
            let mut out = copy_range(name, 0, name.len());
            assert(out@ =~= name@);
            out.push(COLON);
            let value = normalize_bytes(raw_value);
            append_bytes(&mut out, value.as_slice());
            out
        },
        Canonicalization::Relaxed => {
            let mut out = relaxed_name_bytes(name);
            out.push(COLON);
            let value = relaxed_value_bytes(raw_value);
            append_bytes(&mut out, value.as_slice());
            out
        },
    }
}

/// The header field in canonical form, as one terminated line.
pub fn canonicalize_header(name: &[u8], raw_value: &[u8], mode: Canonicalization) -> (r: Vec<u8>)
    ensures
        r@ == canonical_header(name@, raw_value@, mode),
{
    let mut out = canonicalize_header_text(name, raw_value, mode);
    out.push(CR);
    out.push(LF);
    assert(out@ =~= canonical_header_text(name@, raw_value@, mode) + crlf());
    out
}

} // verus!
