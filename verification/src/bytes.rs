//! Byte-string helpers shared by the parsers and the canonicalizer.

use vstd::prelude::*;
use vstd::string::StringSliceAdditionalSpecFns;

verus! {

pub const HTAB: u8 = 0x09;

pub const LF: u8 = 0x0a;

pub const CR: u8 = 0x0d;

pub const SP: u8 = 0x20;

pub const COLON: u8 = 0x3a;

pub const SEMICOLON: u8 = 0x3b;

pub const EQUALS: u8 = 0x3d;

/// Blank inside a line: space or horizontal tab.
pub open spec fn is_wsp(b: u8) -> bool {
    b == SP || b == HTAB
}

/// Folding white space: a blank or one of the two line-break bytes.
pub open spec fn is_fws(b: u8) -> bool {
    is_wsp(b) || b == CR || b == LF
}

/// Whether `b` is a space or a tab.
pub fn byte_is_wsp(b: u8) -> (r: bool)
    ensures
        r == is_wsp(b),
{
    b == SP || b == HTAB
}

/// Whether `b` is folding white space.
pub fn byte_is_fws(b: u8) -> (r: bool)
    ensures
        r == is_fws(b),
{
    b == SP || b == HTAB || b == CR || b == LF
}

/// ASCII lower-casing of one byte.
pub open spec fn lower(b: u8) -> u8 {
    if 0x41 <= b <= 0x5a {
        (b + 32) as u8
    } else {
        b
    }
}

/// `b` in lower case.
pub fn to_lower(b: u8) -> (r: u8)
    ensures
        r == lower(b),
{
    if 0x41 <= b && b <= 0x5a {
        b + 32
    } else {
        b
    }
}

/// ASCII lower-casing of a byte string.
pub open spec fn lowercase(s: Seq<u8>) -> Seq<u8> {
    Seq::new(s.len(), |i: int| lower(s[i]))
}

/// The views of a vector of byte vectors.
pub open spec fn seqs_of(v: Seq<Vec<u8>>) -> Seq<Seq<u8>> {
    Seq::new(v.len(), |i: int| v[i]@)
}

/// Case-insensitive equality of two byte strings.
pub fn eq_ignore_case(a: &[u8], b: &[u8]) -> (r: bool)
    ensures
        r == (lowercase(a@) == lowercase(b@)),
{
    if a.len() != b.len() {
        assert(lowercase(a@).len() != lowercase(b@).len());
        return false;
    }
    let mut i: usize = 0;
    while i < a.len()
        invariant
            a.len() == b.len(),
            i <= a.len(),
            forall|j: int| 0 <= j < i ==> lower(a@[j]) == lower(b@[j]),
        decreases a.len() - i,
    {
        if to_lower(a[i]) != to_lower(b[i]) {
            assert(lowercase(a@)[i as int] != lowercase(b@)[i as int]);
            return false;
        }
        i += 1;
    }
    assert(lowercase(a@) =~= lowercase(b@));
    true
}

/// Equality of two byte strings. Once the lengths agree, every position is
/// visited whatever the contents are.
pub fn bytes_eq(a: &[u8], b: &[u8]) -> (r: bool)
    ensures
        r == (a@ == b@),
{
    if a.len() != b.len() {
        return false;
    }
    let mut diff: u8 = 0;
    let mut i: usize = 0;
    while i < a.len()
        invariant
            a.len() == b.len(),
            i <= a.len(),
            (diff == 0) == (forall|j: int| 0 <= j < i ==> a@[j] == b@[j]),
        decreases a.len() - i,
    {
        let x: u8 = a[i];
        let y: u8 = b[i];
        let d: u8 = diff;
        assert(((d | (x ^ y)) == 0) == (d == 0 && x == y)) by (bit_vector);
        diff = diff | (x ^ y);
        i += 1;
    }
    assert((diff == 0) == (a@ =~= b@));
    diff == 0
}

/// A copy of `s[from..to]`.
pub fn copy_range(s: &[u8], from: usize, to: usize) -> (r: Vec<u8>)
    requires
        from <= to <= s.len(),
    ensures
        r@ == s@.subrange(from as int, to as int),
{
    let mut out: Vec<u8> = Vec::new();
    let mut i: usize = from;
    while i < to
        invariant
            from <= i <= to <= s.len(),
            out@ == s@.subrange(from as int, i as int),
        decreases to - i,
    {
        out.push(s[i]);
        i += 1;
    }
    out
}

/// Appends `src` to `dst`.
pub fn append_bytes(dst: &mut Vec<u8>, src: &[u8])
    ensures
        final(dst)@ == old(dst)@ + src@,
{
    let mut i: usize = 0;
    while i < src.len()
        invariant
            i <= src.len(),
            dst@ == old(dst)@ + src@.take(i as int),
        decreases src.len() - i,
    {
        dst.push(src[i]);
        i += 1;
    }
    assert(src@.take(src.len() as int) =~= src@);
}

/// Index of the first occurrence of `b` in `s`, or `s.len()` where there is none.
pub open spec fn find_byte(s: Seq<u8>, b: u8) -> nat
    decreases s.len(),
{
    if s.len() == 0 || s[0] == b {
        0
    } else {
        1 + find_byte(s.skip(1), b)
    }
}

/// `find_byte` is within the string, stands on `b` unless it is the end, and
/// has no `b` before it.
pub proof fn lemma_find_byte(s: Seq<u8>, b: u8)
    ensures
        find_byte(s, b) <= s.len(),
        find_byte(s, b) < s.len() ==> s[find_byte(s, b) as int] == b,
        forall|j: int| 0 <= j < find_byte(s, b) ==> s[j] != b,
    decreases s.len(),
{
    if s.len() == 0 || s[0] == b {
    } else {
        lemma_find_byte(s.skip(1), b);
        assert forall|j: int| 0 <= j < find_byte(s, b) implies s[j] != b by {
            if j > 0 {
                assert(s.skip(1)[j - 1] == s[j]);
            }
        }
    }
}

/// `find_byte` is the only index with nothing equal to `b` before it and `b`,
/// or the end, at it.
pub proof fn lemma_find_byte_unique(s: Seq<u8>, b: u8, n: int)
    requires
        0 <= n <= s.len(),
        forall|j: int| 0 <= j < n ==> s[j] != b,
        n < s.len() ==> s[n] == b,
    ensures
        find_byte(s, b) == n,
{
    lemma_find_byte(s, b);
}

/// Position of the first `b` at or after `from`, or `s.len()`.
pub fn find_from(s: &[u8], b: u8, from: usize) -> (r: usize)
    requires
        from <= s.len(),
    ensures
        r == from + find_byte(s@.skip(from as int), b),
        from <= r <= s.len(),
{
    let mut i: usize = from;
    while i < s.len() && s[i] != b
        invariant
            from <= i <= s.len(),
            forall|j: int| from <= j < i ==> s@[j] != b,
        decreases s.len() - i,
    {
        i += 1;
    }
    proof {
        lemma_find_byte_unique(s@.skip(from as int), b, i - from);
    }
    i
}

/// The pieces of `s` between occurrences of `sep`; never empty, so that a
/// string without `sep` is its own single piece.
pub open spec fn split(s: Seq<u8>, sep: u8) -> Seq<Seq<u8>>
    decreases s.len(),
{
    let i = find_byte(s, sep);
    if i >= s.len() {
        seq![s]
    } else {
        seq![s.take(i as int)] + split(s.skip(i as int + 1), sep)
    }
}

/// The pieces of `s` between occurrences of `sep`.
pub fn split_bytes(s: &[u8], sep: u8) -> (r: Vec<Vec<u8>>)
    ensures
        seqs_of(r@) == split(s@, sep),
{
    let mut out: Vec<Vec<u8>> = Vec::new();
    let mut pos: usize = 0;
    assert(s@.skip(0) =~= s@);
    assert(seqs_of(out@) + split(s@, sep) =~= split(s@, sep));
    loop
        invariant_except_break
            pos <= s.len(),
            split(s@, sep) == seqs_of(out@) + split(s@.skip(pos as int), sep),
        ensures
            seqs_of(out@) == split(s@, sep),
        decreases s.len() - pos,
    {
        let ghost before = seqs_of(out@);
        let ghost rest = s@.skip(pos as int);
        let j = find_from(s, sep, pos);
        let piece = copy_range(s, pos, j);
        out.push(piece);
        assert(seqs_of(out@) =~= before.push(s@.subrange(pos as int, j as int)));
        if j >= s.len() {
            assert(rest =~= s@.subrange(pos as int, j as int));
            assert(split(rest, sep) =~= seq![rest]);
            break ;
        }
        assert(rest.take(j - pos) =~= s@.subrange(pos as int, j as int));
        assert(rest.skip(j - pos + 1) =~= s@.skip(j + 1));
        assert(split(rest, sep) =~= seq![rest.take(j - pos)] + split(rest.skip(j - pos + 1), sep));
        pos = j + 1;
    }
    out
}

/// `s` without its leading folding white space.
pub open spec fn trim_start(s: Seq<u8>) -> Seq<u8>
    decreases s.len(),
{
    if s.len() > 0 && is_fws(s[0]) {
        trim_start(s.skip(1))
    } else {
        s
    }
}

/// `s` without its trailing folding white space.
pub open spec fn trim_end(s: Seq<u8>) -> Seq<u8>
    decreases s.len(),
{
    if s.len() > 0 && is_fws(s.last()) {
        trim_end(s.drop_last())
    } else {
        s
    }
}

/// `s` without folding white space at either end.
pub open spec fn trim(s: Seq<u8>) -> Seq<u8> {
    trim_end(trim_start(s))
}

/// `s` without folding white space at either end.
pub fn trim_bytes(s: &[u8]) -> (r: Vec<u8>)
    ensures
        r@ == trim(s@),
{
    let mut i: usize = 0;
    assert(s@.skip(0) =~= s@);
    while i < s.len() && byte_is_fws(s[i])
        invariant
            i <= s.len(),
            trim_start(s@) == trim_start(s@.skip(i as int)),
        decreases s.len() - i,
    {
        assert(s@.skip(i as int).skip(1) =~= s@.skip(i + 1));
        i += 1;
    }
    let mut j: usize = s.len();
    assert(s@.subrange(i as int, j as int) =~= s@.skip(i as int));
    while j > i && byte_is_fws(s[j - 1])
        invariant
            i <= j <= s.len(),
            trim(s@) == trim_end(s@.subrange(i as int, j as int)),
        decreases j,
    {
        assert(s@.subrange(i as int, j as int).drop_last() =~= s@.subrange(i as int, j - 1));
        j -= 1;
    }
    copy_range(s, i, j)
}

/// `s` with every byte of folding white space taken out.
pub open spec fn strip_fws(s: Seq<u8>) -> Seq<u8> {
    s.filter(|b: u8| !is_fws(b))
}

/// `s` without any folding white space.
pub fn strip_fws_bytes(s: &[u8]) -> (r: Vec<u8>)
    ensures
        r@ == strip_fws(s@),
{
    let mut out: Vec<u8> = Vec::new();
    let mut i: usize = 0;
    assert(s@.take(0).filter(|b: u8| !is_fws(b)) =~= Seq::<u8>::empty());
    while i < s.len()
        invariant
            i <= s.len(),
            out@ == strip_fws(s@.take(i as int)),
        decreases s.len() - i,
    {
        let b = s[i];
        proof {
            assert(s@.take(i + 1).drop_last() =~= s@.take(i as int));
            reveal(Seq::filter);
        }
        if !byte_is_fws(b) {
            out.push(b);
        }
        i += 1;
    }
    assert(s@.take(s.len() as int) =~= s@);
    out
}

/// The bytes of a text made of ASCII characters.
pub open spec fn ascii(text: Seq<char>) -> Seq<u8> {
    Seq::new(text.len(), |i: int| text[i] as u8)
}

/// Whether `bytes` spells the ASCII text `text`.
pub(crate) fn is_text(bytes: &[u8], text: &str) -> (r: bool)
    requires
        text.is_ascii(),
    ensures
        r == (bytes@ == ascii(text@)),
{
    broadcast use vstd::string::is_ascii_spec_bytes;

    assert(text.spec_bytes() =~= ascii(text@));
    bytes_eq(bytes, text.as_bytes())
}

/// The bytes of the ASCII text `text`.
pub(crate) fn text_bytes(text: &str) -> (r: Vec<u8>)
    requires
        text.is_ascii(),
    ensures
        r@ == ascii(text@),
{
    broadcast use vstd::string::is_ascii_spec_bytes;

    assert(text.spec_bytes() =~= ascii(text@));
    let b = text.as_bytes();
    copy_range(b, 0, b.len())
}

/// The pieces put together again, with `sep` between each two of them.
pub open spec fn join(pieces: Seq<Seq<u8>>, sep: u8) -> Seq<u8>
    decreases pieces.len(),
{
    if pieces.len() == 0 {
        Seq::empty()
    } else if pieces.len() == 1 {
        pieces[0]
    } else {
        join(pieces.drop_last(), sep) + seq![sep] + pieces.last()
    }
}

proof fn lemma_join_front(first: Seq<u8>, rest: Seq<Seq<u8>>, sep: u8)
    requires
        rest.len() > 0,
    ensures
        join(seq![first] + rest, sep) == first + seq![sep] + join(rest, sep),
    decreases rest.len(),
{
    let all = seq![first] + rest;
    assert(all.drop_last() =~= seq![first] + rest.drop_last());
    assert(all.last() == rest.last());
    if rest.len() == 1 {
        assert(all.drop_last() =~= seq![first]);
        assert(join(all.drop_last(), sep) == first);
        assert(join(rest, sep) == rest[0]);
    } else {
        lemma_join_front(first, rest.drop_last(), sep);
        assert(join(all, sep) =~= first + seq![sep] + join(rest, sep));
    }
}

/// Splitting at a separator and joining with it again gives the string back.
pub proof fn lemma_join_split(s: Seq<u8>, sep: u8)
    ensures
        join(split(s, sep), sep) == s,
        split(s, sep).len() > 0,
    decreases s.len(),
{
    lemma_find_byte(s, sep);
    let i = find_byte(s, sep);
    if i >= s.len() {
    } else {
        let rest = s.skip(i as int + 1);
        lemma_join_split(rest, sep);
        lemma_join_front(s.take(i as int), split(rest, sep), sep);
        assert(s.take(i as int) + seq![sep] + rest =~= s);
    }
}

} // verus!
