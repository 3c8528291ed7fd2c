//! The question that asks a name server for a signer's key record, and the
//! reading of the answer. Sending the one and receiving the other is left to
//! the caller.

use vstd::prelude::*;
use crate::bytes::{append_bytes, ascii, copy_range, seqs_of, split, split_bytes, text_bytes};
use crate::key::{key_record_of, parse_key_record, KeyResolution, KeyState};

verus! {

pub const DOT: u8 = 0x2e;

/// The name under which a signer publishes the key for a selector.
pub open spec fn key_name(selector: Seq<u8>, domain: Seq<u8>) -> Seq<u8> {
    selector + ascii("._domainkey."@) + domain
}

/// The name under which a signer publishes the key for a selector.
pub fn key_record_name(selector: &[u8], domain: &[u8]) -> (r: Vec<u8>)
    ensures
        r@ == key_name(selector@, domain@),
{
    proof {
        reveal_strlit("._domainkey.");
    }
    let mut out = copy_range(selector, 0, selector.len());
    assert(out@ =~= selector@);
    append_bytes(&mut out, text_bytes("._domainkey.").as_slice());
    append_bytes(&mut out, domain);
    out
}

/// The labels of a name, each behind a byte that holds its length.
pub open spec fn encoded_labels(labels: Seq<Seq<u8>>) -> Seq<u8>
    decreases labels.len(),
{
    if labels.len() == 0 {
        Seq::empty()
    } else {
        encoded_labels(labels.drop_last()) + seq![labels.last().len() as u8] + labels.last()
    }
}

/// Whether every label has from 1 to 63 bytes, as a query can carry them.
pub open spec fn labels_fit(labels: Seq<Seq<u8>>) -> bool {
    forall|i: int| 0 <= i < labels.len() ==> 1 <= (#[trigger] labels[i]).len() <= 63
}

/// What stands before the name in a query: an identifier, the flag that asks
/// for recursion, and the count of one question.
pub open spec fn query_head() -> Seq<u8> {
    seq![0x12u8, 0x34, 0x01, 0x00, 0x00, 0x01, 0x00, 0x00, 0x00, 0x00, 0x00, 0x00]
}

/// What stands behind the name in a query: the end of the name, the type
/// of a text record, and the class of the internet.
pub open spec fn query_tail() -> Seq<u8> {
    seq![0x00u8, 0x00, 0x10, 0x00, 0x01]
}

/// The query for the text record under `name`; none where a label of the
/// name is empty or too long to be carried.
pub open spec fn query_for(name: Seq<u8>) -> Option<Seq<u8>> {
    let labels = split(name, DOT);
    if labels_fit(labels) {
        Some(query_head() + encoded_labels(labels) + query_tail())
    } else {
        None
    }
}

/// The bytes of the query that asks for the key record of a selector and
/// domain.
pub fn key_query(selector: &[u8], domain: &[u8]) -> (r: Option<Vec<u8>>)
    ensures
        match query_for(key_name(selector@, domain@)) {
            Some(q) => r is Some && r->Some_0@ == q,
            None => r is None,
        },
{
    let name = key_record_name(selector, domain);
    let labels = split_bytes(name.as_slice(), DOT);
    let ghost all = seqs_of(labels@);
    let mut out: Vec<u8> = Vec::new();
    out.push(0x12);
    out.push(0x34);
    out.push(0x01);
    out.push(0x00);
    out.push(0x00);
    out.push(0x01);
    out.push(0x00);
    out.push(0x00);
    out.push(0x00);
    out.push(0x00);
    out.push(0x00);
    out.push(0x00);
    assert(out@ =~= query_head());
    let mut i: usize = 0;
    assert(all.take(0) =~= Seq::<Seq<u8>>::empty());
    while i < labels.len()
        invariant
            i <= labels@.len(),
            all == seqs_of(labels@),
            all == split(name@, DOT),
            name@ == key_name(selector@, domain@),
            labels_fit(all.take(i as int)),
            out@ == query_head() + encoded_labels(all.take(i as int)),
        decreases labels@.len() - i,
    {
        let label = labels[i].as_slice();
        assert(all[i as int] == label@);
        if label.len() == 0 || label.len() > 63 {
            assert(!(1 <= all[i as int].len() <= 63));
            return None;
        }
        let ghost before = out@;
        out.push(label.len() as u8);
        append_bytes(&mut out, label);
        proof {
            assert(all.take(i + 1).drop_last() =~= all.take(i as int));
            assert(all.take(i + 1).last() == label@);
            assert(out@ =~= query_head() + encoded_labels(all.take(i + 1)));
            assert forall|j: int| 0 <= j < all.take(i + 1).len() implies 1 <= (
            #[trigger] all.take(i + 1)[j]).len() <= 63 by {
                if j < i {
                    assert(all.take(i as int)[j] == all.take(i + 1)[j]);
                }
            }
        }
        i += 1;
    }
    assert(all.take(labels@.len() as int) =~= all);
    let ghost body = out@;
    out.push(0x00);
    out.push(0x00);
    out.push(0x10);
    out.push(0x00);
    out.push(0x01);
    assert(out@ =~= body + query_tail());
    Some(out)
}

/// The number that two bytes hold, the high one first.
pub open spec fn number(high: u8, low: u8) -> int {
    high * 256 + low
}

fn read_number(high: u8, low: u8) -> (r: usize)
    ensures
        r == number(high, low),
        r <= 0xffff,
{
    (high as usize) * 256 + (low as usize)
}

/// Where the name that begins at `at` ends. A name is a run of labels, each
/// behind a byte with its length, that ends with an empty label or with a
/// reference of two bytes to a name elsewhere. `None` where the data end
/// before the name does.
pub open spec fn name_end(data: Seq<u8>, at: int) -> Option<int>
    decreases data.len() - at,
{
    if at < 0 || at >= data.len() {
        None
    } else if data[at] == 0 {
        Some(at + 1)
    } else if data[at] >= 0xc0 {
        if at + 2 <= data.len() {
            Some(at + 2)
        } else {
            None
        }
    } else if at + 1 + data[at] >= data.len() {
        None
    } else {
        name_end(data, at + 1 + data[at])
    }
}

/// Where `count` questions that begin at `at` end: each is a name and four
/// bytes.
pub open spec fn questions_end(data: Seq<u8>, at: int, count: int) -> Option<int>
    decreases count,
{
    if count <= 0 {
        Some(at)
    } else {
        match name_end(data, at) {
            Some(e) => if e + 4 <= data.len() {
                questions_end(data, e + 4, count - 1)
            } else {
                None
            },
            None => None,
        }
    }
}

/// The text in the data of a text record: its strings, each behind a byte
/// with its length, one after the other.
pub open spec fn text_of(rdata: Seq<u8>) -> Option<Seq<u8>>
    decreases rdata.len(),
{
    if rdata.len() == 0 {
        Some(Seq::empty())
    } else if 1 + rdata[0] > rdata.len() {
        None
    } else {
        match text_of(rdata.skip(1 + rdata[0])) {
            Some(rest) => Some(rdata.subrange(1, 1 + rdata[0]) + rest),
            None => None,
        }
    }
}

/// The type of a text record.
pub const TEXT_RECORD: usize = 16;

/// The text of the first text record among the `count` records that begin at
/// `at`. Each record is a name, ten bytes that hold its type and the length of
/// its data, and the data. `None` where none of them is a text record, or
/// where the data end before a record does.
pub open spec fn first_text(data: Seq<u8>, at: int, count: int) -> Option<Seq<u8>>
    decreases count,
{
    if count <= 0 {
        None
    } else {
        match name_end(data, at) {
            Some(e) => {
                if e + 10 > data.len() {
                    None
                } else {
                    let length = number(data[e + 8], data[e + 9]);
                    if e + 10 + length > data.len() {
                        None
                    } else if number(data[e], data[e + 1]) == TEXT_RECORD {
                        text_of(data.subrange(e + 10, e + 10 + length))
                    } else {
                        first_text(data, e + 10 + length, count - 1)
                    }
                }
            },
            None => None,
        }
    }
}

/// What an answer says of the key. The name server's word that the name does
/// not exist, and an answer without records, mean that there is no key; any
/// other failure, and an answer that cannot be read, mean that the key is
/// unavailable for now. The first text record is read as the key record.
pub open spec fn answer_of(response: Seq<u8>) -> KeyState {
    if response.len() < 12 {
        KeyState::Unavailable
    } else if response[3] % 16 == 3 {
        KeyState::NotFound
    } else if response[3] % 16 != 0 {
        KeyState::Unavailable
    } else {
        match questions_end(response, 12, number(response[4], response[5])) {
            Some(at) => {
                let answers = number(response[6], response[7]);
                if answers == 0 {
                    KeyState::NotFound
                } else {
                    match first_text(response, at, answers) {
                        Some(text) => key_record_of(text),
                        None => KeyState::Unavailable,
                    }
                }
            },
            None => KeyState::Unavailable,
        }
    }
}

fn skip_name(data: &[u8], at: usize) -> (r: Option<usize>)
    requires
        at <= data.len(),
    ensures
        match r {
            Some(e) => name_end(data@, at as int) == Some(e as int) && at < e <= data.len(),
            None => name_end(data@, at as int) is None,
        },
{
    let mut pos: usize = at;
    while pos < data.len()
        invariant
            at <= pos <= data.len(),
            name_end(data@, at as int) == name_end(data@, pos as int),
        decreases data.len() - pos,
    {
        let length = data[pos];
        if length == 0 {
            return Some(pos + 1);
        } else if length >= 0xc0 {
            if data.len() - pos >= 2 {
                return Some(pos + 2);
            } else {
                return None;
            }
        } else if length as usize + 1 >= data.len() - pos {
            return None;
        }
        pos = pos + 1 + length as usize;
    }
    None
}

fn skip_questions(data: &[u8], at: usize, count: usize) -> (r: Option<usize>)
    requires
        at <= data.len(),
    ensures
        match r {
            Some(e) => questions_end(data@, at as int, count as int) == Some(e as int) && e
                <= data.len(),
            None => questions_end(data@, at as int, count as int) is None,
        },
{
    let mut pos: usize = at;
    let mut left: usize = count;
    while left > 0
        invariant
            pos <= data.len(),
            questions_end(data@, at as int, count as int) == questions_end(
                data@,
                pos as int,
                left as int,
            ),
        decreases left,
    {
        match skip_name(data, pos) {
            Some(e) => {
                if data.len() - e < 4 {
                    return None;
                }
                pos = e + 4;
            },
            None => {
                return None;
            },
        }
        left -= 1;
    }
    Some(pos)
}

fn read_text(data: &[u8], from: usize, to: usize) -> (r: Option<Vec<u8>>)
    requires
        from <= to <= data.len(),
    ensures
        match text_of(data@.subrange(from as int, to as int)) {
            Some(t) => r is Some && r->Some_0@ == t,
            None => r is None,
        },
{
    let mut out: Vec<u8> = Vec::new();
    let mut pos: usize = from;
    let ghost whole = text_of(data@.subrange(from as int, to as int));
    proof {
        match whole {
            Some(t) => {
                assert(Seq::<u8>::empty() + t =~= t);
            },
            None => {},
        }
    }
    while pos < to
        invariant
            from <= pos <= to <= data.len(),
            whole == text_of(data@.subrange(from as int, to as int)),
            whole == (match text_of(data@.subrange(pos as int, to as int)) {
                Some(t) => Some(out@ + t),
                None => None,
            }),
        decreases to - pos,
    {
        let ghost rest = data@.subrange(pos as int, to as int);
        let ghost before = out@;
        let length = data[pos] as usize;
        assert(rest[0] == data@[pos as int]);
        if length + 1 > to - pos {
            assert(text_of(rest) is None);
            return None;
        }
        let piece = copy_range(data, pos + 1, pos + 1 + length);
        append_bytes(&mut out, piece.as_slice());
        proof {
            assert(piece@ =~= rest.subrange(1, 1 + length));
            assert(rest.skip(1 + length) =~= data@.subrange(pos + 1 + length, to as int));
            match text_of(rest.skip(1 + length)) {
                Some(t) => {
                    assert(before + (rest.subrange(1, 1 + length) + t) =~= out@ + t);
                },
                None => {},
            }
        }
        pos = pos + 1 + length;
    }
    proof {
        assert(data@.subrange(pos as int, to as int) =~= Seq::<u8>::empty());
        assert(out@ + Seq::<u8>::empty() =~= out@);
    }
    Some(out)
}

fn find_text(data: &[u8], at: usize, count: usize) -> (r: Option<Vec<u8>>)
    requires
        at <= data.len(),
    ensures
        match first_text(data@, at as int, count as int) {
            Some(t) => r is Some && r->Some_0@ == t,
            None => r is None,
        },
{
    let mut pos: usize = at;
    let mut left: usize = count;
    while left > 0
        invariant
            pos <= data.len(),
            first_text(data@, at as int, count as int) == first_text(
                data@,
                pos as int,
                left as int,
            ),
        decreases left,
    {
        let e = match skip_name(data, pos) {
            Some(e) => e,
            None => {
                return None;
            },
        };
        if data.len() - e < 10 {
            return None;
        }
        let kind = read_number(data[e], data[e + 1]);
        let length = read_number(data[e + 8], data[e + 9]);
        if data.len() - e - 10 < length {
            return None;
        }
        if kind == TEXT_RECORD {
            return read_text(data, e + 10, e + 10 + length);
        }
        pos = e + 10 + length;
        left -= 1;
    }
    None
}

/// Reads the answer of a name server to the query for a key record.
pub fn read_answer(response: &[u8]) -> (r: KeyResolution)
    ensures
        r@ == answer_of(response@),
{
    if response.len() < 12 {
        return KeyResolution::Unavailable;
    }
    let code = response[3] % 16;
    if code == 3 {
        return KeyResolution::NotFound;
    } else if code != 0 {
        return KeyResolution::Unavailable;
    }
    let questions = read_number(response[4], response[5]);
    let answers = read_number(response[6], response[7]);
    match skip_questions(response, 12, questions) {
        Some(at) => {
            if answers == 0 {
                KeyResolution::NotFound
            } else {
                match find_text(response, at, answers) {
                    Some(text) => parse_key_record(text.as_slice()),
                    None => KeyResolution::Unavailable,
                }
            }
        },
        None => KeyResolution::Unavailable,
    }
}

} // verus!
