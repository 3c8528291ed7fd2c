//! A message as header fields and body, each header field with the exact
//! bytes that the message holds for it.

use vstd::prelude::*;
use crate::bytes::{copy_range, COLON, CR, LF};
use crate::canon::ends_with_crlf;

verus! {

/// One header field: the bytes before its colon, and the bytes after it up to
/// the line terminator that ends the field. Nothing is trimmed, unfolded or
/// changed in case.
#[derive(Clone, Debug, PartialEq, Eq)]
pub struct HeaderField {
    pub name: Vec<u8>,
    pub value: Vec<u8>,
}

/// A `HeaderField` as a mathematical value.
pub struct FieldText {
    pub name: Seq<u8>,
    pub value: Seq<u8>,
}

impl View for HeaderField {
    type V = FieldText;

    open spec fn view(&self) -> FieldText {
        FieldText { name: self.name@, value: self.value@ }
    }
}

/// A message: its header fields in their order, and its body.
#[derive(Clone, Debug, PartialEq, Eq)]
pub struct Message {
    pub headers: Vec<HeaderField>,
    pub body: Vec<u8>,
}

/// A `Message` as a mathematical value.
pub struct MessageText {
    pub headers: Seq<FieldText>,
    pub body: Seq<u8>,
}

/// The views of a vector of header fields.
pub open spec fn fields_of(v: Seq<HeaderField>) -> Seq<FieldText> {
    Seq::new(v.len(), |i: int| v[i]@)
}

impl View for Message {
    type V = MessageText;

    open spec fn view(&self) -> MessageText {
        MessageText { headers: fields_of(self.headers@), body: self.body@ }
    }
}

/// For data that begins with a header field: the length of the field's name
/// and the length of the whole field, line terminator included. `None` where
/// the data begins with no header field.
pub uninterp spec fn header_extent(data: Seq<u8>) -> Option<(nat, nat)>;

/// Calls `mailparse::parse_header` and gives back the length of the raw key
/// and the index at which the next header field begins. Trusted: both are a
/// function of the data alone; the key is a prefix of what was consumed, and
/// at least one byte, and no more than there is, was consumed.
#[verifier::external_body]
fn parse_header_extent(data: &[u8]) -> (r: Option<(usize, usize)>)
    ensures
        r is Some <==> header_extent(data@) is Some,
        r matches Some((k, n)) ==> header_extent(data@) == Some((k as nat, n as nat)) && k <= n
            && 1 <= n <= data@.len(),
{
    match mailparse::parse_header(data) {
        Ok((header, next)) => Some((header.get_key_raw().len(), next)),
        Err(_) => None,
    }
}

/// `s` without the one line terminator at its end, if it has one there.
pub open spec fn without_line_end(s: Seq<u8>) -> Seq<u8> {
    if ends_with_crlf(s) {
        s.take(s.len() - 2)
    } else if s.len() > 0 && s.last() == LF {
        s.drop_last()
    } else {
        s
    }
}

/// The header field that `line` holds, where its name is `key_len` bytes
/// long. A line without a colon after the name has an empty value.
pub open spec fn field_at(line: Seq<u8>, key_len: nat) -> FieldText {
    FieldText {
        name: line.take(key_len as int),
        value: if key_len < line.len() && line[key_len as int] == COLON {
            without_line_end(line.skip(key_len as int + 1))
        } else {
            Seq::empty()
        },
    }
}

/// The header field in `raw[from..to]`, with a name of `key_len` bytes.
pub fn header_field(raw: &[u8], from: usize, to: usize, key_len: usize) -> (r: HeaderField)
    requires
        from <= to <= raw.len(),
        key_len <= to - from,
    ensures
        r@ == field_at(raw@.subrange(from as int, to as int), key_len as nat),
{
    let ghost line = raw@.subrange(from as int, to as int);
    let name = copy_range(raw, from, from + key_len);
    assert(name@ =~= line.take(key_len as int));
    let colon = from + key_len;
    if colon < to && raw[colon] == COLON {
        let ghost rest = line.skip(key_len as int + 1);
        assert(rest =~= raw@.subrange(colon + 1, to as int));
        let mut end = to;
        if end - colon >= 3 && raw[end - 2] == CR && raw[end - 1] == LF {
            end = end - 2;
        } else if end - colon >= 2 && raw[end - 1] == LF {
            end = end - 1;
        }
        let value = copy_range(raw, colon + 1, end);
        assert(value@ =~= without_line_end(rest));
        HeaderField { name, value }
    } else {
        HeaderField { name, value: Vec::new() }
    }
}

/// The header fields from `at` on, and the body after the empty line that
/// ends them. `None` where a line that should begin a header field begins
/// none, or where a carriage return stands alone in place of the empty line.
pub open spec fn fields_from(raw: Seq<u8>, at: nat) -> Option<MessageText>
    decreases raw.len() - at,
{
    if at >= raw.len() {
        Some(MessageText { headers: Seq::empty(), body: Seq::empty() })
    } else if raw[at as int] == LF {
        Some(MessageText { headers: Seq::empty(), body: raw.skip(at as int + 1) })
    } else if raw[at as int] == CR {
        if at + 1 < raw.len() && raw[at as int + 1] == LF {
            Some(MessageText { headers: Seq::empty(), body: raw.skip(at as int + 2) })
        } else {
            None
        }
    } else {
        match header_extent(raw.skip(at as int)) {
            Some((k, n)) => {
                if 1 <= n && at + n <= raw.len() && k <= n {
                    match fields_from(raw, at + n) {
                        Some(rest) => Some(
                            MessageText {
                                headers: seq![field_at(raw.subrange(at as int, (at + n) as int), k)]
                                    + rest.headers,
                                body: rest.body,
                            },
                        ),
                        None => None,
                    }
                } else {
                    None
                }
            },
            None => None,
        }
    }
}

/// The message that `raw` holds.
pub open spec fn message_of(raw: Seq<u8>) -> Option<MessageText> {
    fields_from(raw, 0)
}

/// `rest` with the header fields `done` put before its own.
pub open spec fn preceded_by(done: Seq<FieldText>, rest: Option<MessageText>) -> Option<
    MessageText,
> {
    match rest {
        Some(m) => Some(MessageText { headers: done + m.headers, body: m.body }),
        None => None,
    }
}

/// Splits a message into its header fields and its body.
pub fn split_message(raw: &[u8]) -> (r: Option<Message>)
    ensures
        match message_of(raw@) {
            Some(m) => r is Some && r->Some_0@ == m,
            None => r is None,
        },
{
    let mut headers: Vec<HeaderField> = Vec::new();
    let mut at: usize = 0;
    let mut body_start: usize = raw.len();
    proof {
        assert(fields_of(headers@) =~= Seq::<FieldText>::empty());
        match fields_from(raw@, 0) {
            Some(m) => {
                assert(Seq::<FieldText>::empty() + m.headers =~= m.headers);
            },
            None => {},
        }
    }
    loop
        invariant_except_break
            at <= raw.len(),
            message_of(raw@) == preceded_by(fields_of(headers@), fields_from(raw@, at as nat)),
        ensures
            body_start <= raw.len(),
            message_of(raw@) == Some(
                MessageText { headers: fields_of(headers@), body: raw@.skip(body_start as int) },
            ),
        decreases raw.len() - at,
    {
        if at >= raw.len() {
            body_start = raw.len();
            assert(raw@.skip(body_start as int) =~= Seq::<u8>::empty());
            assert(fields_of(headers@) + Seq::<FieldText>::empty() =~= fields_of(headers@));
            break ;
        } else if raw[at] == LF {
            body_start = at + 1;
            assert(fields_of(headers@) + Seq::<FieldText>::empty() =~= fields_of(headers@));
            break ;
        } else if raw[at] == CR {
            if at + 1 < raw.len() && raw[at + 1] == LF {
                body_start = at + 2;
                assert(fields_of(headers@) + Seq::<FieldText>::empty() =~= fields_of(headers@));
                break ;
            } else {
                return None;
            }
        }
        let rest = vstd::slice::slice_subrange(raw, at, raw.len());
        assert(rest@ =~= raw@.skip(at as int));
        match parse_header_extent(rest) {
            None => {
                return None;
            },
            Some((k, n)) => {
                let ghost done = fields_of(headers@);
                let field = header_field(raw, at, at + n, k);
                headers.push(field);
                proof {
                    assert(fields_of(headers@) =~= done.push(field@));
                    match fields_from(raw@, (at + n) as nat) {
                        Some(m) => {
                            assert(done + (seq![field@] + m.headers) =~= done.push(field@)
                                + m.headers);
                        },
                        None => {},
                    }
                }
                at = at + n;
            },
        }
    }
    let body = copy_range(raw, body_start, raw.len());
    assert(body@ =~= raw@.skip(body_start as int));
    Some(Message { headers, body })
}

} // verus!
