//! The tag list of a signature header field: `name=value` pairs separated by
//! semicolons.

use vstd::prelude::*;
use vstd::string::StringSliceAdditionalSpecFns;
use crate::bytes::{
    ascii, copy_range, find_byte, find_from, is_text, lemma_find_byte, seqs_of, split,
    split_bytes, strip_fws, strip_fws_bytes, trim, trim_bytes, EQUALS, SEMICOLON,
};

verus! {

/// The tags of one signature header field, each name once.
pub struct DkimSignatureTags {
    names: Vec<Vec<u8>>,
    values: Vec<Vec<u8>>,
}

/// The tags that every signature must carry.
#[derive(Clone, Copy, Debug, PartialEq, Eq, Structural)]
pub enum MandatoryTag {
    /// `b`, the signature itself.
    Signature,
    /// `bh`, the hash of the body.
    BodyHash,
    /// `d`, the signing domain.
    Domain,
    /// `s`, the selector of the key.
    Selector,
    /// `h`, the names of the signed header fields.
    SignedHeaders,
}

/// A tag list that is no signature: a mandatory tag is missing from it.
#[derive(Clone, Copy, Debug, PartialEq, Eq, Structural)]
pub struct MalformedSignature {
    /// The first tag found missing, in the order `b`, `bh`, `d`, `s`, `h`.
    pub missing: MandatoryTag,
}

pub open spec fn has_equals(segment: Seq<u8>) -> bool {
    find_byte(segment, EQUALS) < segment.len()
}

/// The name in a segment: what stands before the first `=`, trimmed.
pub open spec fn tag_name(segment: Seq<u8>) -> Seq<u8> {
    trim(segment.take(find_byte(segment, EQUALS) as int))
}

/// Whether the tag holds base64 text, in which white space means nothing.
pub open spec fn carries_base64(name: Seq<u8>) -> bool {
    name == ascii("b"@) || name == ascii("bh"@)
}

/// The value in a segment: what stands after the first `=`, trimmed; base64
/// text loses its inner white space as well.
pub open spec fn tag_value(segment: Seq<u8>) -> Seq<u8> {
    let v = trim(segment.skip(find_byte(segment, EQUALS) as int + 1));
    if carries_base64(tag_name(segment)) {
        strip_fws(v)
    } else {
        v
    }
}

/// The mapping that a sequence of segments describes. A segment without `=`
/// adds nothing; a name that comes again replaces the earlier value.
pub open spec fn tags_of(segments: Seq<Seq<u8>>) -> Map<Seq<u8>, Seq<u8>>
    decreases segments.len(),
{
    if segments.len() == 0 {
        Map::empty()
    } else {
        let before = tags_of(segments.drop_last());
        let last = segments.last();
        if has_equals(last) {
            before.insert(tag_name(last), tag_value(last))
        } else {
            before
        }
    }
}

/// The mapping that a raw tag list describes.
pub open spec fn tag_map(raw: Seq<u8>) -> Map<Seq<u8>, Seq<u8>> {
    tags_of(split(raw, SEMICOLON))
}

pub open spec fn mandatory_name(tag: MandatoryTag) -> Seq<u8> {
    match tag {
        MandatoryTag::Signature => ascii("b"@),
        MandatoryTag::BodyHash => ascii("bh"@),
        MandatoryTag::Domain => ascii("d"@),
        MandatoryTag::Selector => ascii("s"@),
        MandatoryTag::SignedHeaders => ascii("h"@),
    }
}

/// The first mandatory tag that `tags` lacks, if it lacks one.
pub open spec fn first_missing(tags: Map<Seq<u8>, Seq<u8>>) -> Option<MandatoryTag> {
    if !tags.contains_key(mandatory_name(MandatoryTag::Signature)) {
        Some(MandatoryTag::Signature)
    } else if !tags.contains_key(mandatory_name(MandatoryTag::BodyHash)) {
        Some(MandatoryTag::BodyHash)
    } else if !tags.contains_key(mandatory_name(MandatoryTag::Domain)) {
        Some(MandatoryTag::Domain)
    } else if !tags.contains_key(mandatory_name(MandatoryTag::Selector)) {
        Some(MandatoryTag::Selector)
    } else if !tags.contains_key(mandatory_name(MandatoryTag::SignedHeaders)) {
        Some(MandatoryTag::SignedHeaders)
    } else {
        None
    }
}

impl DkimSignatureTags {
    #[verifier::type_invariant]
    spec fn distinct_names(&self) -> bool {
        &&& self.names@.len() == self.values@.len()
        &&& forall|i: int, j: int|
            0 <= i < j < self.names@.len() ==> self.names@[i]@ != self.names@[j]@
    }

    spec fn holds(&self, name: Seq<u8>, i: int) -> bool {
        0 <= i < self.names@.len() && self.names@[i]@ == name
    }

    spec fn index_of(&self, name: Seq<u8>) -> int {
        choose|i: int| self.holds(name, i)
    }

    /// The mapping from tag names to values.
    pub closed spec fn view(&self) -> Map<Seq<u8>, Seq<u8>> {
        Map::new(
            |name: Seq<u8>| exists|i: int| self.holds(name, i),
            |name: Seq<u8>| self.values@[self.index_of(name)]@,
        )
    }

    /// A tag list without tags.
    pub fn new() -> (r: Self)
        ensures
            r@ == Map::<Seq<u8>, Seq<u8>>::empty(),
    {
        let r = DkimSignatureTags { names: Vec::new(), values: Vec::new() };
        assert(r@ =~= Map::<Seq<u8>, Seq<u8>>::empty());
        r
    }

    fn position(&self, name: &[u8]) -> (r: Option<usize>)
        ensures
            match r {
                Some(i) => self.holds(name@, i as int),
                None => forall|i: int| !self.holds(name@, i),
            },
    {
        let mut i: usize = 0;
        while i < self.names.len()
            invariant
                i <= self.names@.len(),
                forall|j: int| 0 <= j < i ==> self.names@[j]@ != name@,
            decreases self.names@.len() - i,
        {
            if crate::bytes::bytes_eq(self.names[i].as_slice(), name) {
                return Some(i);
            }
            i += 1;
        }
        None
    }

    /// The value of the tag `name`, if the list has that tag.
    pub fn get(&self, name: &[u8]) -> (r: Option<&Vec<u8>>)
        ensures
            match r {
                Some(v) => self@.contains_key(name@) && v@ == self@[name@],
                None => !self@.contains_key(name@),
            },
    {
        proof {
            use_type_invariant(self);
        }
        match self.position(name) {
            Some(i) => {
                assert(self.holds(name@, self.index_of(name@)));
                Some(&self.values[i])
            },
            None => None,
        }
    }

    /// Whether the list has the tag `name`.
    pub fn contains(&self, name: &[u8]) -> (r: bool)
        ensures
            r == self@.contains_key(name@),
    {
        self.get(name).is_some()
    }

    /// The list with the tag `name` set to `value`, in place of the value it had.
    pub fn with_tag(self, name: Vec<u8>, value: Vec<u8>) -> (r: Self)
        ensures
            r@ == self@.insert(name@, value@),
    {
        proof {
            use_type_invariant(&self);
        }
        let found = self.position(name.as_slice());
        let ghost before = self;
        let mut names = self.names;
        let mut values = self.values;
        match found {
            Some(i) => {
                values[i] = value;
                let r = DkimSignatureTags { names, values };
                assert(before.holds(name@, i as int));
                assert forall|k: Seq<u8>| r@.contains_key(k) == before@.insert(
                    name@,
                    value@,
                ).contains_key(k) by {
                    if r@.contains_key(k) {
                        let j = choose|j: int| r.holds(k, j);
                        assert(before.holds(k, j));
                    }
                    if before@.contains_key(k) {
                        let j = choose|j: int| before.holds(k, j);
                        assert(r.holds(k, j));
                    }
                }
                assert forall|k: Seq<u8>| #[trigger] r@.contains_key(k) implies r@[k]
                    == before@.insert(name@, value@)[k] by {
                    let j = r.index_of(k);
                    assert(r.holds(k, j));
                    assert(before.holds(k, j));
                    let j0 = before.index_of(k);
                    assert(before.holds(k, j0));
                    assert(j0 == j);
                    if k == name@ {
                        assert(j == i);
                    }
                }
                assert(r@ =~= before@.insert(name@, value@));
                r
            },
            None => {
                assert forall|j: int| 0 <= j < before.names@.len() implies before.names@[j]@
                    != name@ by {
                    assert(!before.holds(name@, j));
                }
                names.push(name);
                values.push(value);
                let r = DkimSignatureTags { names, values };
                assert forall|k: Seq<u8>| #[trigger]
                    before@.insert(name@, value@).contains_key(k) implies r@.contains_key(k)
                    && r@[k] == before@.insert(name@, value@)[k] by {
                    if k == name@ {
                        assert(r.holds(k, before.names@.len() as int));
                    } else {
                        let i = before.index_of(k);
                        assert(before.holds(k, i));
                        assert(r.holds(k, i));
                    }
                    let j = r.index_of(k);
                    assert(r.holds(k, j));
                    if j < before.names@.len() {
                        assert(before.holds(k, j));
                    }
                }
                assert forall|k: Seq<u8>| #[trigger] r@.contains_key(k) implies before@.insert(
                    name@,
                    value@,
                ).contains_key(k) by {
                    let j = r.index_of(k);
                    assert(r.holds(k, j));
                    if j < before.names@.len() {
                        assert(before.holds(k, j));
                    }
                }
                assert(r@ =~= before@.insert(name@, value@));
                r
            },
        }
    }
}

/// Reads a tag list. Nothing is asked of it: segments without `=` are passed
/// over, and a name that comes again replaces the earlier value.
pub fn parse_tag_list(raw: &[u8]) -> (r: DkimSignatureTags)
    ensures
        r@ == tag_map(raw@),
{
    let segments = split_bytes(raw, SEMICOLON);
    let mut tags = DkimSignatureTags::new();
    let mut i: usize = 0;
    assert(seqs_of(segments@).take(0) =~= Seq::<Seq<u8>>::empty());
    while i < segments.len()
        invariant
            i <= segments@.len(),
            seqs_of(segments@) == split(raw@, SEMICOLON),
            tags@ == tags_of(seqs_of(segments@).take(i as int)),
        decreases segments@.len() - i,
    {
        let segment = segments[i].as_slice();
        proof {
            assert(seqs_of(segments@).take(i + 1).drop_last() =~= seqs_of(segments@).take(
                i as int,
            ));
            assert(seqs_of(segments@).take(i + 1).last() == segment@);
            lemma_find_byte(segment@, EQUALS);
        }
        let eq = find_from(segment, EQUALS, 0);
        assert(segment@.skip(0) =~= segment@);
        if eq < segment.len() {
            let name_part = copy_range(segment, 0, eq);
            let value_part = copy_range(segment, eq + 1, segment.len());
            assert(name_part@ =~= segment@.take(eq as int));
            assert(value_part@ =~= segment@.skip(eq as int + 1));
            let name = trim_bytes(name_part.as_slice());
            let trimmed = trim_bytes(value_part.as_slice());
            proof {
                reveal_strlit("b");
                reveal_strlit("bh");
            }
            let value = if is_text(name.as_slice(), "b") || is_text(name.as_slice(), "bh") {
                strip_fws_bytes(trimmed.as_slice())
            } else {
                trimmed
            };
            tags = tags.with_tag(name, value);
        }
        i += 1;
    }
    assert(seqs_of(segments@).take(segments@.len() as int) =~= seqs_of(segments@));
    tags
}

/// The result that `parse_tags` owes for a raw tag list.
pub open spec fn parsed(raw: Seq<u8>, r: Result<DkimSignatureTags, MalformedSignature>) -> bool {
    match first_missing(tag_map(raw)) {
        Some(tag) => r == Err::<DkimSignatureTags, MalformedSignature>(
            MalformedSignature { missing: tag },
        ),
        None => r is Ok && r->Ok_0@ == tag_map(raw),
    }
}

/// Reads the tag list of a signature header field, given as bytes. It is
/// refused where a mandatory tag is missing, and only there.
pub fn parse_tags(raw: &[u8]) -> (r: Result<DkimSignatureTags, MalformedSignature>)
    ensures
        parsed(raw@, r),
{
    let tags = parse_tag_list(raw);
    proof {
        reveal_strlit("b");
        reveal_strlit("bh");
        reveal_strlit("d");
        reveal_strlit("s");
        reveal_strlit("h");
    }
    if !tags.contains(crate::bytes::text_bytes("b").as_slice()) {
        Err(MalformedSignature { missing: MandatoryTag::Signature })
    } else if !tags.contains(crate::bytes::text_bytes("bh").as_slice()) {
        Err(MalformedSignature { missing: MandatoryTag::BodyHash })
    } else if !tags.contains(crate::bytes::text_bytes("d").as_slice()) {
        Err(MalformedSignature { missing: MandatoryTag::Domain })
    } else if !tags.contains(crate::bytes::text_bytes("s").as_slice()) {
        Err(MalformedSignature { missing: MandatoryTag::Selector })
    } else if !tags.contains(crate::bytes::text_bytes("h").as_slice()) {
        Err(MalformedSignature { missing: MandatoryTag::SignedHeaders })
    } else {
        Ok(tags)
    }
}

/// Reads the tag list of a signature header field. It is refused where a
/// mandatory tag is missing, and only there.
pub fn parse_dkim_signature(dkim_signature: &str) -> (r: Result<
    DkimSignatureTags,
    MalformedSignature,
>)
    ensures
        parsed(dkim_signature.spec_bytes(), r),
{
    parse_tags(dkim_signature.as_bytes())
}

} // verus!
