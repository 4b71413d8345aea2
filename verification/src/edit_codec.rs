//! The compact, tag-prefixed serialization of element edit operations: one
//! discriminant byte, then the fixed numeric fields of the variant.
//!
//! Decoding dispatches on the tag and fails on an unrecognized one.
//! [`lemma_transform_round_trip`] proves that decoding a serialized value
//! yields the value it came from, whatever follows it in the stream.

use vstd::prelude::*;
use crate::data_codec::{
    DataSource, lemma_parse_i64_agrees, lemma_parse_i64_round_trip, spec_i64_bytes, spec_parse_i64,
    write_byte, write_i64,
};

verus! {

/// How an element is aligned relative to an anchor.
#[derive(Clone, Copy, PartialEq, Eq, Debug)]
pub enum ElementAlign {
    Left,
    Center,
    Right,
    Top,
    Middle,
    Bottom,
}

/// A transformation applied to an element, with coordinates in integer
/// canvas units.
#[derive(Clone, Copy, PartialEq, Eq, Debug)]
pub enum ElementTransform {
    /// Sets the anchor point for future transformations.
    SetAnchor(i64, i64),
    /// Moves the element so its anchor lands on the given point.
    MoveTo(i64, i64),
    /// Aligns the element relative to the anchor.
    Align(ElementAlign),
}

/// The serialized form of an alignment: its one tag byte.
pub open spec fn spec_serialize_align(a: ElementAlign) -> Seq<u8> {
    match a {
        ElementAlign::Left => seq![108u8],
        ElementAlign::Center => seq![99u8],
        ElementAlign::Right => seq![114u8],
        ElementAlign::Top => seq![116u8],
        ElementAlign::Middle => seq![109u8],
        ElementAlign::Bottom => seq![98u8],
    }
}

/// What decoding an alignment from the front of a byte sequence yields.
pub open spec fn spec_parse_align(s: Seq<u8>) -> Option<(ElementAlign, Seq<u8>)> {
    if s.len() == 0 {
        None
    } else {
        let rest = s.drop_first();
        if s[0] == 108u8 {
            Some((ElementAlign::Left, rest))
        } else if s[0] == 99u8 {
            Some((ElementAlign::Center, rest))
        } else if s[0] == 114u8 {
            Some((ElementAlign::Right, rest))
        } else if s[0] == 116u8 {
            Some((ElementAlign::Top, rest))
        } else if s[0] == 109u8 {
            Some((ElementAlign::Middle, rest))
        } else if s[0] == 98u8 {
            Some((ElementAlign::Bottom, rest))
        } else {
            None
        }
    }
}

/// The serialized form of a transformation: tag byte, then fields.
pub open spec fn spec_serialize_transform(t: ElementTransform) -> Seq<u8> {
    match t {
        ElementTransform::SetAnchor(x, y) => seq![65u8] + spec_i64_bytes(x) + spec_i64_bytes(y),
        ElementTransform::MoveTo(x, y) => seq![109u8] + spec_i64_bytes(x) + spec_i64_bytes(y),
        ElementTransform::Align(a) => seq![97u8] + spec_serialize_align(a),
    }
}

/// What decoding a transformation from the front of a byte sequence
/// yields: the value and the rest, or nothing on a malformed stream.
pub open spec fn spec_parse_transform(s: Seq<u8>) -> Option<(ElementTransform, Seq<u8>)> {
    if s.len() == 0 {
        None
    } else {
        let rest = s.drop_first();
        if s[0] == 65u8 {
            match spec_parse_i64(rest) {
                Some((x, r1)) => match spec_parse_i64(r1) {
                    Some((y, r2)) => Some((ElementTransform::SetAnchor(x, y), r2)),
                    None => None,
                },
                None => None,
            }
        } else if s[0] == 109u8 {
            match spec_parse_i64(rest) {
                Some((x, r1)) => match spec_parse_i64(r1) {
                    Some((y, r2)) => Some((ElementTransform::MoveTo(x, y), r2)),
                    None => None,
                },
                None => None,
            }
        } else if s[0] == 97u8 {
            match spec_parse_align(rest) {
                Some((a, r1)) => Some((ElementTransform::Align(a), r1)),
                None => None,
            }
        } else {
            None
        }
    }
}

impl ElementAlign {
    /// Writes the serialized form of this alignment onto the data target.
    pub fn serialize(&self, data: &mut Vec<u8>)
        ensures
            final(data)@ == old(data)@ + spec_serialize_align(*self),
    {
        match self {
            ElementAlign::Left => write_byte(data, 108),
            ElementAlign::Center => write_byte(data, 99),
            ElementAlign::Right => write_byte(data, 114),
            ElementAlign::Top => write_byte(data, 116),
            ElementAlign::Middle => write_byte(data, 109),
            ElementAlign::Bottom => write_byte(data, 98),
        }
    }

    /// Reads an alignment from the data source, failing on an unrecognized
    /// tag or an exhausted stream.
    pub fn deserialize(data: &mut DataSource) -> (r: Option<ElementAlign>)
        requires
            old(data).wf(),
        ensures
            final(data).wf(),
            match spec_parse_align(old(data).remaining()) {
                Some((a, rest)) => r == Some(a) && final(data).remaining() == rest,
                None => r is None,
            },
    {
        match data.next_byte() {
            Some(tag) => {
                if tag == 108 {
                    Some(ElementAlign::Left)
                } else if tag == 99 {
                    Some(ElementAlign::Center)
                } else if tag == 114 {
                    Some(ElementAlign::Right)
                } else if tag == 116 {
                    Some(ElementAlign::Top)
                } else if tag == 109 {
                    Some(ElementAlign::Middle)
                } else if tag == 98 {
                    Some(ElementAlign::Bottom)
                } else {
                    None
                }
            },
            None => None,
        }
    }
}

impl ElementTransform {
    /// Writes the serialized form of this transformation onto the data
    /// target: the variant's tag byte followed by its fields.
    pub fn serialize(&self, data: &mut Vec<u8>)
        ensures
            final(data)@ == old(data)@ + spec_serialize_transform(*self),
    {
        match self {
            ElementTransform::SetAnchor(x, y) => {
                write_byte(data, 65);
                write_i64(data, *x);
                write_i64(data, *y);
                proof {
                    assert(data@ =~= old(data)@ + spec_serialize_transform(*self));
                }
            },
            ElementTransform::MoveTo(x, y) => {
                write_byte(data, 109);
                write_i64(data, *x);
                write_i64(data, *y);
                proof {
                    assert(data@ =~= old(data)@ + spec_serialize_transform(*self));
                }
            },
            ElementTransform::Align(a) => {
                write_byte(data, 97);
                a.serialize(data);
                proof {
                    assert(data@ =~= old(data)@ + spec_serialize_transform(*self));
                }
            },
        }
    }

    /// Reads a transformation from the data source, dispatching on the tag
    /// byte and failing on an unrecognized one.
    pub fn deserialize(data: &mut DataSource) -> (r: Option<ElementTransform>)
        requires
            old(data).wf(),
        ensures
            final(data).wf(),
            match spec_parse_transform(old(data).remaining()) {
                Some((t, rest)) => r == Some(t) && final(data).remaining() == rest,
                None => r is None,
            },
    {
        let ghost s0 = data.remaining();
        match data.next_byte() {
            Some(tag) => {
                let ghost rest = s0.drop_first();
                if tag == 65 {
                    match data.next_i64() {
                        Some(x) => {
                            proof {
                                lemma_parse_i64_agrees(x, rest);
                            }
                            let ghost r1 = rest.skip(8);
                            match data.next_i64() {
                                Some(y) => {
                                    proof {
                                        lemma_parse_i64_agrees(y, r1);
                                    }
                                    Some(ElementTransform::SetAnchor(x, y))
                                },
                                None => None,
                            }
                        },
                        None => None,
                    }
                } else if tag == 109 {
                    match data.next_i64() {
                        Some(x) => {
                            proof {
                                lemma_parse_i64_agrees(x, rest);
                            }
                            let ghost r1 = rest.skip(8);
                            match data.next_i64() {
                                Some(y) => {
                                    proof {
                                        lemma_parse_i64_agrees(y, r1);
                                    }
                                    Some(ElementTransform::MoveTo(x, y))
                                },
                                None => None,
                            }
                        },
                        None => None,
                    }
                } else if tag == 97 {
                    match ElementAlign::deserialize(data) {
                        Some(a) => Some(ElementTransform::Align(a)),
                        None => None,
                    }
                } else {
                    None
                }
            },
            None => None,
        }
    }
}

/// Decoding an alignment's serialized form, whatever follows it, yields
/// the alignment back with the rest untouched.
pub proof fn lemma_align_round_trip(a: ElementAlign, rest: Seq<u8>)
    ensures
        spec_parse_align(spec_serialize_align(a) + rest) == Some((a, rest)),
{
    let s = spec_serialize_align(a) + rest;
    assert(s.drop_first() =~= rest);
}

/// Round trip for edit serialization: decoding a serialized
/// transformation, whatever follows it, yields the transformation back
/// with the rest untouched.
pub proof fn lemma_transform_round_trip(t: ElementTransform, rest: Seq<u8>)
    ensures
        spec_parse_transform(spec_serialize_transform(t) + rest) == Some((t, rest)),
{
    let s = spec_serialize_transform(t) + rest;
    match t {
        ElementTransform::SetAnchor(x, y) => {
            assert(s.drop_first() =~= spec_i64_bytes(x) + (spec_i64_bytes(y) + rest));
            lemma_parse_i64_round_trip(x, spec_i64_bytes(y) + rest);
            lemma_parse_i64_round_trip(y, rest);
        },
        ElementTransform::MoveTo(x, y) => {
            assert(s.drop_first() =~= spec_i64_bytes(x) + (spec_i64_bytes(y) + rest));
            lemma_parse_i64_round_trip(x, spec_i64_bytes(y) + rest);
            lemma_parse_i64_round_trip(y, rest);
        },
        ElementTransform::Align(a) => {
            assert(s.drop_first() =~= spec_serialize_align(a) + rest);
            lemma_align_round_trip(a, rest);
        },
    }
}

} // verus!
