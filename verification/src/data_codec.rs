//! The byte stream that the serializers write to and read from: numeric
//! fields are fixed-width little-endian, tags are single bytes.

use vstd::prelude::*;
use vstd::bytes::{spec_u64_from_le_bytes, spec_u64_to_le_bytes, u64_from_le_bytes, u64_to_le_bytes};

verus! {

/// The serialized form of an unsigned 64-bit field.
pub open spec fn spec_u64_bytes(x: u64) -> Seq<u8> {
    spec_u64_to_le_bytes(x)
}

/// The serialized form of a signed 64-bit field: its two's-complement bits.
pub open spec fn spec_i64_bytes(x: i64) -> Seq<u8> {
    spec_u64_to_le_bytes(x as u64)
}

/// Appends one tag byte.
pub fn write_byte(out: &mut Vec<u8>, tag: u8)
    ensures
        final(out)@ == old(out)@ + seq![tag],
{
    out.push(tag);
    proof {
        assert(out@ =~= old(out)@ + seq![tag]);
    }
}

/// Appends an unsigned 64-bit field in its fixed eight-byte form.
pub fn write_u64(out: &mut Vec<u8>, x: u64)
    ensures
        final(out)@ == old(out)@ + spec_u64_bytes(x),
{
    let mut bytes = u64_to_le_bytes(x);
    out.append(&mut bytes);
}

/// Appends a signed 64-bit field in its fixed eight-byte form.
pub fn write_i64(out: &mut Vec<u8>, x: i64)
    ensures
        final(out)@ == old(out)@ + spec_i64_bytes(x),
{
    #[verifier::truncate]
    let bits = x as u64;
    write_u64(out, bits);
}

/// Appends a count field.
pub fn write_usize(out: &mut Vec<u8>, x: usize)
    ensures
        final(out)@ == old(out)@ + spec_u64_bytes(x as u64),
{
    write_u64(out, x as u64);
}

/// A byte stream being decoded: the bytes and the read position.
pub struct DataSource {
    data: Vec<u8>,
    pos: usize,
}

impl DataSource {
    /// The bytes not yet consumed.
    pub closed spec fn remaining(&self) -> Seq<u8> {
        self.data@.skip(self.pos as int)
    }

    /// The read position never passes the end.
    pub closed spec fn wf(&self) -> bool {
        self.pos <= self.data@.len()
    }

    /// Starts decoding at the beginning of the given bytes.
    pub fn new(data: Vec<u8>) -> (src: DataSource)
        ensures
            src.wf(),
            src.remaining() == data@,
    {
        let src = DataSource { data, pos: 0 };
        proof {
            assert(src.remaining() =~= src.data@);
        }
        src
    }

    /// Reads one tag byte, or fails at the end of the stream.
    pub fn next_byte(&mut self) -> (r: Option<u8>)
        requires
            old(self).wf(),
        ensures
            final(self).wf(),
            old(self).remaining().len() == 0 ==> r is None && *final(self) == *old(self),
            old(self).remaining().len() > 0 ==> r == Some(old(self).remaining()[0])
                && final(self).remaining() == old(self).remaining().drop_first(),
    {
        if self.pos < self.data.len() {
            let b = self.data[self.pos];
            self.pos = self.pos + 1;
            proof {
                assert(self.remaining() =~= old(self).remaining().drop_first());
            }
            Some(b)
        } else {
            None
        }
    }

    /// Reads an unsigned 64-bit field, or fails when fewer than eight bytes
    /// remain.
    pub fn next_u64(&mut self) -> (r: Option<u64>)
        requires
            old(self).wf(),
        ensures
            final(self).wf(),
            old(self).remaining().len() < 8 ==> r is None && *final(self) == *old(self),
            old(self).remaining().len() >= 8 ==> r == Some(
                spec_u64_from_le_bytes(old(self).remaining().take(8)),
            ) && final(self).remaining() == old(self).remaining().skip(8),
    {
        let avail = self.data.len() - self.pos;
        if avail >= 8 {
            let ghost pos0 = self.pos as int;
            let ghost view0 = self.data@;
            proof {
                assert(self.data.len() == view0.len());
            }
            let mut field: Vec<u8> = Vec::new();
            let mut i: usize = 0;
            while i < 8
                invariant
                    i <= 8,
                    self.pos == pos0,
                    self.data@ == view0,
                    pos0 + 8 <= view0.len(),
                    view0.len() <= usize::MAX,
                    field@ == view0.subrange(pos0, pos0 + i),
                decreases 8 - i,
            {
                field.push(self.data[self.pos + i]);
                proof {
                    assert(field@ =~= view0.subrange(pos0, pos0 + i + 1));
                }
                i = i + 1;
            }
            proof {
                assert(field@ =~= old(self).remaining().take(8));
            }
            let x = u64_from_le_bytes(field.as_slice());
            self.pos = self.pos + 8;
            proof {
                assert(self.remaining() =~= old(self).remaining().skip(8));
            }
            Some(x)
        } else {
            None
        }
    }

    /// Reads a signed 64-bit field, or fails when fewer than eight bytes
    /// remain.
    pub fn next_i64(&mut self) -> (r: Option<i64>)
        requires
            old(self).wf(),
        ensures
            final(self).wf(),
            old(self).remaining().len() < 8 ==> r is None && *final(self) == *old(self),
            old(self).remaining().len() >= 8 ==> (r matches Some(x) && spec_i64_bytes(x) == old(
                self,
            ).remaining().take(8)) && final(self).remaining() == old(self).remaining().skip(8),
    {
        let ghost pre = self.remaining();
        match self.next_u64() {
            Some(bits) => {
                #[verifier::truncate]
                let x = bits as i64;
                proof {
                    assert((bits as i64) as u64 == bits) by (bit_vector);
                    vstd::bytes::lemma_auto_spec_u64_to_from_le_bytes();
                    assert(spec_u64_to_le_bytes(spec_u64_from_le_bytes(pre.take(8))) == pre.take(8));
                }
                Some(x)
            },
            None => None,
        }
    }
}

/// What reading an unsigned 64-bit field from the front of a byte
/// sequence yields: the value and the rest, or nothing when fewer than
/// eight bytes remain.
pub open spec fn spec_parse_u64(s: Seq<u8>) -> Option<(u64, Seq<u8>)> {
    if s.len() < 8 {
        None
    } else {
        Some((spec_u64_from_le_bytes(s.take(8)), s.skip(8)))
    }
}

/// What reading a signed 64-bit field from the front of a byte sequence
/// yields.
pub open spec fn spec_parse_i64(s: Seq<u8>) -> Option<(i64, Seq<u8>)> {
    if s.len() < 8 {
        None
    } else {
        Some((spec_u64_from_le_bytes(s.take(8)) as i64, s.skip(8)))
    }
}

/// Parsing an unsigned field from its own serialized form followed by
/// anything yields the value back, with the rest untouched.
pub proof fn lemma_parse_u64_round_trip(x: u64, rest: Seq<u8>)
    ensures
        spec_parse_u64(spec_u64_bytes(x) + rest) == Some((x, rest)),
{
    vstd::bytes::lemma_auto_spec_u64_to_from_le_bytes();
    let s = spec_u64_bytes(x) + rest;
    assert(s.take(8) =~= spec_u64_bytes(x));
    assert(s.skip(8) =~= rest);
}

/// Parsing a signed field from its own serialized form followed by
/// anything yields the value back, with the rest untouched.
pub proof fn lemma_parse_i64_round_trip(x: i64, rest: Seq<u8>)
    ensures
        spec_parse_i64(spec_i64_bytes(x) + rest) == Some((x, rest)),
{
    vstd::bytes::lemma_auto_spec_u64_to_from_le_bytes();
    let s = spec_i64_bytes(x) + rest;
    assert(s.take(8) =~= spec_i64_bytes(x));
    assert(s.skip(8) =~= rest);
    assert((x as u64) as i64 == x) by (bit_vector);
}

/// A signed field whose serialized bytes open a sequence parses to exactly
/// that value.
pub proof fn lemma_parse_i64_agrees(x: i64, s: Seq<u8>)
    requires
        s.len() >= 8,
        spec_i64_bytes(x) == s.take(8),
    ensures
        spec_parse_i64(s) == Some((x, s.skip(8))),
{
    vstd::bytes::lemma_auto_spec_u64_to_from_le_bytes();
    assert(spec_u64_from_le_bytes(spec_u64_to_le_bytes(x as u64)) == x as u64);
    assert((x as u64) as i64 == x) by (bit_vector);
}



} // verus!
