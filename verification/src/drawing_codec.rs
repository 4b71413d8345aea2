//! The canonical byte encoding of a drawing-instruction list, the payload
//! the layer rendering cache stores and retrieves: a count, then one tagged
//! instruction after another.
//!
//! Decoding fails on an unrecognized tag or a truncated stream;
//! [`lemma_drawing_round_trip`] proves that decoding an encoded list yields
//! the list back.

use vstd::prelude::*;
use crate::data_codec::{
    DataSource, lemma_parse_i64_agrees, lemma_parse_i64_round_trip, lemma_parse_u64_round_trip,
    spec_i64_bytes, spec_parse_i64, spec_parse_u64, spec_u64_bytes, write_byte, write_i64,
    write_usize,
};

verus! {

/// One drawing instruction of a cached rendering, with coordinates in
/// integer canvas units.
#[derive(Clone, Copy, PartialEq, Eq, Debug)]
pub enum DrawingCommand {
    /// Begins a new path.
    NewPath,
    /// Moves the pen to the given point.
    Move(i64, i64),
    /// Draws a line to the given point.
    Line(i64, i64),
    /// Closes the current path.
    ClosePath,
    /// Strokes the current path.
    Stroke,
    /// Fills the current path.
    Fill,
}

/// The serialized form of one drawing instruction: tag byte, then fields.
pub open spec fn spec_serialize_drawing_command(c: DrawingCommand) -> Seq<u8> {
    match c {
        DrawingCommand::NewPath => seq![78u8],
        DrawingCommand::Move(x, y) => seq![109u8] + spec_i64_bytes(x) + spec_i64_bytes(y),
        DrawingCommand::Line(x, y) => seq![108u8] + spec_i64_bytes(x) + spec_i64_bytes(y),
        DrawingCommand::ClosePath => seq![46u8],
        DrawingCommand::Stroke => seq![83u8],
        DrawingCommand::Fill => seq![70u8],
    }
}

/// The serialized form of an instruction list, without its count.
pub open spec fn spec_serialize_drawing_body(cmds: Seq<DrawingCommand>) -> Seq<u8>
    decreases cmds.len(),
{
    if cmds.len() == 0 {
        Seq::empty()
    } else {
        spec_serialize_drawing_command(cmds[0]) + spec_serialize_drawing_body(cmds.drop_first())
    }
}

/// The canonical encoding of an instruction list: the count, then the
/// instructions.
pub open spec fn spec_serialize_drawing(cmds: Seq<DrawingCommand>) -> Seq<u8> {
    spec_u64_bytes(cmds.len() as u64) + spec_serialize_drawing_body(cmds)
}

/// What decoding one instruction from the front of a byte sequence yields.
pub open spec fn spec_parse_drawing_command(s: Seq<u8>) -> Option<(DrawingCommand, Seq<u8>)> {
    if s.len() == 0 {
        None
    } else {
        let rest = s.drop_first();
        if s[0] == 78u8 {
            Some((DrawingCommand::NewPath, rest))
        } else if s[0] == 109u8 || s[0] == 108u8 {
            match spec_parse_i64(rest) {
                Some((x, r1)) => match spec_parse_i64(r1) {
                    Some((y, r2)) => if s[0] == 109u8 {
                        Some((DrawingCommand::Move(x, y), r2))
                    } else {
                        Some((DrawingCommand::Line(x, y), r2))
                    },
                    None => None,
                },
                None => None,
            }
        } else if s[0] == 46u8 {
            Some((DrawingCommand::ClosePath, rest))
        } else if s[0] == 83u8 {
            Some((DrawingCommand::Stroke, rest))
        } else if s[0] == 70u8 {
            Some((DrawingCommand::Fill, rest))
        } else {
            None
        }
    }
}

/// What decoding a run of `n` instructions yields.
pub open spec fn spec_parse_drawing_body(s: Seq<u8>, n: nat) -> Option<
    (Seq<DrawingCommand>, Seq<u8>),
>
    decreases n,
{
    if n == 0 {
        Some((Seq::empty(), s))
    } else {
        match spec_parse_drawing_command(s) {
            Some((c, r1)) => match spec_parse_drawing_body(r1, (n - 1) as nat) {
                Some((cs, r2)) => Some((seq![c] + cs, r2)),
                None => None,
            },
            None => None,
        }
    }
}

/// What decoding a whole encoded instruction list yields.
pub open spec fn spec_parse_drawing(s: Seq<u8>) -> Option<(Seq<DrawingCommand>, Seq<u8>)> {
    match spec_parse_u64(s) {
        Some((n, r)) => if n <= usize::MAX {
            spec_parse_drawing_body(r, n as nat)
        } else {
            None
        },
        None => None,
    }
}

impl DrawingCommand {
    /// Writes the serialized form of this instruction onto the data target.
    pub fn serialize(&self, data: &mut Vec<u8>)
        ensures
            final(data)@ == old(data)@ + spec_serialize_drawing_command(*self),
    {
        match self {
            DrawingCommand::NewPath => write_byte(data, 78),
            DrawingCommand::Move(x, y) => {
                write_byte(data, 109);
                write_i64(data, *x);
                write_i64(data, *y);
                proof {
                    assert(data@ =~= old(data)@ + spec_serialize_drawing_command(*self));
                }
            },
            DrawingCommand::Line(x, y) => {
                write_byte(data, 108);
                write_i64(data, *x);
                write_i64(data, *y);
                proof {
                    assert(data@ =~= old(data)@ + spec_serialize_drawing_command(*self));
                }
            },
            DrawingCommand::ClosePath => write_byte(data, 46),
            DrawingCommand::Stroke => write_byte(data, 83),
            DrawingCommand::Fill => write_byte(data, 70),
        }
    }

    /// Reads one instruction from the data source, failing on an
    /// unrecognized tag or an exhausted stream.
    pub fn deserialize(data: &mut DataSource) -> (r: Option<DrawingCommand>)
        requires
            old(data).wf(),
        ensures
            final(data).wf(),
            match spec_parse_drawing_command(old(data).remaining()) {
                Some((c, rest)) => r == Some(c) && final(data).remaining() == rest,
                None => r is None,
            },
    {
        let ghost s0 = data.remaining();
        match data.next_byte() {
            Some(tag) => {
                let ghost rest = s0.drop_first();
                if tag == 78 {
                    Some(DrawingCommand::NewPath)
                } else if tag == 109 || tag == 108 {
                    match data.next_i64() {
                        Some(x) => {
                            proof {
                                lemma_parse_i64_agrees(x, rest);
                            }
                            let ghost r1 = rest.skip(8);
                            match data.next_i64() {
                                Some(y) => {
                                    proof {
                                        lemma_parse_i64_agrees(y, r1);
                                    }
                                    if tag == 109 {
                                        Some(DrawingCommand::Move(x, y))
                                    } else {
                                        Some(DrawingCommand::Line(x, y))
                                    }
                                },
                                None => None,
                            }
                        },
                        None => None,
                    }
                } else if tag == 46 {
                    Some(DrawingCommand::ClosePath)
                } else if tag == 83 {
                    Some(DrawingCommand::Stroke)
                } else if tag == 70 {
                    Some(DrawingCommand::Fill)
                } else {
                    None
                }
            },
            None => None,
        }
    }
}

/// Encodes a drawing-instruction list into its canonical byte form.
pub fn encode_drawing(cmds: &Vec<DrawingCommand>) -> (out: Vec<u8>)
    ensures
        out@ == spec_serialize_drawing(cmds@),
{
    let ghost cs = cmds@;
    let mut out: Vec<u8> = Vec::new();
    write_usize(&mut out, cmds.len());
    let mut i: usize = 0;
    proof {
        assert(cs.skip(0) =~= cs);
        assert(Seq::<u8>::empty() + spec_u64_bytes(cs.len() as u64) =~= spec_u64_bytes(
            cs.len() as u64,
        ));
    }
    while i < cmds.len()
        invariant
            i <= cmds.len(),
            cs == cmds@,
            cs.len() == cmds.len(),
            out@ + spec_serialize_drawing_body(cs.skip(i as int)) == spec_serialize_drawing(cs),
        decreases cmds.len() - i,
    {
        proof {
            assert(cs.skip(i as int)[0] == cs[i as int]);
            assert(cs.skip(i as int).drop_first() =~= cs.skip(i + 1));
        }
        let ghost pre = out@;
        cmds[i].serialize(&mut out);
        proof {
            assert(spec_serialize_drawing_body(cs.skip(i as int)) == spec_serialize_drawing_command(
                cs[i as int],
            ) + spec_serialize_drawing_body(cs.skip(i + 1)));
            assert(out@ + spec_serialize_drawing_body(cs.skip(i + 1)) =~= pre
                + spec_serialize_drawing_body(cs.skip(i as int)));
        }
        i = i + 1;
    }
    proof {
        assert(spec_serialize_drawing_body(cs.skip(cs.len() as int)).len() == 0);
        assert(out@ + spec_serialize_drawing_body(cs.skip(cs.len() as int)) =~= out@);
    }
    out
}

/// Decodes a drawing-instruction list from its canonical byte form,
/// failing on a malformed stream.
pub fn decode_drawing(bytes: Vec<u8>) -> (r: Option<Vec<DrawingCommand>>)
    ensures
        match spec_parse_drawing(bytes@) {
            Some((cs, rest)) => r matches Some(cmds) && cmds@ == cs,
            None => r is None,
        },
{
    let mut data = DataSource::new(bytes);
    let count64 = match data.next_u64() {
        Some(c) => c,
        None => {
            return None;
        },
    };
    if count64 > usize::MAX as u64 {
        return None;
    }
    let n = count64 as usize;
    let ghost r0 = data.remaining();
    let ghost orig = bytes@;
    let mut cmds: Vec<DrawingCommand> = Vec::new();
    let mut i: usize = 0;
    proof {
        assert(cmds@ + Seq::<DrawingCommand>::empty() =~= cmds@);
    }
    while i < n
        invariant
            i <= n,
            data.wf(),
            orig == bytes@,
            spec_parse_drawing(orig) == spec_parse_drawing_body(r0, n as nat),
            cmds@.len() == i,
            match spec_parse_drawing_body(data.remaining(), (n - i) as nat) {
                Some((cs, rest)) => spec_parse_drawing_body(r0, n as nat) == Some(
                    (cmds@ + cs, rest),
                ),
                None => spec_parse_drawing_body(r0, n as nat) is None,
            },
        decreases n - i,
    {
        let ghost s_here = data.remaining();
        let c = match DrawingCommand::deserialize(&mut data) {
            Some(c) => c,
            None => {
                return None;
            },
        };
        proof {
            let inner = spec_parse_drawing_body(data.remaining(), (n - i - 1) as nat);
            if inner is Some {
                let (cs2, rest2) = inner.unwrap();
                assert(cmds@ + (seq![c] + cs2) =~= cmds@.push(c) + cs2);
            }
        }
        cmds.push(c);
        i = i + 1;
    }
    proof {
        assert(spec_parse_drawing_body(data.remaining(), 0) == Some(
            (Seq::<DrawingCommand>::empty(), data.remaining()),
        ));
        assert(cmds@ + Seq::<DrawingCommand>::empty() =~= cmds@);
    }
    Some(cmds)
}

/// Decoding one serialized instruction, whatever follows it, yields the
/// instruction back with the rest untouched.
proof fn lemma_drawing_command_round_trip(c: DrawingCommand, rest: Seq<u8>)
    ensures
        spec_parse_drawing_command(spec_serialize_drawing_command(c) + rest) == Some((c, rest)),
{
    let s = spec_serialize_drawing_command(c) + rest;
    match c {
        DrawingCommand::Move(x, y) => {
            assert(s.drop_first() =~= spec_i64_bytes(x) + (spec_i64_bytes(y) + rest));
            lemma_parse_i64_round_trip(x, spec_i64_bytes(y) + rest);
            lemma_parse_i64_round_trip(y, rest);
        },
        DrawingCommand::Line(x, y) => {
            assert(s.drop_first() =~= spec_i64_bytes(x) + (spec_i64_bytes(y) + rest));
            lemma_parse_i64_round_trip(x, spec_i64_bytes(y) + rest);
            lemma_parse_i64_round_trip(y, rest);
        },
        _ => {
            assert(s.drop_first() =~= rest);
        },
    }
}

/// Decoding a serialized run of instructions yields the run back.
proof fn lemma_drawing_body_round_trip(cmds: Seq<DrawingCommand>, rest: Seq<u8>)
    ensures
        spec_parse_drawing_body(spec_serialize_drawing_body(cmds) + rest, cmds.len()) == Some(
            (cmds, rest),
        ),
    decreases cmds.len(),
{
    if cmds.len() == 0 {
        assert(spec_serialize_drawing_body(cmds) + rest =~= rest);
    } else {
        let c = cmds[0];
        let tail = cmds.drop_first();
        assert(spec_serialize_drawing_body(cmds) + rest =~= spec_serialize_drawing_command(c) + (
        spec_serialize_drawing_body(tail) + rest));
        lemma_drawing_command_round_trip(c, spec_serialize_drawing_body(tail) + rest);
        lemma_drawing_body_round_trip(tail, rest);
        assert(seq![c] + tail =~= cmds);
    }
}

/// Round trip for cache payload encoding: decoding an encoded
/// drawing-instruction list yields the list back.
pub proof fn lemma_drawing_round_trip(cmds: Seq<DrawingCommand>, rest: Seq<u8>)
    requires
        cmds.len() <= usize::MAX,
    ensures
        spec_parse_drawing(spec_serialize_drawing(cmds) + rest) == Some((cmds, rest)),
{
    let n64 = cmds.len() as u64;
    let body = spec_serialize_drawing_body(cmds);
    assert(spec_serialize_drawing(cmds) + rest =~= spec_u64_bytes(n64) + (body + rest));
    lemma_parse_u64_round_trip(n64, body + rest);
    lemma_drawing_body_round_trip(cmds, rest);
}

} // verus!
