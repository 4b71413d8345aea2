//! The compact serialization of parametric time curves: a count, then each
//! point encoded relative to the previous one (delta encoding), starting
//! from the implicit origin point.
//!
//! Deltas use wrapping arithmetic, so decoding reconstructs every absolute
//! value exactly; [`lemma_time_curve_round_trip`] proves the round trip.

use vstd::prelude::*;
use vstd::wrapping::i64_specs;
use crate::data_codec::{
    DataSource, lemma_parse_i64_agrees, lemma_parse_i64_round_trip, lemma_parse_u64_round_trip,
    spec_i64_bytes, spec_parse_i64, spec_parse_u64, spec_u64_bytes, write_i64, write_usize,
};

verus! {

/// One point of a time curve: canvas position and the time offset in
/// milliseconds, all in integer units.
#[derive(Clone, Copy, PartialEq, Eq, Structural, Debug)]
pub struct TimePoint {
    pub x: i64,
    pub y: i64,
    pub millis: i64,
}

/// A parametric time curve: its points in order.
#[derive(Clone, PartialEq, Debug)]
pub struct TimeCurve {
    pub points: Vec<TimePoint>,
}

/// The implicit origin that delta encoding starts from.
pub open spec fn origin_point() -> TimePoint {
    TimePoint { x: 0, y: 0, millis: 0 }
}

/// The serialized form of one point relative to the previous one: three
/// wrapping differences.
pub open spec fn spec_delta(prev: TimePoint, p: TimePoint) -> Seq<u8> {
    spec_i64_bytes(i64_specs::wrapping_sub(p.x, prev.x)) + spec_i64_bytes(
        i64_specs::wrapping_sub(p.y, prev.y),
    ) + spec_i64_bytes(i64_specs::wrapping_sub(p.millis, prev.millis))
}

/// The serialized form of a point sequence, chained from the given
/// previous point.
pub open spec fn spec_serialize_points(points: Seq<TimePoint>, prev: TimePoint) -> Seq<u8>
    decreases points.len(),
{
    if points.len() == 0 {
        Seq::empty()
    } else {
        spec_delta(prev, points[0]) + spec_serialize_points(points.drop_first(), points[0])
    }
}

/// The serialized form of a whole curve: the count, then the points.
pub open spec fn spec_serialize_curve(points: Seq<TimePoint>) -> Seq<u8> {
    spec_u64_bytes(points.len() as u64) + spec_serialize_points(points, origin_point())
}

/// What decoding one point relative to the previous one yields.
pub open spec fn spec_parse_point(s: Seq<u8>, prev: TimePoint) -> Option<(TimePoint, Seq<u8>)> {
    match spec_parse_i64(s) {
        Some((dx, r1)) => match spec_parse_i64(r1) {
            Some((dy, r2)) => match spec_parse_i64(r2) {
                Some((dm, r3)) => Some(
                    (
                        TimePoint {
                            x: i64_specs::wrapping_add(prev.x, dx),
                            y: i64_specs::wrapping_add(prev.y, dy),
                            millis: i64_specs::wrapping_add(prev.millis, dm),
                        },
                        r3,
                    ),
                ),
                None => None,
            },
            None => None,
        },
        None => None,
    }
}

/// What decoding a run of `n` chained points yields.
pub open spec fn spec_parse_points(s: Seq<u8>, n: nat, prev: TimePoint) -> Option<
    (Seq<TimePoint>, Seq<u8>),
>
    decreases n,
{
    if n == 0 {
        Some((Seq::empty(), s))
    } else {
        match spec_parse_point(s, prev) {
            Some((p, r1)) => match spec_parse_points(r1, (n - 1) as nat, p) {
                Some((ps, r2)) => Some((seq![p] + ps, r2)),
                None => None,
            },
            None => None,
        }
    }
}

/// What decoding a whole curve yields: the count, then that many points,
/// failing on a malformed or truncated stream.
pub open spec fn spec_parse_curve(s: Seq<u8>) -> Option<(Seq<TimePoint>, Seq<u8>)> {
    match spec_parse_u64(s) {
        Some((n, r)) => if n <= usize::MAX {
            spec_parse_points(r, n as nat, origin_point())
        } else {
            None
        },
        None => None,
    }
}

impl TimePoint {
    /// Creates a point from its coordinates and time offset.
    pub fn new(x: i64, y: i64, millis: i64) -> (p: TimePoint)
        ensures
            p == (TimePoint { x, y, millis }),
    {
        TimePoint { x, y, millis }
    }

    /// Writes this point relative to the previous one and hands it back as
    /// the previous point for the next write.
    pub fn serialize_next(&self, last: &TimePoint, data: &mut Vec<u8>) -> (r: TimePoint)
        ensures
            final(data)@ == old(data)@ + spec_delta(*last, *self),
            r == *self,
    {
        write_i64(data, self.x.wrapping_sub(last.x));
        write_i64(data, self.y.wrapping_sub(last.y));
        write_i64(data, self.millis.wrapping_sub(last.millis));
        proof {
            assert(data@ =~= old(data)@ + spec_delta(*last, *self));
        }
        *self
    }
}

impl TimeCurve {
    /// Writes the serialized form of this curve onto the data target: the
    /// point count, then each point delta-encoded against the previous one.
    pub fn serialize(&self, data: &mut Vec<u8>)
        ensures
            final(data)@ == old(data)@ + spec_serialize_curve(self.points@),
    {
        let ghost pts = self.points@;
        write_usize(data, self.points.len());
        let mut last = TimePoint { x: 0, y: 0, millis: 0 };
        let mut i: usize = 0;
        proof {
            assert(pts.skip(0) =~= pts);
        }
        while i < self.points.len()
            invariant
                i <= self.points.len(),
                pts == self.points@,
                pts.len() == self.points.len(),
                last == if i == 0 {
                    origin_point()
                } else {
                    pts[i - 1]
                },
                data@ + spec_serialize_points(pts.skip(i as int), last) == old(data)@
                    + spec_serialize_curve(pts),
            decreases self.points.len() - i,
        {
            proof {
                assert(pts.skip(i as int)[0] == pts[i as int]);
                assert(pts.skip(i as int).drop_first() =~= pts.skip(i + 1));
            }
            let ghost pre = data@;
            let ghost last0 = last;
            last = self.points[i].serialize_next(&last, data);
            proof {
                assert(spec_serialize_points(pts.skip(i as int), last0) == spec_delta(
                    last0,
                    pts[i as int],
                ) + spec_serialize_points(pts.skip(i + 1), pts[i as int]));
                assert(data@ + spec_serialize_points(pts.skip(i + 1), pts[i as int]) =~= pre
                    + spec_serialize_points(pts.skip(i as int), last0));
            }
            i = i + 1;
        }
        proof {
            assert(pts.skip(pts.len() as int) =~= Seq::<TimePoint>::empty());
            assert(data@ + Seq::<u8>::empty() =~= data@);
        }
    }

    /// Reads a curve from the data source: the count, then that many
    /// chained points, failing on a malformed or truncated stream.
    pub fn deserialize(data: &mut DataSource) -> (r: Option<TimeCurve>)
        requires
            old(data).wf(),
        ensures
            final(data).wf(),
            match spec_parse_curve(old(data).remaining()) {
                Some((ps, rest)) => (r matches Some(curve) && curve.points@ == ps)
                    && final(data).remaining() == rest,
                None => r is None,
            },
    {
        let count64 = match data.next_u64() {
            Some(c) => c,
            None => {
                return None;
            },
        };
        if count64 > usize::MAX as u64 {
            return None;
        }
        let n = count64 as usize;
        let ghost r0 = data.remaining();
        let mut points: Vec<TimePoint> = Vec::new();
        let mut last = TimePoint { x: 0, y: 0, millis: 0 };
        let mut i: usize = 0;
        proof {
            assert(points@ + Seq::<TimePoint>::empty() =~= points@);
        }
        while i < n
            invariant
                i <= n,
                data.wf(),
                spec_parse_curve(old(data).remaining()) == spec_parse_points(
                    r0,
                    n as nat,
                    origin_point(),
                ),
                last == if i == 0 {
                    origin_point()
                } else {
                    points@[i - 1]
                },
                points@.len() == i,
                match spec_parse_points(data.remaining(), (n - i) as nat, last) {
                    Some((ps, rest)) => spec_parse_points(r0, n as nat, origin_point()) == Some(
                        (points@ + ps, rest),
                    ),
                    None => spec_parse_points(r0, n as nat, origin_point()) is None,
                },
            decreases n - i,
        {
            let ghost s_here = data.remaining();
            let dx = match data.next_i64() {
                Some(v) => v,
                None => {
                    return None;
                },
            };
            proof {
                lemma_parse_i64_agrees(dx, s_here);
            }
            let ghost s1 = data.remaining();
            let dy = match data.next_i64() {
                Some(v) => v,
                None => {
                    return None;
                },
            };
            proof {
                lemma_parse_i64_agrees(dy, s1);
            }
            let ghost s2 = data.remaining();
            let dm = match data.next_i64() {
                Some(v) => v,
                None => {
                    return None;
                },
            };
            proof {
                lemma_parse_i64_agrees(dm, s2);
            }
            let p = TimePoint {
                x: last.x.wrapping_add(dx),
                y: last.y.wrapping_add(dy),
                millis: last.millis.wrapping_add(dm),
            };
            proof {
                assert(spec_parse_point(s_here, last) == Some((p, data.remaining())));
                let inner = spec_parse_points(data.remaining(), (n - i - 1) as nat, p);
                if inner is Some {
                    let (ps2, rest2) = inner.unwrap();
                    assert(points@ + (seq![p] + ps2) =~= points@.push(p) + ps2);
                }
            }
            points.push(p);
            last = p;
            i = i + 1;
        }
        proof {
            assert(spec_parse_points(data.remaining(), 0, last) == Some(
                (Seq::<TimePoint>::empty(), data.remaining()),
            ));
            assert(points@ + Seq::<TimePoint>::empty() =~= points@);
        }
        Some(TimeCurve { points })
    }
}

/// A wrapping difference followed by a wrapping addition restores the
/// original value.
pub proof fn lemma_wrapping_cancel(a: i64, b: i64)
    ensures
        i64_specs::wrapping_add(a, i64_specs::wrapping_sub(b, a)) == b,
{
}

/// Decoding a serialized run of chained points yields the points back.
proof fn lemma_points_round_trip(points: Seq<TimePoint>, prev: TimePoint, rest: Seq<u8>)
    ensures
        spec_parse_points(spec_serialize_points(points, prev) + rest, points.len(), prev) == Some(
            (points, rest),
        ),
    decreases points.len(),
{
    if points.len() == 0 {
        assert(spec_serialize_points(points, prev) + rest =~= rest);
    } else {
        let p = points[0];
        let tail = points.drop_first();
        let s = spec_serialize_points(points, prev) + rest;
        let dx = i64_specs::wrapping_sub(p.x, prev.x);
        let dy = i64_specs::wrapping_sub(p.y, prev.y);
        let dm = i64_specs::wrapping_sub(p.millis, prev.millis);
        assert(s =~= spec_i64_bytes(dx) + (spec_i64_bytes(dy) + (spec_i64_bytes(dm) + (
        spec_serialize_points(tail, p) + rest))));
        lemma_parse_i64_round_trip(dx, spec_i64_bytes(dy) + (spec_i64_bytes(dm) + (
        spec_serialize_points(tail, p) + rest)));
        lemma_parse_i64_round_trip(dy, spec_i64_bytes(dm) + (spec_serialize_points(tail, p) + rest));
        lemma_parse_i64_round_trip(dm, spec_serialize_points(tail, p) + rest);
        lemma_wrapping_cancel(prev.x, p.x);
        lemma_wrapping_cancel(prev.y, p.y);
        lemma_wrapping_cancel(prev.millis, p.millis);
        assert(spec_parse_point(s, prev) == Some((p, spec_serialize_points(tail, p) + rest)));
        lemma_points_round_trip(tail, p, rest);
        assert(seq![p] + tail =~= points);
    }
}

/// Round trip for time curve serialization: decoding a serialized curve,
/// whatever follows it, yields the same points back with the rest
/// untouched.
pub proof fn lemma_time_curve_round_trip(points: Seq<TimePoint>, rest: Seq<u8>)
    requires
        points.len() <= usize::MAX,
    ensures
        spec_parse_curve(spec_serialize_curve(points) + rest) == Some((points, rest)),
{
    let n64 = points.len() as u64;
    let body = spec_serialize_points(points, origin_point());
    assert(spec_serialize_curve(points) + rest =~= spec_u64_bytes(n64) + (body + rest));
    lemma_parse_u64_round_trip(n64, body + rest);
    lemma_points_round_trip(points, origin_point(), rest);
}

} // verus!
