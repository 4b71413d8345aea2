//! Vector layers: a renderable plane of the animation, holding a
//! time-ordered set of keyframes that frames are looked up against.

use vstd::prelude::*;

verus! {

/// The kinds of edits a layer supports.
#[derive(Clone, Copy, PartialEq, Eq, Structural, Debug)]
pub enum LayerEditType {
    Vector,
}

/// A frame looked up from a layer: the content of the keyframe covering
/// the requested time, offset into it, or an empty frame when no keyframe
/// covers the time.
#[derive(Clone, Copy, PartialEq, Eq, Structural, Debug)]
pub enum Frame {
    /// A frame backed by the keyframe starting at `keyframe_time`, shown
    /// `offset` milliseconds into it.
    Vector { keyframe_time: u64, offset: u64 },
    /// No keyframe covers the requested time.
    Empty { when: u64 },
}

/// Whether a time sequence is strictly ascending.
pub open spec fn sorted_times(times: Seq<u64>) -> bool {
    forall|i: int, j: int| 0 <= i < j < times.len() ==> times[i] < times[j]
}

/// Whether a keyframe exists at exactly the given time.
pub open spec fn has_time(times: Seq<u64>, when: u64) -> bool {
    exists|i: int| 0 <= i < times.len() && times[i] == when
}

/// The index of the keyframe at exactly the given time.
pub open spec fn time_pos(times: Seq<u64>, when: u64) -> int
    recommends
        has_time(times, when),
{
    choose|i: int| 0 <= i < times.len() && times[i] == when
}

/// The position at which a keyframe at the given time belongs.
pub open spec fn time_ins(times: Seq<u64>, when: u64) -> int
    decreases times.len(),
{
    if times.len() == 0 {
        0
    } else if when <= times[0] {
        0
    } else {
        1 + time_ins(times.drop_first(), when)
    }
}

/// The index of the keyframe covering the given time: the exact match, or
/// the nearest keyframe before it.
pub open spec fn covering_time(times: Seq<u64>, when: u64) -> Option<int> {
    if has_time(times, when) {
        Some(time_pos(times, when))
    } else {
        let p = time_ins(times, when);
        if p > 0 {
            Some(p - 1)
        } else {
            None
        }
    }
}

/// The keyframe times after an ordered insert, unchanged when the time is
/// already present.
pub open spec fn times_with(times: Seq<u64>, when: u64) -> Seq<u64> {
    if has_time(times, when) {
        times
    } else {
        times.insert(time_ins(times, when), when)
    }
}

/// The keyframe times after a removal, unchanged when the time is absent.
pub open spec fn times_without(times: Seq<u64>, when: u64) -> Seq<u64> {
    if has_time(times, when) {
        times.remove(time_pos(times, when))
    } else {
        times
    }
}

/// On a sorted time sequence, `time_ins` splits the times below the given
/// one from those at or above it.
pub proof fn lemma_time_ins_props(times: Seq<u64>, when: u64)
    requires
        sorted_times(times),
    ensures
        0 <= time_ins(times, when) <= times.len(),
        forall|i: int| 0 <= i < time_ins(times, when) ==> (#[trigger] times[i]) < when,
        forall|i: int| time_ins(times, when) <= i < times.len() ==> when <= (#[trigger] times[i]),
    decreases times.len(),
{
    if times.len() == 0 {
    } else if when <= times[0] {
    } else {
        let rest = times.drop_first();
        assert forall|i: int, j: int| 0 <= i < j < rest.len() implies rest[i] < rest[j] by {
            assert(rest[i] == times[i + 1]);
            assert(rest[j] == times[j + 1]);
        }
        assert(sorted_times(rest));
        lemma_time_ins_props(rest, when);
        let p = time_ins(times, when);
        assert forall|i: int| 0 <= i < p implies (#[trigger] times[i]) < when by {
            if i >= 1 {
                assert(rest[i - 1] == times[i]);
                assert(rest[i - 1] < when);
            }
        }
        assert forall|i: int| p <= i < times.len() implies when <= (#[trigger] times[i]) by {
            assert(rest[i - 1] == times[i]);
            assert(when <= rest[i - 1]);
        }
    }
}

/// A renderable plane in an animation: an id and a time-ordered sequence
/// of keyframes, looked up by time.
pub trait Layer {
    /// The id of this layer.
    spec fn layer_id(&self) -> u64;

    /// The keyframe times, strictly ascending.
    spec fn keyframe_times(&self) -> Seq<u64>;

    /// The keyframe times stay strictly ascending.
    open spec fn times_sorted(&self) -> bool {
        sorted_times(self.keyframe_times())
    }

    /// Retrieves the id of this layer.
    fn id(&self) -> (r: u64)
        ensures
            r == self.layer_id(),
    ;

    /// Retrieves the frame at the given time: the covering keyframe with
    /// the offset into it, or an empty frame.
    fn get_frame_at_time(&self, time_index: u64) -> (f: Frame)
        requires
            self.times_sorted(),
        ensures
            match covering_time(self.keyframe_times(), time_index) {
                Some(i) => f == (Frame::Vector {
                    keyframe_time: self.keyframe_times()[i],
                    offset: (time_index - self.keyframe_times()[i]) as u64,
                }),
                None => f == (Frame::Empty { when: time_index }),
            },
    ;

    /// Adds a keyframe at the given time, in order; a time already present
    /// is left as it is.
    fn add_key_frame(&mut self, when: u64)
        requires
            old(self).times_sorted(),
        ensures
            final(self).layer_id() == old(self).layer_id(),
            final(self).keyframe_times() == times_with(old(self).keyframe_times(), when),
            final(self).times_sorted(),
    ;

    /// Removes the keyframe at exactly the given time; an absent time is
    /// ignored.
    fn remove_key_frame(&mut self, when: u64)
        requires
            old(self).times_sorted(),
        ensures
            final(self).layer_id() == old(self).layer_id(),
            final(self).keyframe_times() == times_without(old(self).keyframe_times(), when),
            final(self).times_sorted(),
    ;

    /// Retrieves the keyframe times that fall within `start..end`.
    fn get_key_frames_during_time(&self, start: u64, end: u64) -> (r: Vec<u64>)
        requires
            self.times_sorted(),
            start <= end,
        ensures
            r@ == self.keyframe_times().subrange(
                time_ins(self.keyframe_times(), start),
                time_ins(self.keyframe_times(), end),
            ),
    ;

    /// Retrieves the edit types this layer supports.
    fn supported_edit_types(&self) -> (r: Vec<LayerEditType>)
        ensures
            r@ == seq![LayerEditType::Vector],
    ;
}

/// The core data of a vector layer: its id and keyframe times, sorted.
pub struct VectorLayerCore {
    /// The id of this layer.
    pub id: u64,
    /// The keyframe times, kept strictly ascending.
    pub keyframes: Vec<u64>,
}

/// A vector layer: supports brush and vector objects, placed on keyframes.
pub struct InMemoryVectorLayer {
    /// The core data for this layer.
    pub core: VectorLayerCore,
}

impl InMemoryVectorLayer {
    /// Creates a new vector layer with no keyframes.
    pub fn new(id: u64) -> (layer: InMemoryVectorLayer)
        ensures
            layer.layer_id() == id,
            layer.keyframe_times() == Seq::<u64>::empty(),
            layer.times_sorted(),
    {
        let layer = InMemoryVectorLayer { core: VectorLayerCore { id, keyframes: Vec::new() } };
        proof {
            assert(layer.keyframe_times() =~= Seq::<u64>::empty());
        }
        layer
    }
}

/// Binary search for a keyframe time: the exact index, or the ordered
/// insertion point.
fn find_time(times: &Vec<u64>, when: u64) -> (r: Result<usize, usize>)
    requires
        sorted_times(times@),
    ensures
        match r {
            Ok(i) => has_time(times@, when) && i == time_pos(times@, when) && i < times.len()
                && times@[i as int] == when,
            Err(p) => !has_time(times@, when) && p == time_ins(times@, when) && p <= times.len(),
        },
{
    let mut lo: usize = 0;
    let mut hi: usize = times.len();
    while lo < hi
        invariant
            lo <= hi <= times.len(),
            sorted_times(times@),
            forall|i: int| 0 <= i < lo ==> (#[trigger] times@[i]) < when,
            forall|i: int| hi <= i < times@.len() ==> when < (#[trigger] times@[i]),
        decreases hi - lo,
    {
        let mid = lo + (hi - lo) / 2;
        if times[mid] == when {
            proof {
                let w = time_pos(times@, when);
                assert(times@[w] == when);
            }
            return Ok(mid);
        } else if times[mid] < when {
            lo = mid + 1;
        } else {
            hi = mid;
        }
    }
    proof {
        if has_time(times@, when) {
            let w = choose|i: int| 0 <= i < times@.len() && times@[i] == when;
            assert(times@[w] == when);
        }
        lemma_time_ins_props(times@, when);
        let p = time_ins(times@, when);
        if p < lo {
            assert(times@[p] < when);
            assert(when <= times@[p]);
        }
        if p > lo {
            assert(times@[lo as int] < when);
            assert(when <= times@[lo as int]);
        }
    }
    Err(lo)
}

impl Layer for InMemoryVectorLayer {
    open spec fn layer_id(&self) -> u64 {
        self.core.id
    }

    open spec fn keyframe_times(&self) -> Seq<u64> {
        self.core.keyframes@
    }

    fn id(&self) -> (r: u64) {
        self.core.id
    }

    fn get_frame_at_time(&self, time_index: u64) -> (f: Frame) {
        match find_time(&self.core.keyframes, time_index) {
            Ok(i) => Frame::Vector { keyframe_time: self.core.keyframes[i], offset: 0 },
            Err(p) => {
                if p > 0 {
                    let start = self.core.keyframes[p - 1];
                    proof {
                        lemma_time_ins_props(self.core.keyframes@, time_index);
                    }
                    Frame::Vector { keyframe_time: start, offset: time_index - start }
                } else {
                    Frame::Empty { when: time_index }
                }
            },
        }
    }

    fn add_key_frame(&mut self, when: u64) {
        match find_time(&self.core.keyframes, when) {
            Ok(_) => {},
            Err(p) => {
                proof {
                    lemma_time_ins_props(self.core.keyframes@, when);
                }
                self.core.keyframes.insert(p, when);
                proof {
                    let times0 = old(self).core.keyframes@;
                    times0.insert_ensures(p as int, when);
                    assert forall|i: int, j: int|
                        0 <= i < j < self.core.keyframes@.len() implies self.core.keyframes@[i]
                        < self.core.keyframes@[j] by {
                        if i < p && j > p {
                            assert(self.core.keyframes@[i] == times0[i]);
                            assert(self.core.keyframes@[j] == times0[j - 1]);
                        } else if i == p && j > p {
                            assert(self.core.keyframes@[j] == times0[j - 1]);
                        } else if i > p {
                            assert(self.core.keyframes@[i] == times0[i - 1]);
                            assert(self.core.keyframes@[j] == times0[j - 1]);
                        }
                    }
                    assert(sorted_times(self.core.keyframes@));
                }
            },
        }
    }

    fn remove_key_frame(&mut self, when: u64) {
        match find_time(&self.core.keyframes, when) {
            Ok(i) => {
                self.core.keyframes.remove(i);
                proof {
                    let times0 = old(self).core.keyframes@;
                    times0.remove_ensures(i as int);
                    assert forall|a: int, b: int|
                        0 <= a < b < self.core.keyframes@.len() implies self.core.keyframes@[a]
                        < self.core.keyframes@[b] by {
                        if a < i && b >= i {
                            assert(self.core.keyframes@[b] == times0[b + 1]);
                        } else if a >= i {
                            assert(self.core.keyframes@[a] == times0[a + 1]);
                            assert(self.core.keyframes@[b] == times0[b + 1]);
                        }
                    }
                    assert(sorted_times(self.core.keyframes@));
                }
            },
            Err(_) => {},
        }
    }

    fn get_key_frames_during_time(&self, start: u64, end: u64) -> (r: Vec<u64>) {
        let ghost times = self.core.keyframes@;
        proof {
            lemma_time_ins_props(times, start);
            lemma_time_ins_props(times, end);
        }
        let lo = match find_time(&self.core.keyframes, start) {
            Ok(i) => i,
            Err(p) => p,
        };
        proof {
            assert(lo == time_ins(times, start)) by {
                if has_time(times, start) {
                    let w = time_pos(times, start);
                    let p = time_ins(times, start);
                    assert(times[w] == start);
                    if p < w {
                        assert(start <= times[p]);
                        assert(times[p] < times[w]);
                        assert(times[p] < start);
                    }
                    if p > w {
                        assert(times[w] < start);
                    }
                }
            }
        }
        proof {
            if time_ins(times, start) > time_ins(times, end) {
                let k = time_ins(times, end);
                assert(times[k] < start);
                assert(end <= times[k]);
            }
        }
        let mut r: Vec<u64> = Vec::new();
        let mut i = lo;
        while i < self.core.keyframes.len() && self.core.keyframes[i] < end
            invariant
                lo <= i <= times.len(),
                times == self.core.keyframes@,
                lo == time_ins(times, start),
                forall|k: int| 0 <= k < time_ins(times, end) ==> (#[trigger] times[k]) < end,
                forall|k: int|
                    time_ins(times, end) <= k < times.len() ==> end <= (#[trigger] times[k]),
                time_ins(times, start) <= time_ins(times, end) <= times.len(),
                i <= time_ins(times, end) || i == lo,
                r@ == times.subrange(lo as int, i as int),
            decreases times.len() - i,
        {
            proof {
                assert(i < time_ins(times, end));
            }
            r.push(self.core.keyframes[i]);
            proof {
                assert(times.subrange(lo as int, i + 1) =~= times.subrange(
                    lo as int,
                    i as int,
                ).push(times[i as int]));
            }
            i = i + 1;
        }
        proof {
            let hi = time_ins(times, end);
            if i < times.len() {
                assert(end <= times[i as int]);
                assert(i >= hi);
            }
            assert(i == hi);
        }
        r
    }

    fn supported_edit_types(&self) -> (r: Vec<LayerEditType>) {
        let mut r: Vec<LayerEditType> = Vec::new();
        r.push(LayerEditType::Vector);
        proof {
            assert(r@ =~= seq![LayerEditType::Vector]);
        }
        r
    }
}

} // verus!
