//! Things that can be edited, or described, by an ordered sequence of
//! committed edits plus a batch of pending ones.

use vstd::prelude::*;

verus! {

/// An append-only log of edits with a replaceable pending batch: the
/// pending edits become part of the log only on commit.
pub trait EditLog<Edit: DeepView> {
    /// The committed entries, in order.
    spec fn committed(&self) -> Seq<Edit::V>;

    /// The pending batch, if one is set.
    spec fn pending_batch(&self) -> Option<Seq<Edit::V>>;

    /// Retrieves the number of committed edits in this log.
    fn length(&self) -> (n: usize)
        ensures
            n == self.committed().len(),
    ;

    /// Reads the committed edits with indexes in `start..end`.
    fn read(&self, start: usize, end: usize) -> (r: Vec<Edit>)
        requires
            start <= end <= self.committed().len(),
        ensures
            r.deep_view() == self.committed().subrange(start as int, end as int),
    ;

    /// Sets the pending edits for this log, replacing any existing pending
    /// edits.
    fn set_pending(&mut self, edits: &[Edit])
        ensures
            final(self).committed() == old(self).committed(),
            final(self).pending_batch() == Some(
                edits@.map_values(|e: Edit| e.deep_view()),
            ),
    ;

    /// Commits any pending edits, appending them to the log in order.
    fn commit_pending(&mut self)
        ensures
            final(self).pending_batch() is None,
            final(self).committed() == match old(self).pending_batch() {
                Some(batch) => old(self).committed() + batch,
                None => old(self).committed(),
            },
    ;

    /// Cancels any pending edits, leaving the log untouched.
    fn cancel_panding(&mut self)
        ensures
            final(self).committed() == old(self).committed(),
            final(self).pending_batch() is None,
    ;
}

/// An edit log held entirely in memory, with serialized edits as entries.
pub struct InMemoryEditLog {
    /// The committed entries, in order.
    pub entries: Vec<Vec<u8>>,
    /// The pending batch, if one is set.
    pub pending: Option<Vec<Vec<u8>>>,
}

impl InMemoryEditLog {
    /// Creates an empty log with no pending edits.
    pub fn new() -> (log: InMemoryEditLog)
        ensures
            log.committed() == Seq::<Seq<u8>>::empty(),
            log.pending_batch() is None,
    {
        let log = InMemoryEditLog { entries: Vec::new(), pending: None };
        proof {
            assert(log.committed() =~= Seq::<Seq<u8>>::empty());
        }
        log
    }
}

/// Copies a byte vector; the copy has the same contents.
fn copy_blob(v: &Vec<u8>) -> (r: Vec<u8>)
    ensures
        r@ == v@,
        r.deep_view() == v.deep_view(),
{
    let mut r: Vec<u8> = Vec::new();
    let mut i: usize = 0;
    while i < v.len()
        invariant
            i <= v.len(),
            r@ == v@.take(i as int),
        decreases v.len() - i,
    {
        r.push(v[i]);
        proof {
            assert(r@ =~= v@.take(i + 1));
        }
        i = i + 1;
    }
    proof {
        assert(v@.take(v@.len() as int) =~= v@);
        assert(r.deep_view() =~= v.deep_view());
    }
    r
}

impl EditLog<Vec<u8>> for InMemoryEditLog {
    open spec fn committed(&self) -> Seq<Seq<u8>> {
        self.entries.deep_view()
    }

    open spec fn pending_batch(&self) -> Option<Seq<Seq<u8>>> {
        match self.pending {
            Some(batch) => Some(batch.deep_view()),
            None => None,
        }
    }

    fn length(&self) -> (n: usize) {
        self.entries.len()
    }

    fn read(&self, start: usize, end: usize) -> (r: Vec<Vec<u8>>) {
        let ghost all = self.entries.deep_view();
        let mut r: Vec<Vec<u8>> = Vec::new();
        let mut i = start;
        while i < end
            invariant
                start <= i <= end <= self.entries.len(),
                all == self.entries.deep_view(),
                all.len() == self.entries.len(),
                r.deep_view() == all.subrange(start as int, i as int),
            decreases end - i,
        {
            let blob = copy_blob(&self.entries[i]);
            proof {
                assert(all[i as int] == self.entries@[i as int].deep_view());
            }
            r.push(blob);
            proof {
                assert(all.subrange(start as int, i + 1) =~= all.subrange(
                    start as int,
                    i as int,
                ).push(all[i as int]));
                assert(r.deep_view() =~= all.subrange(start as int, i as int).push(all[i as int]));
            }
            i = i + 1;
        }
        r
    }

    fn set_pending(&mut self, edits: &[Vec<u8>]) {
        let ghost target = edits@.map_values(|e: Vec<u8>| e.deep_view());
        let mut batch: Vec<Vec<u8>> = Vec::new();
        let mut i: usize = 0;
        proof {
            assert(batch.deep_view() =~= target.take(0));
        }
        while i < edits.len()
            invariant
                i <= edits@.len(),
                target == edits@.map_values(|e: Vec<u8>| e.deep_view()),
                target.len() == edits@.len(),
                batch.deep_view() == target.take(i as int),
            decreases edits@.len() - i,
        {
            let blob = copy_blob(&edits[i]);
            proof {
                assert(target[i as int] == edits@[i as int].deep_view());
            }
            batch.push(blob);
            proof {
                assert(target.take(i + 1) =~= target.take(i as int).push(target[i as int]));
                assert(batch.deep_view() =~= target.take(i as int).push(target[i as int]));
            }
            i = i + 1;
        }
        proof {
            assert(target.take(target.len() as int) =~= target);
        }
        self.pending = Some(batch);
    }

    fn commit_pending(&mut self) {
        match self.pending.take() {
            Some(mut batch) => {
                let ghost before = self.entries.deep_view();
                let ghost incoming = batch.deep_view();
                self.entries.append(&mut batch);
                proof {
                    assert(self.entries.deep_view() =~= before + incoming);
                }
            },
            None => {},
        }
    }

    fn cancel_panding(&mut self) {
        self.pending = None;
    }
}

} // verus!
