//! The buffer of submitted blocks that are not yet resolvable, each paired
//! with the completion handle that will answer its submitter.

use vstd::prelude::*;
use crate::block::{Block, Height};

verus! {

/// A pending entry: a submitted block and its completion handle.
#[derive(Clone, Copy, Debug, PartialEq, Eq, Structural)]
pub struct Entry {
    /// The submitted block.
    pub block: Block,
    /// The one-shot completion handle that answers the submitter.
    pub handle: u64,
}

/// The height of an exclusive lower bound: one step below genesis when
/// there is no verified checkpoint yet.
pub open spec fn anchor_int(a: Option<Height>) -> int {
    match a {
        None => -1,
        Some(h) => h as int,
    }
}

/// The entry's height lies in the open-closed range `(lo, hi]`.
pub open spec fn in_segment(e: Entry, lo: int, hi: int) -> bool {
    lo < e.block.height <= hi
}

/// The subsequence of entries whose heights lie in `(lo, hi]`, in
/// submission order.
pub open spec fn seg_of(q: Seq<Entry>, lo: int, hi: int) -> Seq<Entry>
    decreases q.len(),
{
    if q.len() == 0 {
        Seq::empty()
    } else {
        seg_of(q.drop_last(), lo, hi) + (if in_segment(q.last(), lo, hi) {
            seq![q.last()]
        } else {
            Seq::empty()
        })
    }
}

/// The subsequence of entries whose heights lie outside `(lo, hi]`, in
/// submission order.
pub open spec fn rest_of(q: Seq<Entry>, lo: int, hi: int) -> Seq<Entry>
    decreases q.len(),
{
    if q.len() == 0 {
        Seq::empty()
    } else {
        rest_of(q.drop_last(), lo, hi) + (if !in_segment(q.last(), lo, hi) {
            seq![q.last()]
        } else {
            Seq::empty()
        })
    }
}

/// Unfolds `seg_of` and `rest_of` over a push.
pub proof fn lemma_split_push(q: Seq<Entry>, e: Entry, lo: int, hi: int)
    ensures
        seg_of(q.push(e), lo, hi) == seg_of(q, lo, hi) + (if in_segment(e, lo, hi) {
            seq![e]
        } else {
            Seq::<Entry>::empty()
        }),
        rest_of(q.push(e), lo, hi) == rest_of(q, lo, hi) + (if !in_segment(e, lo, hi) {
            seq![e]
        } else {
            Seq::<Entry>::empty()
        }),
{
    assert(q.push(e).drop_last() =~= q);
    assert(q.push(e).last() == e);
}

/// What the split holds: segment entries are exactly the in-range entries
/// of the queue, rest entries exactly the out-of-range ones, and both keep
/// membership in the queue.
pub proof fn lemma_split_membership(q: Seq<Entry>, lo: int, hi: int)
    ensures
        forall|k: int| 0 <= k < seg_of(q, lo, hi).len() ==> q.contains(
            #[trigger] seg_of(q, lo, hi)[k],
        ) && in_segment(seg_of(q, lo, hi)[k], lo, hi),
        forall|k: int| 0 <= k < rest_of(q, lo, hi).len() ==> q.contains(
            #[trigger] rest_of(q, lo, hi)[k],
        ) && !in_segment(rest_of(q, lo, hi)[k], lo, hi),
        forall|i: int|
            0 <= i < q.len() ==> (if in_segment(#[trigger] q[i], lo, hi) {
                seg_of(q, lo, hi).contains(q[i])
            } else {
                rest_of(q, lo, hi).contains(q[i])
            }),
        seg_of(q, lo, hi).len() + rest_of(q, lo, hi).len() == q.len(),
    decreases q.len(),
{
    if q.len() > 0 {
        let p = q.drop_last();
        lemma_split_membership(p, lo, hi);
        assert(p.push(q.last()) =~= q);
        lemma_split_push(p, q.last(), lo, hi);
        assert forall|k: int| 0 <= k < seg_of(q, lo, hi).len() implies q.contains(
            #[trigger] seg_of(q, lo, hi)[k],
        ) && in_segment(seg_of(q, lo, hi)[k], lo, hi) by {
            if k < seg_of(p, lo, hi).len() {
                assert(seg_of(q, lo, hi)[k] == seg_of(p, lo, hi)[k]);
                let i = choose|i: int| 0 <= i < p.len() && #[trigger] p[i] == seg_of(p, lo, hi)[k];
                assert(q[i] == seg_of(q, lo, hi)[k]);
            } else {
                assert(seg_of(q, lo, hi)[k] == q.last());
                assert(q[q.len() - 1] == q.last());
            }
        }
        assert forall|k: int| 0 <= k < rest_of(q, lo, hi).len() implies q.contains(
            #[trigger] rest_of(q, lo, hi)[k],
        ) && !in_segment(rest_of(q, lo, hi)[k], lo, hi) by {
            if k < rest_of(p, lo, hi).len() {
                assert(rest_of(q, lo, hi)[k] == rest_of(p, lo, hi)[k]);
                let i = choose|i: int| 0 <= i < p.len() && #[trigger] p[i] == rest_of(p, lo, hi)[k];
                assert(q[i] == rest_of(q, lo, hi)[k]);
            } else {
                assert(rest_of(q, lo, hi)[k] == q.last());
                assert(q[q.len() - 1] == q.last());
            }
        }
        assert forall|i: int|
            0 <= i < q.len() implies (if in_segment(#[trigger] q[i], lo, hi) {
            seg_of(q, lo, hi).contains(q[i])
        } else {
            rest_of(q, lo, hi).contains(q[i])
        }) by {
            if i < q.len() - 1 {
                assert(q[i] == p[i]);
                if in_segment(q[i], lo, hi) {
                    let k = choose|k: int|
                        0 <= k < seg_of(p, lo, hi).len() && #[trigger] seg_of(p, lo, hi)[k] == p[i];
                    assert(seg_of(q, lo, hi)[k] == p[i]);
                } else {
                    let k = choose|k: int|
                        0 <= k < rest_of(p, lo, hi).len() && #[trigger] rest_of(p, lo, hi)[k]
                            == p[i];
                    assert(rest_of(q, lo, hi)[k] == p[i]);
                }
            } else {
                assert(q[i] == q.last());
                if in_segment(q.last(), lo, hi) {
                    assert(seg_of(q, lo, hi).last() == q.last());
                } else {
                    assert(rest_of(q, lo, hi).last() == q.last());
                }
            }
        }
    }
}

/// No two entries of the sequence share a handle.
pub open spec fn handles_distinct(q: Seq<Entry>) -> bool {
    forall|i: int, j: int|
        0 <= i < j < q.len() ==> #[trigger] q[i].handle != #[trigger] q[j].handle
}

/// Splitting a queue with distinct handles yields a segment with distinct
/// handles.
pub proof fn lemma_seg_distinct(q: Seq<Entry>, lo: int, hi: int)
    requires
        handles_distinct(q),
    ensures
        handles_distinct(seg_of(q, lo, hi)),
    decreases q.len(),
{
    if q.len() > 0 {
        let p = q.drop_last();
        assert(handles_distinct(p)) by {
            assert forall|i: int, j: int|
                0 <= i < j < p.len() implies #[trigger] p[i].handle != #[trigger] p[j].handle by {
                assert(q[i] == p[i] && q[j] == p[j]);
            }
        }
        lemma_seg_distinct(p, lo, hi);
        lemma_split_membership(p, lo, hi);
        assert(p.push(q.last()) =~= q);
        lemma_split_push(p, q.last(), lo, hi);
        let s = seg_of(q, lo, hi);
        assert forall|i: int, j: int|
            0 <= i < j < s.len() implies #[trigger] s[i].handle != #[trigger] s[j].handle by {
            if j < seg_of(p, lo, hi).len() {
                assert(s[i] == seg_of(p, lo, hi)[i] && s[j] == seg_of(p, lo, hi)[j]);
            } else {
                assert(s[j] == q.last());
                assert(s[i] == seg_of(p, lo, hi)[i]);
                let m = choose|m: int| 0 <= m < p.len() && #[trigger] p[m] == seg_of(p, lo, hi)[i];
                assert(q[m] == p[m]);
                assert(q[m].handle != q[q.len() - 1].handle);
            }
        }
    }
}

/// Splitting a queue with distinct handles leaves a rest with distinct
/// handles.
pub proof fn lemma_rest_distinct(q: Seq<Entry>, lo: int, hi: int)
    requires
        handles_distinct(q),
    ensures
        handles_distinct(rest_of(q, lo, hi)),
    decreases q.len(),
{
    if q.len() > 0 {
        let p = q.drop_last();
        assert(handles_distinct(p)) by {
            assert forall|i: int, j: int|
                0 <= i < j < p.len() implies #[trigger] p[i].handle != #[trigger] p[j].handle by {
                assert(q[i] == p[i] && q[j] == p[j]);
            }
        }
        lemma_rest_distinct(p, lo, hi);
        lemma_split_membership(p, lo, hi);
        assert(p.push(q.last()) =~= q);
        lemma_split_push(p, q.last(), lo, hi);
        let s = rest_of(q, lo, hi);
        assert forall|i: int, j: int|
            0 <= i < j < s.len() implies #[trigger] s[i].handle != #[trigger] s[j].handle by {
            if j < rest_of(p, lo, hi).len() {
                assert(s[i] == rest_of(p, lo, hi)[i] && s[j] == rest_of(p, lo, hi)[j]);
            } else {
                assert(s[j] == q.last());
                assert(s[i] == rest_of(p, lo, hi)[i]);
                let m = choose|m: int| 0 <= m < p.len() && #[trigger] p[m] == rest_of(p, lo, hi)[i];
                assert(q[m] == p[m]);
                assert(q[m].handle != q[q.len() - 1].handle);
            }
        }
    }
}

/// Some entry of the sequence sits at height `h`.
pub open spec fn has_entry_at(q: Seq<Entry>, h: int) -> bool {
    exists|i: int| 0 <= i < q.len() && #[trigger] q[i].block.height == h
}

/// A height-keyed multimap of pending entries, held in submission order.
/// Entries leave only when a verifying pass resolves them or teardown
/// cancels them.
pub struct PendingQueue {
    entries: Vec<Entry>,
}

impl PendingQueue {
    /// The pending entries, in submission order.
    pub closed spec fn entries(self) -> Seq<Entry> {
        self.entries@
    }

    /// An empty queue.
    pub fn new() -> (r: PendingQueue)
        ensures
            r.entries() == Seq::<Entry>::empty(),
    {
        PendingQueue { entries: Vec::new() }
    }

    /// How many entries are pending.
    pub fn len(&self) -> (r: usize)
        ensures
            r == self.entries().len(),
    {
        self.entries.len()
    }

    /// Appends one entry.
    pub fn insert(&mut self, e: Entry)
        ensures
            final(self).entries() == old(self).entries().push(e),
    {
        self.entries.push(e);
    }

    /// The heights of the pending entries, in submission order — one per
    /// entry, repeats included; for probing which heights are present.
    pub fn heights(&self) -> (r: Vec<Height>)
        ensures
            r@.len() == self.entries().len(),
            forall|k: int| 0 <= k < r@.len() ==> r@[k] == #[trigger] self.entries()[k].block.height,
    {
        let mut r: Vec<Height> = Vec::new();
        let mut i: usize = 0;
        while i < self.entries.len()
            invariant
                0 <= i <= self.entries().len(),
                r@.len() == i,
                forall|k: int|
                    0 <= k < i ==> r@[k] == #[trigger] self.entries()[k].block.height,
            decreases self.entries().len() - i,
        {
            let e = self.entries[i];
            r.push(e.block.height);
            i = i + 1;
        }
        r
    }

    /// Whether some entry sits at height `h`.
    pub fn has_height(&self, h: Height) -> (r: bool)
        ensures
            r == has_entry_at(self.entries(), h as int),
    {
        let mut i: usize = 0;
        while i < self.entries.len()
            invariant
                0 <= i <= self.entries().len(),
                forall|j: int| 0 <= j < i ==> #[trigger] self.entries()[j].block.height != h,
            decreases self.entries().len() - i,
        {
            if self.entries[i].block.height == h {
                return true;
            }
            i = i + 1;
        }
        false
    }

    /// Copies out the entries whose heights lie in `(lo, hi]`, in
    /// submission order, without removing them.
    pub fn collect_segment(&self, lo: Option<Height>, hi: Height) -> (r: Vec<Entry>)
        ensures
            r@ == seg_of(self.entries(), anchor_int(lo), hi as int),
    {
        let ghost q = self.entries();
        let ghost loi = anchor_int(lo);
        let mut r: Vec<Entry> = Vec::new();
        let mut i: usize = 0;
        while i < self.entries.len()
            invariant
                0 <= i <= q.len(),
                q == self.entries(),
                loi == anchor_int(lo),
                r@ == seg_of(q.take(i as int), loi, hi as int),
            decreases q.len() - i,
        {
            let e = self.entries[i];
            proof {
                assert(q.take(i as int + 1) =~= q.take(i as int).push(e));
                lemma_split_push(q.take(i as int), e, loi, hi as int);
            }
            let above = match lo {
                None => true,
                Some(l) => e.block.height > l,
            };
            if above && e.block.height <= hi {
                r.push(e);
            }
            i = i + 1;
        }
        proof {
            assert(q.take(q.len() as int) =~= q);
        }
        r
    }

    /// Removes and returns the entries whose heights lie in `(lo, hi]`, in
    /// submission order; the others stay, in their order.
    pub fn drain_segment(&mut self, lo: Option<Height>, hi: Height) -> (r: Vec<Entry>)
        ensures
            r@ == seg_of(old(self).entries(), anchor_int(lo), hi as int),
            final(self).entries() == rest_of(old(self).entries(), anchor_int(lo), hi as int),
    {
        let ghost q = self.entries();
        let ghost loi = anchor_int(lo);
        let mut drained: Vec<Entry> = Vec::new();
        let mut kept: Vec<Entry> = Vec::new();
        let mut i: usize = 0;
        while i < self.entries.len()
            invariant
                0 <= i <= q.len(),
                q == self.entries(),
                loi == anchor_int(lo),
                drained@ == seg_of(q.take(i as int), loi, hi as int),
                kept@ == rest_of(q.take(i as int), loi, hi as int),
            decreases q.len() - i,
        {
            let e = self.entries[i];
            proof {
                assert(q.take(i as int + 1) =~= q.take(i as int).push(e));
                lemma_split_push(q.take(i as int), e, loi, hi as int);
            }
            let above = match lo {
                None => true,
                Some(l) => e.block.height > l,
            };
            if above && e.block.height <= hi {
                drained.push(e);
            } else {
                kept.push(e);
            }
            i = i + 1;
        }
        proof {
            assert(q.take(q.len() as int) =~= q);
        }
        self.entries = kept;
        drained
    }

    /// Removes and returns every entry, in submission order; used at
    /// teardown to cancel whatever is still pending.
    pub fn drain_all(&mut self) -> (r: Vec<Entry>)
        ensures
            r@ == old(self).entries(),
            final(self).entries() == Seq::<Entry>::empty(),
    {
        let mut r: Vec<Entry> = Vec::new();
        let mut i: usize = 0;
        let ghost q = self.entries();
        while i < self.entries.len()
            invariant
                0 <= i <= q.len(),
                q == self.entries(),
                r@ == q.take(i as int),
            decreases q.len() - i,
        {
            proof {
                assert(q.take(i as int + 1) =~= q.take(i as int).push(q[i as int]));
            }
            let e = self.entries[i];
            r.push(e);
            i = i + 1;
        }
        proof {
            assert(q.take(q.len() as int) =~= q);
        }
        self.entries.clear();
        r
    }
}

} // verus!
