//! An immutable, ordered list of checkpoints: trusted (height, hash)
//! pairs, validated at construction.

use vstd::prelude::*;
use crate::block::{BlockHash, Height};
use crate::error::ListError;

verus! {

/// Two entries of the sequence share a height.
pub open spec fn has_dup_height(s: Seq<(Height, BlockHash)>) -> bool {
    exists|i: int, j: int| 0 <= i < j < s.len() && s[i].0 == s[j].0
}

/// Some entry of the sequence sits at height `h`.
pub open spec fn has_height(s: Seq<(Height, BlockHash)>, h: int) -> bool {
    exists|i: int| 0 <= i < s.len() && s[i].0 == h
}

/// The two sequences hold the same pairs, in whatever order.
pub open spec fn same_pairs(a: Seq<(Height, BlockHash)>, b: Seq<(Height, BlockHash)>) -> bool {
    &&& forall|p: (Height, BlockHash)| a.contains(p) ==> b.contains(p)
    &&& forall|p: (Height, BlockHash)| b.contains(p) ==> a.contains(p)
}

/// The first index at or after `i` whose height exceeds `a`, or the length
/// of the sequence if there is none.
pub open spec fn idx_above(s: Seq<(Height, BlockHash)>, a: int, i: int) -> int
    decreases s.len() - i,
{
    if i < 0 || i >= s.len() {
        s.len() as int
    } else if s[i].0 > a {
        i
    } else {
        idx_above(s, a, i + 1)
    }
}

proof fn lemma_idx_above(s: Seq<(Height, BlockHash)>, a: int, i: int)
    requires
        0 <= i <= s.len(),
    ensures
        i <= idx_above(s, a, i) <= s.len(),
        forall|j: int| i <= j < idx_above(s, a, i) ==> #[trigger] s[j].0 <= a,
        idx_above(s, a, i) < s.len() ==> s[idx_above(s, a, i)].0 > a,
    decreases s.len() - i,
{
    if i < s.len() && !(s[i].0 > a) {
        lemma_idx_above(s, a, i + 1);
    }
}

/// An immutable mapping from height to expected block hash. Construction
/// checks that it is non-empty, starts at genesis, and has no repeated
/// height; afterwards it never changes.
pub struct CheckpointList {
    entries: Vec<(Height, BlockHash)>,
}

impl CheckpointList {
    /// The checkpoints, by strictly ascending height.
    pub closed spec fn entries(self) -> Seq<(Height, BlockHash)> {
        self.entries@
    }

    /// Well-formed: non-empty, genesis first, strictly ascending heights.
    pub open spec fn wf(self) -> bool {
        &&& self.entries().len() > 0
        &&& self.entries()[0].0 == 0
        &&& forall|i: int, j: int|
            0 <= i < j < self.entries().len() ==> #[trigger] self.entries()[i].0
                < #[trigger] self.entries()[j].0
    }

    /// Height `h` is a checkpoint height.
    pub open spec fn spec_contains(self, h: int) -> bool {
        has_height(self.entries(), h)
    }

    /// The expected hash at checkpoint height `h`, if `h` is one.
    pub open spec fn spec_hash_at(self, h: int) -> Option<BlockHash> {
        if self.spec_contains(h) {
            let i = choose|i: int|
                0 <= i < self.entries().len() && #[trigger] self.entries()[i].0 == h;
            Some(self.entries()[i].1)
        } else {
            None
        }
    }

    /// The largest checkpoint height.
    pub open spec fn spec_max_height(self) -> int {
        self.entries().last().0 as int
    }

    /// The smallest checkpoint height strictly above `a`, if any.
    pub open spec fn spec_next_after(self, a: int) -> Option<int> {
        let k = idx_above(self.entries(), a, 0);
        if k < self.entries().len() {
            Some(self.entries()[k].0 as int)
        } else {
            None
        }
    }

    /// What `spec_next_after` returns: the least checkpoint height above
    /// `a` when one exists, and nothing exactly when none lies above `a`.
    pub proof fn lemma_next_after(self, a: int)
        requires
            self.wf(),
        ensures
            match self.spec_next_after(a) {
                Some(t) => t > a && self.spec_contains(t) && forall|u: int|
                    self.spec_contains(u) && u > a ==> t <= u,
                None => forall|u: int| self.spec_contains(u) ==> u <= a,
            },
    {
        let s = self.entries();
        let k = idx_above(s, a, 0);
        lemma_idx_above(s, a, 0);
        match self.spec_next_after(a) {
            Some(t) => {
                assert(s[k].0 == t);
                assert forall|u: int| self.spec_contains(u) && u > a implies t <= u by {
                    let j = choose|j: int| 0 <= j < s.len() && #[trigger] s[j].0 == u;
                    if j < k {
                        assert(s[j].0 <= a);
                    } else if j > k {
                        assert(s[k].0 < s[j].0);
                    }
                }
            },
            None => {
                assert forall|u: int| self.spec_contains(u) implies u <= a by {
                    let j = choose|j: int| 0 <= j < s.len() && #[trigger] s[j].0 == u;
                    assert(s[j].0 <= a);
                }
            },
        }
    }

    /// In a well-formed list, the entry index at a height is unique, so
    /// `spec_hash_at` names the hash of any entry at that height.
    pub proof fn lemma_hash_at_entry(self, i: int)
        requires
            self.wf(),
            0 <= i < self.entries().len(),
        ensures
            self.spec_hash_at(self.entries()[i].0 as int) == Some(self.entries()[i].1),
    {
        let s = self.entries();
        let h = s[i].0 as int;
        assert(self.spec_contains(h));
        let j = choose|j: int| 0 <= j < s.len() && #[trigger] s[j].0 == h;
        if i < j {
            assert(s[i].0 < s[j].0);
        } else if j < i {
            assert(s[j].0 < s[i].0);
        }
    }

    /// Builds the list from height/hash pairs.
    ///
    /// Fails with `EmptyList` on no pairs at all, with `DuplicateHeight`
    /// if two pairs share a height, and with `MissingGenesis` if height 0
    /// is absent; otherwise the result holds exactly the given pairs.
    pub fn new(items: Vec<(Height, BlockHash)>) -> (r: Result<CheckpointList, ListError>)
        ensures
            r == Err::<CheckpointList, ListError>(ListError::EmptyList) <==> items@.len() == 0,
            r == Err::<CheckpointList, ListError>(ListError::DuplicateHeight) <==> items@.len()
                > 0 && has_dup_height(items@),
            r == Err::<CheckpointList, ListError>(ListError::MissingGenesis) <==> items@.len() > 0
                && !has_dup_height(items@) && !has_height(items@, 0),
            r is Ok <==> items@.len() > 0 && !has_dup_height(items@) && has_height(items@, 0),
            r is Ok ==> r->Ok_0.wf() && same_pairs(items@, r->Ok_0.entries()),
            r is Ok ==> forall|x: int| r->Ok_0.spec_contains(x) <==> has_height(items@, x),
            r is Ok ==> forall|j: int|
                0 <= j < items@.len() ==> r->Ok_0.spec_hash_at(#[trigger] items@[j].0 as int)
                    == Some(items@[j].1),
    {
        if items.len() == 0 {
            return Err(ListError::EmptyList);
        }
        let ghost full = items@;
        let mut v: Vec<(Height, BlockHash)> = Vec::new();
        let mut idx: usize = 0;
        while idx < items.len()
            invariant
                0 <= idx <= items@.len(),
                items@ == full,
                v@.len() == idx,
                forall|i: int, j: int|
                    0 <= i < j < v@.len() ==> #[trigger] v@[i].0 < #[trigger] v@[j].0,
                same_pairs(v@, items@.take(idx as int)),
                !has_dup_height(items@.take(idx as int)),
            decreases items@.len() - idx,
        {
            let (h, x) = items[idx];
            let ghost prefix = items@.take(idx as int);
            proof {
                assert(items@.take(idx as int + 1) =~= prefix.push((h, x)));
            }
            let mut pos: usize = 0;
            while pos < v.len() && v[pos].0 < h
                invariant
                    0 <= pos <= v@.len(),
                    forall|j: int| 0 <= j < pos ==> #[trigger] v@[j].0 < h,
                decreases v@.len() - pos,
            {
                pos = pos + 1;
            }
            if pos < v.len() && v[pos].0 == h {
                proof {
                    // the height already sits in v, hence in the prefix,
                    // so the full input repeats it
                    assert(v@.contains(v@[pos as int]));
                    assert(prefix.contains(v@[pos as int]));
                    let i = choose|i: int|
                        0 <= i < prefix.len() && #[trigger] prefix[i] == v@[pos as int];
                    assert(items@[i] == prefix[i]);
                    assert(items@[i].0 == items@[idx as int].0);
                    assert(has_dup_height(items@));
                }
                return Err(ListError::DuplicateHeight);
            }
            proof {
                // h is nowhere in v: below pos the heights are smaller,
                // at and above pos they are larger
                assert forall|j: int| 0 <= j < v@.len() implies #[trigger] v@[j].0 != h by {
                    if j >= pos {
                        if pos < v@.len() {
                            assert(v@[pos as int].0 >= h);
                            assert(v@[pos as int].0 != h);
                            if j > pos {
                                assert(v@[pos as int].0 < v@[j].0);
                            }
                        }
                    }
                }
            }
            let ghost oldv = v@;
            v.insert(pos, (h, x));
            proof {
                oldv.insert_ensures(pos as int, (h, x));
                // sortedness of the new vector
                assert forall|i: int, j: int|
                    0 <= i < j < v@.len() implies #[trigger] v@[i].0 < #[trigger] v@[j].0 by {
                    if j < pos {
                        assert(v@[i] == oldv[i] && v@[j] == oldv[j]);
                    } else if i > pos {
                        assert(v@[i] == oldv[i - 1] && v@[j] == oldv[j - 1]);
                    } else if i < pos && j == pos {
                        assert(v@[i] == oldv[i]);
                        assert(oldv[i].0 < h);
                    } else if i < pos && j > pos {
                        assert(v@[i] == oldv[i] && v@[j] == oldv[j - 1]);
                        if j - 1 == pos {
                            assert(oldv[i].0 < h);
                            assert(oldv[pos as int].0 > h);
                        }
                    } else if i == pos {
                        assert(v@[j] == oldv[j - 1]);
                        assert(oldv[j - 1].0 > h || j - 1 == pos);
                        if j - 1 == pos {
                            assert(oldv[pos as int].0 > h);
                        } else {
                            assert(oldv[pos as int].0 < oldv[j - 1].0);
                        }
                    }
                }
                // the pairs of the new vector are the prefix plus the item
                assert forall|p: (Height, BlockHash)| v@.contains(p) implies items@.take(
                    idx as int + 1,
                ).contains(p) by {
                    let i = choose|i: int| 0 <= i < v@.len() && #[trigger] v@[i] == p;
                    if i < pos {
                        assert(oldv[i] == p);
                        assert(oldv.contains(p));
                        assert(prefix.contains(p));
                        let k = choose|k: int| 0 <= k < prefix.len() && #[trigger] prefix[k] == p;
                        assert(items@.take(idx as int + 1)[k] == p);
                    } else if i == pos {
                        assert(items@.take(idx as int + 1)[idx as int] == p);
                    } else {
                        assert(oldv[i - 1] == p);
                        assert(oldv.contains(p));
                        assert(prefix.contains(p));
                        let k = choose|k: int| 0 <= k < prefix.len() && #[trigger] prefix[k] == p;
                        assert(items@.take(idx as int + 1)[k] == p);
                    }
                }
                assert forall|p: (Height, BlockHash)| items@.take(idx as int + 1).contains(
                    p,
                ) implies v@.contains(p) by {
                    let k = choose|k: int|
                        0 <= k < prefix.push((h, x)).len() && #[trigger] prefix.push((h, x))[k]
                            == p;
                    if k < prefix.len() {
                        assert(prefix[k] == p);
                        assert(oldv.contains(p));
                        let i = choose|i: int| 0 <= i < oldv.len() && #[trigger] oldv[i] == p;
                        if i < pos {
                            assert(v@[i] == p);
                        } else {
                            assert(v@[i + 1] == p);
                        }
                    } else {
                        assert(p == (h, x));
                        assert(v@[pos as int] == p);
                    }
                }
                // the extended prefix still has no repeated height
                assert(!has_dup_height(items@.take(idx as int + 1))) by {
                    let ext = items@.take(idx as int + 1);
                    if has_dup_height(ext) {
                        let (i, j) = choose|i: int, j: int|
                            0 <= i < j < ext.len() && #[trigger] ext[i].0 == #[trigger] ext[j].0;
                        if j < idx {
                            assert(prefix[i].0 == prefix[j].0);
                            assert(has_dup_height(prefix));
                        } else {
                            // the partner sits in the prefix and carries h,
                            // yet v holds every prefix height and h is new
                            assert(ext[i] == prefix[i]);
                            assert(prefix[i].0 == h);
                            assert(prefix.contains(prefix[i]));
                            assert(oldv.contains(prefix[i]));
                            let m = choose|m: int|
                                0 <= m < oldv.len() && #[trigger] oldv[m] == prefix[i];
                            assert(oldv[m].0 != h);
                        }
                    }
                }
            }
            idx = idx + 1;
        }
        proof {
            assert(items@.take(items@.len() as int) =~= items@);
        }
        if v[0].0 != 0 {
            proof {
                // v's first height is its least; if genesis were present
                // in the input it would be present in v, hence first
                if has_height(items@, 0) {
                    let i = choose|i: int| 0 <= i < items@.len() && #[trigger] items@[i].0 == 0;
                    assert(items@.contains(items@[i]));
                    assert(v@.contains(items@[i]));
                    let j = choose|j: int| 0 <= j < v@.len() && #[trigger] v@[j] == items@[i];
                    if j > 0 {
                        assert(v@[0].0 < v@[j].0);
                    }
                }
            }
            return Err(ListError::MissingGenesis);
        }
        proof {
            if !has_height(items@, 0) {
                assert(v@.contains(v@[0]));
                assert(items@.contains(v@[0]));
                let i = choose|i: int| 0 <= i < items@.len() && #[trigger] items@[i] == v@[0];
                assert(items@[i].0 == 0);
            }
        }
        let list = CheckpointList { entries: v };
        proof {
            // heights correspond: each side's pairs lie in the other
            assert forall|x: int| list.spec_contains(x) implies has_height(items@, x) by {
                let i = choose|i: int|
                    0 <= i < list.entries().len() && #[trigger] list.entries()[i].0 == x;
                assert(list.entries().contains(list.entries()[i]));
                assert(items@.contains(list.entries()[i]));
                let j = choose|j: int|
                    0 <= j < items@.len() && #[trigger] items@[j] == list.entries()[i];
            }
            assert forall|x: int| has_height(items@, x) implies list.spec_contains(x) by {
                let j = choose|j: int| 0 <= j < items@.len() && #[trigger] items@[j].0 == x;
                assert(items@.contains(items@[j]));
                assert(list.entries().contains(items@[j]));
                let i = choose|i: int|
                    0 <= i < list.entries().len() && #[trigger] list.entries()[i] == items@[j];
            }
            // and each given pair is what lookup by its height answers
            assert forall|j: int| 0 <= j < items@.len() implies list.spec_hash_at(
                #[trigger] items@[j].0 as int,
            ) == Some(items@[j].1) by {
                assert(items@.contains(items@[j]));
                assert(list.entries().contains(items@[j]));
                let i = choose|i: int|
                    0 <= i < list.entries().len() && #[trigger] list.entries()[i] == items@[j];
                list.lemma_hash_at_entry(i);
            }
        }
        Ok(list)
    }

    /// The largest checkpoint height: no checkpoint lies above it.
    pub fn max_height(&self) -> (r: Height)
        requires
            self.wf(),
        ensures
            r as int == self.spec_max_height(),
            self.spec_contains(r as int),
            forall|u: int| self.spec_contains(u) ==> u <= r as int,
    {
        let n = self.entries.len();
        let r = self.entries[n - 1].0;
        proof {
            let s = self.entries();
            assert(s[n - 1].0 == r);
            assert forall|u: int| self.spec_contains(u) implies u <= r as int by {
                let j = choose|j: int| 0 <= j < s.len() && #[trigger] s[j].0 == u;
                if j < n - 1 {
                    assert(s[j].0 < s[n - 1].0);
                }
            }
        }
        r
    }

    /// Whether `h` is a checkpoint height.
    pub fn contains(&self, h: Height) -> (r: bool)
        ensures
            r == self.spec_contains(h as int),
    {
        let mut i: usize = 0;
        while i < self.entries.len()
            invariant
                0 <= i <= self.entries().len(),
                forall|j: int| 0 <= j < i ==> #[trigger] self.entries()[j].0 != h,
            decreases self.entries().len() - i,
        {
            if self.entries[i].0 == h {
                return true;
            }
            i = i + 1;
        }
        false
    }

    /// The expected hash at height `h`, or nothing if `h` is no
    /// checkpoint height.
    pub fn hash_at(&self, h: Height) -> (r: Option<BlockHash>)
        requires
            self.wf(),
        ensures
            r == self.spec_hash_at(h as int),
    {
        let mut i: usize = 0;
        while i < self.entries.len()
            invariant
                self.wf(),
                0 <= i <= self.entries().len(),
                forall|j: int| 0 <= j < i ==> #[trigger] self.entries()[j].0 != h,
            decreases self.entries().len() - i,
        {
            if self.entries[i].0 == h {
                proof {
                    self.lemma_hash_at_entry(i as int);
                }
                return Some(self.entries[i].1);
            }
            i = i + 1;
        }
        None
    }

    /// The smallest checkpoint height strictly greater than `h`, if any.
    pub fn next_checkpoint_after(&self, h: Height) -> (r: Option<Height>)
        requires
            self.wf(),
        ensures
            match r {
                Some(t) => self.spec_next_after(h as int) == Some(t as int),
                None => self.spec_next_after(h as int) is None,
            },
    {
        let s = Ghost(self.entries());
        let mut i: usize = 0;
        while i < self.entries.len()
            invariant
                0 <= i <= self.entries().len(),
                s@ == self.entries(),
                idx_above(s@, h as int, 0) == idx_above(s@, h as int, i as int),
                forall|j: int| 0 <= j < i ==> #[trigger] s@[j].0 <= h,
            decreases self.entries().len() - i,
        {
            if self.entries[i].0 > h {
                return Some(self.entries[i].0);
            }
            i = i + 1;
        }
        None
    }
}

} // verus!
