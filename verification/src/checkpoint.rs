//! The checkpoint verifier service: orders and gates submitted blocks
//! along a trusted chain of checkpoints.
//!
//! Every operation returns the completion handles it resolved, each with
//! its one-shot outcome. The whole behaviour is pinned down by a
//! functional model: `spec_call` says, for any state and any submitted
//! block, exactly which state the verifier moves to and exactly which
//! handles resolve with what.

use vstd::prelude::*;
use crate::block::{Block, BlockHash, Height, pre_genesis_hash, spec_pre_genesis_hash};
use crate::checkpoint_list::{idx_above, CheckpointList, has_dup_height, has_height, same_pairs};
use crate::error::{ListError, VerifyError};
use crate::queue::{
    anchor_int, handles_distinct, has_entry_at, in_segment, lemma_rest_distinct,
    lemma_seg_distinct, lemma_split_membership, rest_of, seg_of, Entry, PendingQueue,
};
use crate::types::{progress_le, Progress, Target};

verus! {

/// One answer delivered by the verifier: a completion handle and the
/// outcome it resolves with — the block's hash on success, or the error
/// saying why verification failed.
#[derive(Clone, Copy, Debug, PartialEq, Eq)]
pub struct Resolution {
    /// The completion handle being resolved.
    pub handle: u64,
    /// Its one-shot outcome.
    pub outcome: Result<BlockHash, VerifyError>,
}

/// The mathematical state of a verifier, which the contracts speak of.
pub ghost struct VerifierModel {
    /// The most recently verified checkpoint.
    pub progress: Progress,
    /// The pending entries, in submission order.
    pub queue: Seq<Entry>,
    /// The handle the next submission will receive.
    pub next_handle: int,
    /// Whether teardown has begun.
    pub torn_down: bool,
}

/// The exclusive lower bound of the next segment: the height of the last
/// verified checkpoint, or one step below genesis.
pub open spec fn spec_anchor(list: CheckpointList, p: Progress) -> int {
    match p {
        Progress::BeforeGenesis => -1,
        Progress::PreviousCheckpoint(h) => h as int,
        Progress::FinalCheckpoint => list.spec_max_height(),
    }
}

/// The known-good hash that seeds back-link validation for the next
/// segment: the hash at the last verified checkpoint, or the all-zero
/// parent a genesis block declares.
pub open spec fn spec_anchor_hash(list: CheckpointList, p: Progress) -> BlockHash {
    match p {
        Progress::PreviousCheckpoint(h) => list.spec_hash_at(h as int)->Some_0,
        _ => spec_pre_genesis_hash(),
    }
}

/// The checkpoint height the verifier pursues next: the smallest
/// checkpoint height above the anchor. Meaningful while progress is not
/// final.
pub open spec fn spec_target(list: CheckpointList, p: Progress) -> int {
    list.spec_next_after(spec_anchor(list, p))->Some_0
}

/// The expected hash at the pursued checkpoint.
pub open spec fn spec_top_hash(list: CheckpointList, p: Progress) -> BlockHash {
    list.spec_hash_at(spec_target(list, p))->Some_0
}

/// The queue holds at least one entry at every height of `(a, t]`.
pub open spec fn spec_covered(q: Seq<Entry>, a: int, t: int) -> bool {
    forall|h: int| a < h <= t ==> has_entry_at(q, h)
}

/// The index of the first entry of `d` at or after `i` that sits at
/// height `h` and carries hash `x`.
pub open spec fn first_match(d: Seq<Entry>, h: int, x: BlockHash, i: int) -> Option<int>
    decreases d.len() - i,
{
    if i < 0 || i >= d.len() {
        None
    } else if d[i].block.height == h && d[i].block.hash == x {
        Some(i)
    } else {
        first_match(d, h, x, i + 1)
    }
}

/// The hash demanded of the candidate at height `h`, walking backward
/// from the target checkpoint `t` whose expected hash is `top`: at `t`
/// the checkpoint hash itself, below it the parent hash that the chosen
/// candidate one height up declares. Nothing, if the walk broke above.
pub open spec fn spec_want(d: Seq<Entry>, t: int, top: BlockHash, h: int) -> Option<BlockHash>
    decreases t - h,
{
    if h >= t {
        if h == t {
            Some(top)
        } else {
            None
        }
    } else {
        match spec_want(d, t, top, h + 1) {
            Some(x) => match first_match(d, h + 1, x, 0) {
                Some(i) => Some(d[i].block.previous_block_hash),
                None => None,
            },
            None => None,
        }
    }
}

/// The index of the entry chosen at height `h`: the first whose hash is
/// the one the walk demands there.
pub open spec fn spec_chosen(d: Seq<Entry>, t: int, top: BlockHash, h: int) -> Option<int> {
    match spec_want(d, t, top, h) {
        Some(x) => first_match(d, h, x, 0),
        None => None,
    }
}

/// A consistent candidate chain spans the whole segment: the walk reaches
/// the anchor demanding exactly the anchor's hash.
pub open spec fn spec_walk_ok(
    d: Seq<Entry>,
    a: int,
    t: int,
    top: BlockHash,
    anchor_hash: BlockHash,
) -> bool {
    spec_want(d, t, top, a) == Some(anchor_hash)
}

/// The next segment can close: progress is not final, every height of
/// the segment has a candidate, and a consistent chain exists among them.
pub open spec fn spec_closable(list: CheckpointList, p: Progress, q: Seq<Entry>) -> bool {
    &&& !(p is FinalCheckpoint)
    &&& spec_covered(q, spec_anchor(list, p), spec_target(list, p))
    &&& spec_walk_ok(
        seg_of(q, spec_anchor(list, p), spec_target(list, p)),
        spec_anchor(list, p),
        spec_target(list, p),
        spec_top_hash(list, p),
        spec_anchor_hash(list, p),
    )
}

/// How one drained entry resolves when its segment closes: the chosen
/// entry at each height resolves with its own hash; a loser at the
/// checkpoint height with the wrong hash resolves with a hash mismatch;
/// every other loser was superseded by the chosen peer at its height.
pub open spec fn spec_res_of(d: Seq<Entry>, t: int, top: BlockHash, j: int) -> Resolution {
    let e = d[j];
    if spec_chosen(d, t, top, e.block.height as int) == Some(j) {
        Resolution { handle: e.handle, outcome: Ok(e.block.hash) }
    } else if e.block.height == t && e.block.hash != top {
        Resolution { handle: e.handle, outcome: Err(VerifyError::CheckpointHashMismatch) }
    } else {
        Resolution { handle: e.handle, outcome: Err(VerifyError::SupersededByPeer) }
    }
}

/// The resolutions of a closing segment, one per drained entry, in
/// submission order.
pub open spec fn spec_close_out(d: Seq<Entry>, t: int, top: BlockHash) -> Seq<Resolution> {
    Seq::new(d.len(), |j: int| spec_res_of(d, t, top, j))
}

/// One segment close: progress advances to the target checkpoint (final
/// if it is the last), the segment's entries leave the queue, and each of
/// them resolves.
pub open spec fn spec_step(list: CheckpointList, p: Progress, q: Seq<Entry>) -> (
    Progress,
    Seq<Entry>,
    Seq<Resolution>,
) {
    let a = spec_anchor(list, p);
    let t = spec_target(list, p);
    (
        if t == list.spec_max_height() {
            Progress::FinalCheckpoint
        } else {
            Progress::PreviousCheckpoint(t as u32)
        },
        rest_of(q, a, t),
        spec_close_out(seg_of(q, a, t), t, spec_top_hash(list, p)),
    )
}

/// Closes segments as long as any can close, gathering every resolution;
/// what a verifying pass leaves behind.
pub open spec fn spec_run(list: CheckpointList, p: Progress, q: Seq<Entry>) -> (
    Progress,
    Seq<Entry>,
    Seq<Resolution>,
)
    decreases list.spec_max_height() - spec_anchor(list, p),
{
    let a = spec_anchor(list, p);
    let t = spec_target(list, p);
    if spec_closable(list, p, q) && a < t <= list.spec_max_height() {
        let s = spec_step(list, p, q);
        let r2 = spec_run(list, s.0, s.1);
        (r2.0, r2.1, s.2 + r2.2)
    } else {
        (p, q, Seq::empty())
    }
}

/// What one submission does, in full: the state the verifier moves to and
/// the resolutions it delivers, as a function of the state and the block.
///
/// A new handle is always allocated. After teardown it resolves at once
/// with `VerifierDropped`; after the final checkpoint, with
/// `AfterFinalCheckpoint`; at or below the anchor, with
/// `AlreadyVerified`; above the largest checkpoint, with
/// `BeyondMaxCheckpoint`. Otherwise the block joins the queue and every
/// segment that can now close does close.
pub open spec fn spec_call(list: CheckpointList, m: VerifierModel, block: Block) -> (
    VerifierModel,
    Seq<Resolution>,
) {
    let handle = m.next_handle as u64;
    let reject = |e: VerifyError|
        (
            VerifierModel {
                progress: m.progress,
                queue: m.queue,
                next_handle: m.next_handle + 1,
                torn_down: m.torn_down,
            },
            seq![Resolution { handle, outcome: Err(e) }],
        );
    if m.torn_down {
        reject(VerifyError::VerifierDropped)
    } else if m.progress is FinalCheckpoint {
        reject(VerifyError::AfterFinalCheckpoint)
    } else if block.height as int <= spec_anchor(list, m.progress) {
        reject(VerifyError::AlreadyVerified)
    } else if block.height as int > list.spec_max_height() {
        reject(VerifyError::BeyondMaxCheckpoint)
    } else {
        let q1 = m.queue.push(Entry { block, handle });
        let r = spec_run(list, m.progress, q1);
        (
            VerifierModel {
                progress: r.0,
                queue: r.1,
                next_handle: m.next_handle + 1,
                torn_down: false,
            },
            r.2,
        )
    }
}

/// A well-formed verifier state: the list is well-formed; a previous
/// checkpoint is a real, non-final one; every queued height lies in the
/// open-closed range from the anchor to the last checkpoint; and handles
/// are distinct and below the next one to hand out.
pub open spec fn wf_model(list: CheckpointList, m: VerifierModel) -> bool {
    &&& list.wf()
    &&& match m.progress {
        Progress::PreviousCheckpoint(h) => list.spec_contains(h as int) && (h as int)
            < list.spec_max_height(),
        _ => true,
    }
    &&& forall|i: int|
        0 <= i < m.queue.len() ==> spec_anchor(list, m.progress) < (
        #[trigger] m.queue[i].block.height as int) && m.queue[i].block.height as int
            <= list.spec_max_height()
    &&& handles_distinct(m.queue)
    &&& forall|i: int| 0 <= i < m.queue.len() ==> (#[trigger] m.queue[i].handle as int)
        < m.next_handle
    &&& 0 <= m.next_handle <= u64::MAX
}

/// Grants permission for exactly one submission; consumed by `call`.
pub struct ReadyToken {
    granted: bool,
}

/// The checkpoint verifier: admits blocks between the last verified
/// checkpoint and the end of the checkpoint list, buffers them by
/// height, and resolves each completion handle exactly once — with the
/// block's hash when a segment of back-linked candidates reaches the
/// next checkpoint, or with the error saying why not.
pub struct CheckpointVerifier {
    list: CheckpointList,
    progress: Progress,
    queue: PendingQueue,
    next_handle: u64,
    torn_down: bool,
}

impl CheckpointVerifier {
    /// The immutable checkpoint list the verifier was built from.
    pub closed spec fn spec_list(self) -> CheckpointList {
        self.list
    }

    /// The verifier's mathematical state.
    pub closed spec fn model(self) -> VerifierModel {
        VerifierModel {
            progress: self.progress,
            queue: self.queue.entries(),
            next_handle: self.next_handle as int,
            torn_down: self.torn_down,
        }
    }

    /// Validity: the model is well-formed for the list.
    pub open spec fn wf(self) -> bool {
        wf_model(self.spec_list(), self.model())
    }

    /// Builds a verifier over the given checkpoints. Fails exactly as
    /// checkpoint-list construction does; on success nothing is verified
    /// yet, the queue is empty, and handles start at zero.
    pub fn new(checkpoints: Vec<(Height, BlockHash)>) -> (r: Result<CheckpointVerifier, ListError>)
        ensures
            r is Ok <==> checkpoints@.len() > 0 && !has_dup_height(checkpoints@) && has_height(
                checkpoints@,
                0,
            ),
            r is Err ==> r->Err_0 == spec_new_err(checkpoints@),
            r is Ok ==> {
                let v = r->Ok_0;
                &&& v.wf()
                &&& same_pairs(checkpoints@, v.spec_list().entries())
                &&& (forall|x: int| v.spec_list().spec_contains(x) <==> has_height(
                    checkpoints@,
                    x,
                ))
                &&& (forall|j: int|
                    0 <= j < checkpoints@.len() ==> v.spec_list().spec_hash_at(
                        #[trigger] checkpoints@[j].0 as int,
                    ) == Some(checkpoints@[j].1))
                &&& v.model().progress == Progress::BeforeGenesis
                &&& v.model().queue == Seq::<Entry>::empty()
                &&& v.model().next_handle == 0
                &&& !v.model().torn_down
            },
    {
        match CheckpointList::new(checkpoints) {
            Ok(list) => Ok(
                CheckpointVerifier {
                    list,
                    progress: Progress::BeforeGenesis,
                    queue: PendingQueue::new(),
                    next_handle: 0,
                    torn_down: false,
                },
            ),
            Err(e) => Err(e),
        }
    }

    /// The most recently verified checkpoint. Takes the verifier by
    /// shared reference: inspection changes nothing.
    pub fn previous_checkpoint_height(&self) -> (r: Progress)
        ensures
            r == self.model().progress,
    {
        self.progress
    }

    /// What the verifier pursues: finished exactly when progress is
    /// final, otherwise waiting for the blocks that would close the next
    /// segment. Takes the verifier by shared reference: inspection
    /// changes nothing.
    pub fn target_checkpoint_height(&self) -> (r: Target)
        ensures
            r == (if self.model().progress is FinalCheckpoint {
                Target::FinishedVerifying
            } else {
                Target::WaitingForBlocks
            }),
    {
        match self.progress {
            Progress::FinalCheckpoint => Target::FinishedVerifying,
            _ => Target::WaitingForBlocks,
        }
    }

    /// The largest checkpoint height.
    pub fn checkpoint_list_max_height(&self) -> (r: Height)
        requires
            self.wf(),
        ensures
            r as int == self.spec_list().spec_max_height(),
    {
        self.list.max_height()
    }

    /// Readiness: grants a token for one submission. It refuses only
    /// after teardown, or once every handle has been spent; the verifier
    /// imposes no other back-pressure. A granted token witnesses the
    /// precondition of `call`.
    pub fn ready(&self) -> (r: Option<ReadyToken>)
        ensures
            r is Some <==> !self.model().torn_down && self.model().next_handle < u64::MAX,
    {
        if self.torn_down || self.next_handle == u64::MAX {
            None
        } else {
            Some(ReadyToken { granted: true })
        }
    }

    /// Teardown: resolves every pending handle with `VerifierDropped`,
    /// in submission order, empties the queue, and refuses readiness
    /// from here on. Progress stays where it was.
    pub fn teardown(&mut self) -> (out: Vec<Resolution>)
        requires
            old(self).wf(),
        ensures
            final(self).wf(),
            final(self).spec_list() == old(self).spec_list(),
            final(self).model().progress == old(self).model().progress,
            final(self).model().next_handle == old(self).model().next_handle,
            final(self).model().torn_down,
            final(self).model().queue == Seq::<Entry>::empty(),
            out@.len() == old(self).model().queue.len(),
            forall|k: int|
                0 <= k < out@.len() ==> out@[k] == (Resolution {
                    handle: old(self).model().queue[k].handle,
                    outcome: Err(VerifyError::VerifierDropped),
                }),
    {
        let entries = self.queue.drain_all();
        self.torn_down = true;
        let ghost q = entries@;
        let mut out: Vec<Resolution> = Vec::new();
        let mut i: usize = 0;
        while i < entries.len()
            invariant
                0 <= i <= q.len(),
                entries@ == q,
                out@.len() == i,
                forall|k: int|
                    0 <= k < i ==> out@[k] == (Resolution {
                        handle: q[k].handle,
                        outcome: Err(VerifyError::VerifierDropped),
                    }),
            decreases q.len() - i,
        {
            let e = entries[i];
            out.push(Resolution { handle: e.handle, outcome: Err(VerifyError::VerifierDropped) });
            i = i + 1;
        }
        out
    }
}

/// What `first_match` finds: the first entry from `i` on at height `h`
/// with hash `x`, and nothing exactly when there is none.
proof fn lemma_first_match(d: Seq<Entry>, h: int, x: BlockHash, i: int)
    requires
        0 <= i <= d.len(),
    ensures
        match first_match(d, h, x, i) {
            Some(j) => i <= j < d.len() && d[j].block.height == h && d[j].block.hash == x
                && forall|m: int|
                i <= m < j ==> !((#[trigger] d[m]).block.height == h && d[m].block.hash == x),
            None => forall|m: int|
                i <= m < d.len() ==> !((#[trigger] d[m]).block.height == h && d[m].block.hash
                    == x),
        },
    decreases d.len() - i,
{
    if i < d.len() {
        if !(d[i].block.height == h && d[i].block.hash == x) {
            lemma_first_match(d, h, x, i + 1);
        }
    }
}

/// Once the walk breaks, it stays broken all the way down.
proof fn lemma_want_none_below(d: Seq<Entry>, t: int, top: BlockHash, h: int, h2: int)
    requires
        spec_want(d, t, top, h) is None,
        h2 <= h < t,
    ensures
        spec_want(d, t, top, h2) is None,
    decreases h - h2,
{
    if h2 < h {
        lemma_want_none_below(d, t, top, h - 1, h2);
    }
}

/// Finds the first entry of `seg` at height `h` carrying hash `x`.
fn find_first_match(seg: &Vec<Entry>, h: Height, x: BlockHash) -> (r: Option<usize>)
    ensures
        match r {
            Some(j) => j < seg@.len() && first_match(seg@, h as int, x, 0) == Some(j as int),
            None => first_match(seg@, h as int, x, 0) is None,
        },
{
    let mut j: usize = 0;
    while j < seg.len()
        invariant
            0 <= j <= seg@.len(),
            first_match(seg@, h as int, x, 0) == first_match(seg@, h as int, x, j as int),
        decreases seg@.len() - j,
    {
        let e = seg[j];
        if e.block.height == h && e.block.hash == x {
            return Some(j);
        }
        j = j + 1;
    }
    None
}

/// Whether some entry of `seg` before index `upto` sits at height `h`
/// with hash `x`.
fn has_earlier_match(seg: &Vec<Entry>, upto: usize, h: Height, x: BlockHash) -> (r: bool)
    requires
        upto <= seg@.len(),
    ensures
        r == exists|m: int|
            0 <= m < upto && (#[trigger] seg@[m]).block.height == h && seg@[m].block.hash == x,
{
    let mut m: usize = 0;
    while m < upto
        invariant
            0 <= m <= upto,
            upto <= seg@.len(),
            forall|i: int|
                0 <= i < m ==> !((#[trigger] seg@[i]).block.height == h && seg@[i].block.hash
                    == x),
        decreases upto - m,
    {
        let e = seg[m];
        if e.block.height == h && e.block.hash == x {
            return true;
        }
        m = m + 1;
    }
    false
}

impl CheckpointVerifier {
    /// Attempts to close the segment from the anchor to the next
    /// checkpoint. Says whether it closed; on a close it appends the
    /// segment's resolutions to `out`, removes the segment's entries, and
    /// advances progress — exactly one `spec_step`. Otherwise it changes
    /// nothing.
    fn try_close(&mut self, out: &mut Vec<Resolution>) -> (closed: bool)
        requires
            old(self).wf(),
        ensures
            final(self).wf(),
            final(self).spec_list() == old(self).spec_list(),
            final(self).model().next_handle == old(self).model().next_handle,
            final(self).model().torn_down == old(self).model().torn_down,
            closed == spec_closable(
                old(self).spec_list(),
                old(self).model().progress,
                old(self).model().queue,
            ),
            closed ==> ({
                let s = spec_step(
                    old(self).spec_list(),
                    old(self).model().progress,
                    old(self).model().queue,
                );
                &&& final(self).model().progress == s.0
                &&& final(self).model().queue == s.1
                &&& final(out)@ == old(out)@ + s.2
            }),
            !closed ==> final(self).model() == old(self).model() && final(out)@ == old(out)@,
    {
        let ghost list = self.list;
        let ghost p = self.progress;
        let ghost q = self.queue.entries();
        let ghost a = spec_anchor(list, p);

        // the anchor: the last verified checkpoint, or the pre-genesis
        // sentinel whose hash is all zero
        let (anchor, anchor_hash): (Option<Height>, BlockHash) = match self.progress {
            Progress::FinalCheckpoint => {
                return false;
            },
            Progress::BeforeGenesis => (None, pre_genesis_hash()),
            Progress::PreviousCheckpoint(h) => {
                match self.list.hash_at(h) {
                    Some(x) => (Some(h), x),
                    None => {
                        proof {
                            assert(false);  // well-formedness: h is a checkpoint height
                        }
                        return false;
                    },
                }
            },
        };
        proof {
            assert(anchor_int(anchor) == a);
            assert(anchor_hash == spec_anchor_hash(list, p));
            // the largest checkpoint height is a checkpoint
            assert(list.entries()[list.entries().len() - 1].0 as int == list.spec_max_height());
            assert(list.spec_contains(list.spec_max_height()));
        }

        // the target: the next checkpoint above the anchor
        let t: Height = match anchor {
            None => {
                proof {
                    assert(idx_above(list.entries(), -1, 0) == 0);
                }
                0
            },
            Some(h) => {
                match self.list.next_checkpoint_after(h) {
                    Some(t) => t,
                    None => {
                        proof {
                            self.list.lemma_next_after(h as int);
                            assert(false);  // the largest checkpoint lies above the anchor
                        }
                        return false;
                    },
                }
            },
        };
        proof {
            assert(t as int == spec_target(list, p));
            self.list.lemma_next_after(a);
            assert(a < t as int);
            assert(list.spec_contains(t as int));
            // every checkpoint height is at most the largest
            assert forall|u: int| list.spec_contains(u) implies u <= list.spec_max_height() by {
                let s = list.entries();
                let j = choose|j: int| 0 <= j < s.len() && #[trigger] s[j].0 == u;
                if j < s.len() - 1 {
                    assert(s[j].0 < s[s.len() - 1].0);
                }
            }
        }
        let top: BlockHash = match self.list.hash_at(t) {
            Some(x) => x,
            None => {
                proof {
                    assert(false);  // the target is a checkpoint height
                }
                return false;
            },
        };
        proof {
            assert(top == spec_top_hash(list, p));
        }

        // coverage: every height of the segment needs a candidate
        let start: u64 = match anchor {
            None => 0,
            Some(x) => x as u64 + 1,
        };
        proof {
            assert(start as int == a + 1);
        }
        let mut hh: u64 = start;
        while hh <= t as u64
            invariant
                self.wf(),
                start as int == a + 1,
                start <= hh <= t as u64 + 1,
                t as int == spec_target(list, p),
                a == spec_anchor(list, p),
                p == self.model().progress,
                list == self.spec_list(),
                q == self.queue.entries(),
                forall|x: int| a < x < hh as int ==> has_entry_at(q, x),
            decreases t as u64 + 1 - hh,
        {
            if !self.queue.has_height(hh as u32) {
                proof {
                    assert(hh as u32 as int == hh as int);
                    assert(!has_entry_at(q, hh as int));
                    assert(a < hh as int <= t as int);
                    assert(!spec_covered(q, a, t as int));
                }
                return false;
            }
            hh = hh + 1;
        }
        proof {
            assert(spec_covered(q, a, t as int));
        }

        // the walk: from the target down, demand at each height the hash
        // that the chosen candidate one height up declares as its parent
        let seg: Vec<Entry> = self.queue.collect_segment(anchor, t);
        let ghost d = seg@;
        let span: u64 = t as u64 + 1 - start;
        let mut wants: Vec<BlockHash> = Vec::new();
        let mut expected: BlockHash = top;
        let mut k: u64 = 0;
        while k < span
            invariant
                self.wf(),
                p == self.model().progress,
                list == self.spec_list(),
                q == self.queue.entries(),
                0 <= k <= span,
                span as int == t as int - a,
                start as int == a + 1,
                a == spec_anchor(list, p),
                d == seg@,
                d == seg_of(q, a, t as int),
                t as int == spec_target(list, p),
                top == spec_top_hash(list, p),
                anchor_hash == spec_anchor_hash(list, p),
                wants@.len() == k,
                spec_want(d, t as int, top, t as int - k) == Some(expected),
                forall|m: int|
                    0 <= m < k ==> spec_want(d, t as int, top, t as int - m) == Some(wants@[m]),
            decreases span - k,
        {
            let hcur: u32 = (t as u64 - k) as u32;
            match find_first_match(&seg, hcur, expected) {
                Some(j) => {
                    wants.push(expected);
                    proof {
                        assert(spec_want(d, t as int, top, t as int - (k + 1)) == Some(
                            d[j as int].block.previous_block_hash,
                        ));
                    }
                    expected = seg[j].block.previous_block_hash;
                },
                None => {
                    proof {
                        assert(spec_want(d, t as int, top, t as int - k - 1) is None);
                        if t as int - k - 1 > a {
                            lemma_want_none_below(d, t as int, top, t as int - k - 1, a);
                        }
                        assert(spec_want(d, t as int, top, a) is None);
                        assert(!spec_closable(list, p, q));
                    }
                    return false;
                },
            }
            k = k + 1;
        }
        proof {
            assert(spec_want(d, t as int, top, a) == Some(expected));
        }
        if expected != anchor_hash {
            proof {
                assert(!spec_walk_ok(d, a, t as int, top, spec_anchor_hash(list, p)));
                assert(!spec_closable(list, p, q));
            }
            return false;
        }
        proof {
            assert(spec_walk_ok(d, a, t as int, top, spec_anchor_hash(list, p)));
            assert(spec_closable(list, p, q));
        }

        // the segment closes: drain it and resolve every entry
        let drained: Vec<Entry> = self.queue.drain_segment(anchor, t);
        proof {
            assert(drained@ == d);
            lemma_split_membership(q, a, t as int);
            assert forall|x: int| 0 <= x < d.len() implies a < (
            #[trigger] d[x].block.height as int) <= t as int by {
                assert(in_segment(d[x], a, t as int));
            }
        }
        let ghost out0 = out@;
        let mut jj: usize = 0;
        while jj < drained.len()
            invariant
                0 <= jj <= d.len(),
                drained@ == d,
                wants@.len() == span,
                span as int == t as int - a,
                forall|m: int|
                    0 <= m < span ==> spec_want(d, t as int, top, t as int - m) == Some(wants@[m]),
                forall|x: int|
                    0 <= x < d.len() ==> a < (#[trigger] d[x].block.height as int) <= t as int,
                out@ == out0 + Seq::new(jj as nat, |x: int| spec_res_of(d, t as int, top, x)),
            decreases d.len() - jj,
        {
            let e = drained[jj];
            let kidx: u64 = t as u64 - e.block.height as u64;
            let w: BlockHash = wants[kidx as usize];
            proof {
                assert(t as int - kidx as int == e.block.height as int);
                assert(spec_want(d, t as int, top, e.block.height as int) == Some(w));
            }
            let dup = has_earlier_match(&drained, jj, e.block.height, w);
            let chosen_here = e.block.hash == w && !dup;
            proof {
                lemma_first_match(d, e.block.height as int, w, 0);
                if chosen_here {
                    match first_match(d, e.block.height as int, w, 0) {
                        Some(j2) => {
                            if j2 < jj as int {
                                assert(d[j2].block.height == e.block.height && d[j2].block.hash
                                    == w);
                            }
                            assert(j2 == jj as int);
                        },
                        None => {
                            assert(!(d[jj as int].block.height == e.block.height as int
                                && d[jj as int].block.hash == w));
                        },
                    }
                    assert(spec_chosen(d, t as int, top, e.block.height as int) == Some(
                        jj as int,
                    ));
                } else {
                    if e.block.hash == w {
                        let m = choose|m: int|
                            0 <= m < jj && (#[trigger] d[m]).block.height == e.block.height
                                && d[m].block.hash == w;
                        match first_match(d, e.block.height as int, w, 0) {
                            Some(j2) => {
                                if j2 > m {
                                    assert(!(d[m].block.height == e.block.height as int
                                        && d[m].block.hash == w));
                                }
                                assert(j2 <= m < jj as int);
                            },
                            None => {
                                assert(!(d[m].block.height == e.block.height as int
                                    && d[m].block.hash == w));
                            },
                        }
                    }
                    assert(spec_chosen(d, t as int, top, e.block.height as int) != Some(
                        jj as int,
                    ));
                }
            }
            let res = if chosen_here {
                Resolution { handle: e.handle, outcome: Ok(e.block.hash) }
            } else if e.block.height == t && e.block.hash != top {
                Resolution { handle: e.handle, outcome: Err(VerifyError::CheckpointHashMismatch) }
            } else {
                Resolution { handle: e.handle, outcome: Err(VerifyError::SupersededByPeer) }
            };
            proof {
                assert(res == spec_res_of(d, t as int, top, jj as int));
            }
            out.push(res);
            proof {
                assert(Seq::new((jj + 1) as nat, |x: int| spec_res_of(d, t as int, top, x))
                    =~= Seq::new(jj as nat, |x: int| spec_res_of(d, t as int, top, x)).push(
                    spec_res_of(d, t as int, top, jj as int),
                ));
            }
            jj = jj + 1;
        }
        proof {
            assert(out@ == out0 + spec_close_out(d, t as int, top));
        }

        // advance progress to the target checkpoint
        let maxh = self.list.max_height();
        if t == maxh {
            self.progress = Progress::FinalCheckpoint;
        } else {
            self.progress = Progress::PreviousCheckpoint(t);
        }
        proof {
            let p2 = self.progress;
            assert(spec_anchor(list, p2) == t as int);
            let qr = self.queue.entries();
            assert(qr == rest_of(q, a, t as int));
            lemma_rest_distinct(q, a, t as int);
            assert forall|i: int|
                0 <= i < qr.len() implies spec_anchor(list, p2) < (
            #[trigger] qr[i].block.height as int) && qr[i].block.height as int
                <= list.spec_max_height() by {
                assert(q.contains(qr[i]) && !in_segment(qr[i], a, t as int));
                let m = choose|m: int| 0 <= m < q.len() && #[trigger] q[m] == qr[i];
            }
            assert forall|i: int| 0 <= i < qr.len() implies (#[trigger] qr[i].handle as int)
                < self.model().next_handle by {
                assert(q.contains(qr[i]) && !in_segment(qr[i], a, t as int));
                let m = choose|m: int| 0 <= m < q.len() && #[trigger] q[m] == qr[i];
            }
            assert(self.wf());
        }
        true
    }

    /// Submits one block, consuming a readiness token. Returns the fresh
    /// completion handle allocated to this submission, and every
    /// resolution the submission caused — possibly including the fresh
    /// handle itself, and the handles of any entries whose segments the
    /// new block let close.
    ///
    /// The whole effect equals `spec_call` on the prior state: rejections
    /// (torn down, after the final checkpoint, at or below the anchor,
    /// beyond the largest checkpoint) resolve the fresh handle at once
    /// and leave the rest untouched; otherwise the block joins the queue
    /// and segments close while they can. Progress never regresses.
    pub fn call(&mut self, _token: ReadyToken, block: Block) -> (r: (u64, Vec<Resolution>))
        requires
            old(self).wf(),
            old(self).model().next_handle < u64::MAX,
        ensures
            final(self).wf(),
            final(self).spec_list() == old(self).spec_list(),
            r.0 as int == old(self).model().next_handle,
            final(self).model() == spec_call(old(self).spec_list(), old(self).model(), block).0,
            r.1@ == spec_call(old(self).spec_list(), old(self).model(), block).1,
            progress_le(old(self).model().progress, final(self).model().progress),
    {
        let ghost list = self.list;
        let ghost m0 = self.model();
        let handle: u64 = self.next_handle;
        self.next_handle = self.next_handle + 1;
        let mut out: Vec<Resolution> = Vec::new();

        if self.torn_down {
            out.push(Resolution { handle, outcome: Err(VerifyError::VerifierDropped) });
            proof {
                assert(out@ =~= spec_call(list, m0, block).1);
            }
            return (handle, out);
        }
        let is_final = match self.progress {
            Progress::FinalCheckpoint => true,
            _ => false,
        };
        if is_final {
            out.push(Resolution { handle, outcome: Err(VerifyError::AfterFinalCheckpoint) });
            proof {
                assert(out@ =~= spec_call(list, m0, block).1);
            }
            return (handle, out);
        }
        let at_or_below_anchor = match self.progress {
            Progress::BeforeGenesis => false,
            Progress::PreviousCheckpoint(h) => block.height <= h,
            Progress::FinalCheckpoint => false,
        };
        if at_or_below_anchor {
            out.push(Resolution { handle, outcome: Err(VerifyError::AlreadyVerified) });
            proof {
                assert(out@ =~= spec_call(list, m0, block).1);
            }
            return (handle, out);
        }
        let maxh = self.list.max_height();
        if block.height > maxh {
            out.push(Resolution { handle, outcome: Err(VerifyError::BeyondMaxCheckpoint) });
            proof {
                assert(out@ =~= spec_call(list, m0, block).1);
            }
            return (handle, out);
        }

        // admit the block and close whatever can close
        self.queue.insert(Entry { block, handle });
        let ghost p0 = self.progress;
        let ghost q0 = self.queue.entries();
        proof {
            assert(q0 == m0.queue.push(Entry { block, handle }));
            assert forall|i: int, j: int|
                0 <= i < j < q0.len() implies #[trigger] q0[i].handle
                != #[trigger] q0[j].handle by {
                if j < q0.len() - 1 {
                    assert(q0[i] == m0.queue[i] && q0[j] == m0.queue[j]);
                } else {
                    assert(q0[i] == m0.queue[i]);
                    assert((q0[i].handle as int) < m0.next_handle);
                }
            }
            assert(self.wf());
            // the largest checkpoint height is non-negative: genesis is 0
            assert(list.entries()[0].0 == 0);
            if list.entries().len() > 1 {
                assert(list.entries()[0].0 < list.entries()[list.entries().len() - 1].0);
            }
            assert(list.spec_max_height() >= 0);
        }
        loop
            invariant_except_break
                self.wf(),
                self.spec_list() == list,
                self.model().next_handle == m0.next_handle + 1,
                self.model().torn_down == false,
                list.spec_max_height() >= 0,
                spec_run(list, p0, q0).0 == spec_run(
                    list,
                    self.model().progress,
                    self.model().queue,
                ).0,
                spec_run(list, p0, q0).1 == spec_run(
                    list,
                    self.model().progress,
                    self.model().queue,
                ).1,
                spec_run(list, p0, q0).2 == out@ + spec_run(
                    list,
                    self.model().progress,
                    self.model().queue,
                ).2,
                progress_le(m0.progress, self.model().progress),
            ensures
                self.wf(),
                self.spec_list() == list,
                self.model().next_handle == m0.next_handle + 1,
                self.model().torn_down == false,
                spec_run(list, p0, q0).0 == self.model().progress,
                spec_run(list, p0, q0).1 == self.model().queue,
                spec_run(list, p0, q0).2 == out@,
                progress_le(m0.progress, self.model().progress),
            decreases list.spec_max_height() - spec_anchor(list, self.model().progress),
        {
            let ghost pc = self.model().progress;
            let ghost qc = self.model().queue;
            let ghost out_before = out@;
            let closed = self.try_close(&mut out);
            if !closed {
                proof {
                    // nothing can close: the run is already at its end
                    assert(spec_run(list, pc, qc) == (pc, qc, Seq::<Resolution>::empty()));
                    assert(out@ + Seq::<Resolution>::empty() =~= out@);
                }
                break;
            }
            proof {
                // one step of the run happened; splice it in
                let ac = spec_anchor(list, pc);
                let tc = spec_target(list, pc);
                self.list.lemma_next_after(ac);
                assert forall|u: int| list.spec_contains(u) implies u
                    <= list.spec_max_height() by {
                    let s = list.entries();
                    let j = choose|j: int| 0 <= j < s.len() && #[trigger] s[j].0 == u;
                    if j < s.len() - 1 {
                        assert(s[j].0 < s[s.len() - 1].0);
                    }
                }
                assert(list.entries()[list.entries().len() - 1].0 as int
                    == list.spec_max_height());
                assert(list.spec_contains(list.spec_max_height()));
                assert(ac < tc <= list.spec_max_height());
                let s = spec_step(list, pc, qc);
                assert(spec_run(list, pc, qc) == (
                    spec_run(list, s.0, s.1).0,
                    spec_run(list, s.0, s.1).1,
                    s.2 + spec_run(list, s.0, s.1).2,
                ));
                assert(out_before + (s.2 + spec_run(list, s.0, s.1).2) =~= (out_before + s.2)
                    + spec_run(list, s.0, s.1).2);
                // progress still only moved forward
                assert(progress_le(pc, s.0));
                crate::types::lemma_progress_le_trans(m0.progress, pc, s.0);
            }
        }
        proof {
            assert(final(self).model() == spec_call(list, m0, block).0);
            assert(out@ == spec_call(list, m0, block).1);
        }
        (handle, out)
    }
}

/// Some entry of `q` carries handle `h`.
pub open spec fn handle_in(q: Seq<Entry>, h: u64) -> bool {
    exists|i: int| 0 <= i < q.len() && #[trigger] q[i].handle == h
}

/// Some resolution of `out` resolves handle `h`.
pub open spec fn handle_res(out: Seq<Resolution>, h: u64) -> bool {
    exists|k: int| 0 <= k < out.len() && #[trigger] out[k].handle == h
}

/// The resolution answers an entry of `q`: its handle is that entry's,
/// and if it succeeds it carries that entry's own block hash.
pub open spec fn res_from(q: Seq<Entry>, r: Resolution) -> bool {
    exists|i: int|
        0 <= i < q.len() && (#[trigger] q[i]).handle == r.handle && (r.outcome is Ok
            ==> r.outcome == Ok::<BlockHash, VerifyError>(q[i].block.hash))
}

/// What a verifying pass does with handles. Every resolution it delivers
/// answers a queued entry — successes with that entry's own hash; every
/// entry it keeps was queued; every queued entry is either kept or
/// resolved; kept entries keep distinct handles, no kept handle is also
/// resolved, and no handle is resolved twice.
pub proof fn lemma_run_resolutions(list: CheckpointList, p: Progress, q: Seq<Entry>)
    requires
        handles_distinct(q),
    ensures
        ({
            let r = spec_run(list, p, q);
            &&& forall|k: int| 0 <= k < r.2.len() ==> res_from(q, #[trigger] r.2[k])
            &&& forall|j: int| 0 <= j < r.1.len() ==> q.contains(#[trigger] r.1[j])
            &&& forall|i: int|
                0 <= i < q.len() ==> r.1.contains(#[trigger] q[i]) || handle_res(
                    r.2,
                    q[i].handle,
                )
            &&& handles_distinct(r.1)
            &&& forall|j: int, k: int|
                #![trigger r.1[j], r.2[k]]
                0 <= j < r.1.len() && 0 <= k < r.2.len() ==> r.1[j].handle != r.2[k].handle
            &&& forall|k1: int, k2: int|
                #![trigger r.2[k1], r.2[k2]]
                0 <= k1 < k2 < r.2.len() ==> r.2[k1].handle != r.2[k2].handle
        }),
    decreases list.spec_max_height() - spec_anchor(list, p),
{
    let a = spec_anchor(list, p);
    let t = spec_target(list, p);
    let r = spec_run(list, p, q);
    if spec_closable(list, p, q) && a < t <= list.spec_max_height() {
        let d = seg_of(q, a, t);
        let rest = rest_of(q, a, t);
        let top = spec_top_hash(list, p);
        let s2 = spec_close_out(d, t, top);
        lemma_split_membership(q, a, t);
        lemma_seg_distinct(q, a, t);
        lemma_rest_distinct(q, a, t);
        let s = spec_step(list, p, q);
        assert(spec_anchor(list, s.0) == t);
        lemma_run_resolutions(list, s.0, rest);
        let r2 = spec_run(list, s.0, rest);
        assert(r.1 == r2.1 && r.2 == s2 + r2.2);
        assert(forall|k: int| 0 <= k < s2.len() ==> (#[trigger] s2[k]).handle == d[k].handle);

        // every resolution answers a queued entry, successes faithfully
        assert forall|k: int| 0 <= k < r.2.len() implies res_from(q, #[trigger] r.2[k]) by {
            if k < s2.len() {
                assert(r.2[k] == s2[k]);
                assert(q.contains(d[k]));
                let i = choose|i: int| 0 <= i < q.len() && #[trigger] q[i] == d[k];
                assert(q[i].handle == r.2[k].handle);
                assert(r.2[k].outcome is Ok ==> r.2[k].outcome == Ok::<BlockHash, VerifyError>(
                    q[i].block.hash,
                ));
            } else {
                assert(r.2[k] == r2.2[k - s2.len()]);
                assert(res_from(rest, r2.2[k - s2.len()]));
                let i2 = choose|i2: int|
                    0 <= i2 < rest.len() && (#[trigger] rest[i2]).handle == r2.2[k
                        - s2.len()].handle && (r2.2[k - s2.len()].outcome is Ok ==> r2.2[k
                        - s2.len()].outcome == Ok::<BlockHash, VerifyError>(
                        rest[i2].block.hash,
                    ));
                assert(q.contains(rest[i2]));
                let i = choose|i: int| 0 <= i < q.len() && #[trigger] q[i] == rest[i2];
                assert(q[i].handle == r.2[k].handle);
            }
        }

        // kept entries were queued
        assert forall|j: int| 0 <= j < r.1.len() implies q.contains(#[trigger] r.1[j]) by {
            assert(rest.contains(r2.1[j]));
            let i2 = choose|i2: int| 0 <= i2 < rest.len() && #[trigger] rest[i2] == r2.1[j];
            assert(q.contains(rest[i2]));
        }

        // every queued entry is kept or resolved
        assert forall|i: int|
            0 <= i < q.len() implies r.1.contains(#[trigger] q[i]) || handle_res(
            r.2,
            q[i].handle,
        ) by {
            if in_segment(q[i], a, t) {
                assert(d.contains(q[i]));
                let k = choose|k: int| 0 <= k < d.len() && #[trigger] d[k] == q[i];
                assert(r.2[k] == s2[k]);
                assert(r.2[k].handle == q[i].handle);
            } else {
                assert(rest.contains(q[i]));
                let j = choose|j: int| 0 <= j < rest.len() && #[trigger] rest[j] == q[i];
                if r2.1.contains(rest[j]) {
                } else {
                    assert(handle_res(r2.2, rest[j].handle));
                    let k2 = choose|k2: int|
                        0 <= k2 < r2.2.len() && (#[trigger] r2.2[k2]).handle == rest[j].handle;
                    assert(r.2[s2.len() + k2] == r2.2[k2]);
                    assert(handle_res(r.2, q[i].handle));
                }
            }
        }

        // no kept handle is also resolved
        assert forall|j: int, k: int|
            #![trigger r.1[j], r.2[k]]
            0 <= j < r.1.len() && 0 <= k < r.2.len() implies r.1[j].handle != r.2[k].handle by {
            if k < s2.len() {
                assert(rest.contains(r2.1[j]));
                let jr = choose|jr: int| 0 <= jr < rest.len() && #[trigger] rest[jr] == r2.1[j];
                if r.1[j].handle == r.2[k].handle {
                    assert(q.contains(rest[jr]));
                    assert(q.contains(d[k]));
                    let i1 = choose|i1: int| 0 <= i1 < q.len() && #[trigger] q[i1] == rest[jr];
                    let i2 = choose|i2: int| 0 <= i2 < q.len() && #[trigger] q[i2] == d[k];
                    assert(q[i1].handle == q[i2].handle);
                    assert(i1 == i2);
                    assert(in_segment(q[i2], a, t) && !in_segment(q[i1], a, t));
                }
            } else {
                assert(r.2[k] == r2.2[k - s2.len()]);
                assert(r.1[j] == r2.1[j]);
            }
        }

        // no handle is resolved twice
        assert forall|k1: int, k2: int|
            #![trigger r.2[k1], r.2[k2]]
            0 <= k1 < k2 < r.2.len() implies r.2[k1].handle != r.2[k2].handle by {
            if k2 < s2.len() {
                assert(r.2[k1] == s2[k1] && r.2[k2] == s2[k2]);
                assert(d[k1].handle != d[k2].handle);
            } else if k1 >= s2.len() {
                assert(r.2[k1] == r2.2[k1 - s2.len()] && r.2[k2] == r2.2[k2 - s2.len()]);
            } else {
                assert(r.2[k1] == s2[k1] && r.2[k2] == r2.2[k2 - s2.len()]);
                assert(res_from(rest, r2.2[k2 - s2.len()]));
                let i2 = choose|i2: int|
                    0 <= i2 < rest.len() && (#[trigger] rest[i2]).handle == r2.2[k2
                        - s2.len()].handle && (r2.2[k2 - s2.len()].outcome is Ok ==> r2.2[k2
                        - s2.len()].outcome == Ok::<BlockHash, VerifyError>(
                        rest[i2].block.hash,
                    ));
                if r.2[k1].handle == r.2[k2].handle {
                    assert(q.contains(rest[i2]));
                    assert(q.contains(d[k1]));
                    let m1 = choose|m1: int| 0 <= m1 < q.len() && #[trigger] q[m1] == d[k1];
                    let m2 = choose|m2: int| 0 <= m2 < q.len() && #[trigger] q[m2] == rest[i2];
                    assert(q[m1].handle == q[m2].handle);
                    assert(m1 == m2);
                    assert(in_segment(q[m1], a, t) && !in_segment(q[m2], a, t));
                }
            }
        }
    } else {
        assert(r.1 == q);
        assert(forall|i: int| 0 <= i < q.len() ==> r.1.contains(#[trigger] q[i]));
        assert(forall|j: int| 0 <= j < r.1.len() ==> q.contains(#[trigger] r.1[j]));
    }
}

/// What one submission does with handles, seen from outside. Every
/// resolution answers either the fresh handle — with the submitted
/// block's own hash if it succeeds — or a previously queued entry, with
/// that entry's own hash if it succeeds. No handle resolves twice in one
/// call, no kept handle is also resolved, kept handles stay distinct and
/// below the next fresh one.
pub proof fn lemma_call_resolutions(list: CheckpointList, m: VerifierModel, block: Block)
    requires
        handles_distinct(m.queue),
        forall|i: int| 0 <= i < m.queue.len() ==> (#[trigger] m.queue[i].handle as int)
            < m.next_handle,
        0 <= m.next_handle < u64::MAX,
    ensures
        ({
            let (m1, out) = spec_call(list, m, block);
            &&& m1.next_handle == m.next_handle + 1
            &&& forall|k: int| 0 <= k < out.len() ==> res_from(
                m.queue.push(Entry { block, handle: m.next_handle as u64 }),
                #[trigger] out[k],
            )
            &&& forall|k: int| 0 <= k < out.len() ==> ((#[trigger] out[k]).handle as int)
                < m1.next_handle
            &&& forall|k1: int, k2: int|
                #![trigger out[k1], out[k2]]
                0 <= k1 < k2 < out.len() ==> out[k1].handle != out[k2].handle
            &&& forall|j: int, k: int|
                #![trigger m1.queue[j], out[k]]
                0 <= j < m1.queue.len() && 0 <= k < out.len() ==> m1.queue[j].handle
                    != out[k].handle
            &&& handles_distinct(m1.queue)
            &&& forall|j: int| 0 <= j < m1.queue.len() ==> (#[trigger] m1.queue[j].handle as int)
                < m1.next_handle
        }),
{
    let fresh = Entry { block, handle: m.next_handle as u64 };
    let q1 = m.queue.push(fresh);
    assert(q1[q1.len() - 1] == fresh);
    assert(handles_distinct(q1)) by {
        assert forall|i: int, j: int|
            0 <= i < j < q1.len() implies #[trigger] q1[i].handle != #[trigger] q1[j].handle by {
            if j < q1.len() - 1 {
                assert(q1[i] == m.queue[i] && q1[j] == m.queue[j]);
            } else {
                assert(q1[i] == m.queue[i]);
                assert((q1[i].handle as int) < m.next_handle);
            }
        }
    }
    let (m1, out) = spec_call(list, m, block);
    if m.torn_down || m.progress is FinalCheckpoint || block.height as int <= spec_anchor(
        list,
        m.progress,
    ) || block.height as int > list.spec_max_height() {
        assert(out.len() == 1 && out[0].handle == m.next_handle as u64);
        assert(m1.queue == m.queue);
        assert(res_from(q1, out[0])) by {
            assert(q1[q1.len() - 1].handle == out[0].handle);
        }
        assert forall|j: int, k: int|
            #![trigger m1.queue[j], out[k]]
            0 <= j < m1.queue.len() && 0 <= k < out.len() implies m1.queue[j].handle
            != out[k].handle by {
            assert((m.queue[j].handle as int) < m.next_handle);
        }
    } else {
        lemma_run_resolutions(list, m.progress, q1);
        let r = spec_run(list, m.progress, q1);
        assert(m1.queue == r.1 && out == r.2);
        assert forall|k: int| 0 <= k < out.len() implies ((#[trigger] out[k]).handle as int)
            < m1.next_handle by {
            assert(res_from(q1, out[k]));
            let i = choose|i: int|
                0 <= i < q1.len() && (#[trigger] q1[i]).handle == out[k].handle && (
                out[k].outcome is Ok ==> out[k].outcome == Ok::<BlockHash, VerifyError>(
                    q1[i].block.hash,
                ));
            if i < q1.len() - 1 {
                assert(q1[i] == m.queue[i]);
            }
        }
        assert forall|j: int| 0 <= j < m1.queue.len() implies (
        #[trigger] m1.queue[j].handle as int) < m1.next_handle by {
            assert(q1.contains(m1.queue[j]));
            let i = choose|i: int| 0 <= i < q1.len() && #[trigger] q1[i] == m1.queue[j];
            if i < q1.len() - 1 {
                assert(q1[i] == m.queue[i]);
            }
        }
    }
}

/// One-shot resolution across consecutive submissions: no completion
/// handle that one submission resolves is ever resolved by the next.
/// With every resolved handle either kept out of the queue or fresh and
/// never reused, a handle resolves at most once over any sequence of
/// submissions.
pub proof fn lemma_one_shot_two_calls(
    list: CheckpointList,
    m: VerifierModel,
    b1: Block,
    b2: Block,
)
    requires
        handles_distinct(m.queue),
        forall|i: int| 0 <= i < m.queue.len() ==> (#[trigger] m.queue[i].handle as int)
            < m.next_handle,
        0 <= m.next_handle,
        m.next_handle + 1 < u64::MAX,
    ensures
        ({
            let (m1, out1) = spec_call(list, m, b1);
            let (m2, out2) = spec_call(list, m1, b2);
            forall|k1: int, k2: int|
                #![trigger out1[k1], out2[k2]]
                0 <= k1 < out1.len() && 0 <= k2 < out2.len() ==> out1[k1].handle
                    != out2[k2].handle
        }),
{
    lemma_call_resolutions(list, m, b1);
    let (m1, out1) = spec_call(list, m, b1);
    lemma_call_resolutions(list, m1, b2);
    let (m2, out2) = spec_call(list, m1, b2);
    assert forall|k1: int, k2: int|
        #![trigger out1[k1], out2[k2]]
        0 <= k1 < out1.len() && 0 <= k2 < out2.len() implies out1[k1].handle
        != out2[k2].handle by {
        // the later call resolves only handles still queued, or its own
        // fresh one; the earlier call's are neither
        let q2 = m1.queue.push(Entry { block: b2, handle: m1.next_handle as u64 });
        assert(res_from(q2, out2[k2]));
        let i = choose|i: int|
            0 <= i < q2.len() && (#[trigger] q2[i]).handle == out2[k2].handle && (
            out2[k2].outcome is Ok ==> out2[k2].outcome == Ok::<BlockHash, VerifyError>(
                q2[i].block.hash,
            ));
        if i < q2.len() - 1 {
            assert(q2[i] == m1.queue[i]);
            assert(m1.queue[i].handle != out1[k1].handle);
        } else {
            assert(out2[k2].handle == m1.next_handle as u64);
            assert((out1[k1].handle as int) < m1.next_handle);
        }
    }
}

/// Checkpoint boundary rejection: a block whose height exceeds the
/// largest checkpoint height is always rejected with
/// `BeyondMaxCheckpoint` — whatever else it looks like — and the state
/// is left as it was, but for the spent handle.
pub proof fn lemma_beyond_max_rejected(list: CheckpointList, m: VerifierModel, block: Block)
    requires
        !m.torn_down,
        !(m.progress is FinalCheckpoint),
        spec_anchor(list, m.progress) < list.spec_max_height(),
        block.height as int > list.spec_max_height(),
    ensures
        ({
            let (m1, out) = spec_call(list, m, block);
            &&& out == seq![
                Resolution {
                    handle: m.next_handle as u64,
                    outcome: Err(VerifyError::BeyondMaxCheckpoint),
                },
            ]
            &&& m1.progress == m.progress
            &&& m1.queue == m.queue
            &&& m1.next_handle == m.next_handle + 1
        }),
{
}

/// The final checkpoint is terminal: once progress reaches it, every
/// further submission is rejected with `AfterFinalCheckpoint` and the
/// state never moves again.
pub proof fn lemma_final_is_terminal(list: CheckpointList, m: VerifierModel, block: Block)
    requires
        !m.torn_down,
        m.progress is FinalCheckpoint,
    ensures
        ({
            let (m1, out) = spec_call(list, m, block);
            &&& m1.progress is FinalCheckpoint
            &&& m1.queue == m.queue
            &&& out == seq![
                Resolution {
                    handle: m.next_handle as u64,
                    outcome: Err(VerifyError::AfterFinalCheckpoint),
                },
            ]
        }),
{
}

/// Which construction error a given input earns: emptiness first, then a
/// repeated height, then a missing genesis.
pub open spec fn spec_new_err(items: Seq<(Height, BlockHash)>) -> ListError {
    if items.len() == 0 {
        ListError::EmptyList
    } else if has_dup_height(items) {
        ListError::DuplicateHeight
    } else {
        ListError::MissingGenesis
    }
}

} // verus!
