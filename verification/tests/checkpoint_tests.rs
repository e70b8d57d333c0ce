//! End-to-end tests of the checkpoint verifier service.

use checkpoint_verifier::block::{Block, BlockHash, Height};
use checkpoint_verifier::checkpoint::{CheckpointVerifier, Resolution};
use checkpoint_verifier::error::{ListError, VerifyError};
use checkpoint_verifier::types::{Progress, Target};

fn h(n: u64) -> BlockHash {
    BlockHash::new(n, n ^ 0xdead_beef, 0, 1)
}

fn zero_hash() -> BlockHash {
    BlockHash::new(0, 0, 0, 0)
}

fn blk(height: Height, hash: BlockHash, prev: BlockHash) -> Block {
    Block {
        height,
        hash,
        previous_block_hash: prev,
    }
}

fn submit(v: &mut CheckpointVerifier, b: Block) -> (u64, Vec<Resolution>) {
    let token = v.ready().expect("verifier should be ready");
    v.call(token, b)
}

#[test]
fn single_item_checkpoint_list_test() {
    let genesis_hash = h(100);
    let mut v = CheckpointVerifier::new(vec![(0, genesis_hash)]).expect("valid list");

    assert_eq!(v.previous_checkpoint_height(), Progress::BeforeGenesis);
    assert_eq!(v.target_checkpoint_height(), Target::WaitingForBlocks);
    assert_eq!(v.checkpoint_list_max_height(), 0);

    let block0 = blk(0, genesis_hash, zero_hash());
    let (handle, out) = submit(&mut v, block0);
    assert_eq!(handle, 0);
    assert_eq!(out.len(), 1);
    assert_eq!(out[0].handle, 0);
    assert_eq!(out[0].outcome, Ok(genesis_hash));

    assert_eq!(v.previous_checkpoint_height(), Progress::FinalCheckpoint);
    assert_eq!(v.target_checkpoint_height(), Target::FinishedVerifying);
    assert_eq!(v.checkpoint_list_max_height(), 0);
}

#[test]
fn multi_item_checkpoint_list_test() {
    let h0 = h(0);
    let h1 = h(1);
    let mut v = CheckpointVerifier::new(vec![(0, h0), (1, h1)]).expect("valid list");

    assert_eq!(v.previous_checkpoint_height(), Progress::BeforeGenesis);
    assert_eq!(v.target_checkpoint_height(), Target::WaitingForBlocks);
    assert_eq!(v.checkpoint_list_max_height(), 1);

    let (_, out0) = submit(&mut v, blk(0, h0, zero_hash()));
    assert_eq!(out0.len(), 1);
    assert_eq!(out0[0].outcome, Ok(h0));
    assert_eq!(v.previous_checkpoint_height(), Progress::PreviousCheckpoint(0));
    assert_eq!(v.target_checkpoint_height(), Target::WaitingForBlocks);

    let (_, out1) = submit(&mut v, blk(1, h1, h0));
    assert_eq!(out1.len(), 1);
    assert_eq!(out1[0].outcome, Ok(h1));
    assert_eq!(v.previous_checkpoint_height(), Progress::FinalCheckpoint);
    assert_eq!(v.target_checkpoint_height(), Target::FinishedVerifying);
    assert_eq!(v.checkpoint_list_max_height(), 1);
}

#[test]
fn continuous_blockchain_test() {
    // a chain of eleven blocks, checkpointed at heights 0, 5 and 10
    let hashes: Vec<BlockHash> = (0..11).map(|n| h(200 + n)).collect();
    let list = vec![(0, hashes[0]), (5, hashes[5]), (10, hashes[10])];
    let mut v = CheckpointVerifier::new(list).expect("valid list");

    assert_eq!(v.previous_checkpoint_height(), Progress::BeforeGenesis);
    assert_eq!(v.checkpoint_list_max_height(), 10);

    let mut resolved: Vec<Resolution> = Vec::new();
    for height in 0..11u32 {
        let prev = if height == 0 {
            zero_hash()
        } else {
            hashes[height as usize - 1]
        };
        let (handle, out) = submit(&mut v, blk(height, hashes[height as usize], prev));
        assert_eq!(handle, height as u64);
        resolved.extend(out);

        // progress advances exactly at the checkpoints
        let expected = match height {
            0..=4 => Progress::PreviousCheckpoint(0),
            5..=9 => Progress::PreviousCheckpoint(5),
            _ => Progress::FinalCheckpoint,
        };
        assert_eq!(v.previous_checkpoint_height(), expected);
        if height < 10 {
            assert_eq!(v.target_checkpoint_height(), Target::WaitingForBlocks);
        } else {
            assert_eq!(v.target_checkpoint_height(), Target::FinishedVerifying);
        }
    }

    // all eleven handles resolved, each exactly once, each with its own hash
    assert_eq!(resolved.len(), 11);
    for handle in 0..11u64 {
        let matches: Vec<&Resolution> = resolved.iter().filter(|r| r.handle == handle).collect();
        assert_eq!(matches.len(), 1);
        assert_eq!(matches[0].outcome, Ok(hashes[handle as usize]));
    }
}

#[test]
fn block_higher_than_max_checkpoint_fail_test() {
    let h0 = h(300);
    let mut v = CheckpointVerifier::new(vec![(0, h0)]).expect("valid list");

    let far = blk(415_000, h(415_000), h(414_999));
    let (handle, out) = submit(&mut v, far);
    assert_eq!(out.len(), 1);
    assert_eq!(out[0].handle, handle);
    assert_eq!(out[0].outcome, Err(VerifyError::BeyondMaxCheckpoint));

    // the state is unchanged
    assert_eq!(v.previous_checkpoint_height(), Progress::BeforeGenesis);
    assert_eq!(v.target_checkpoint_height(), Target::WaitingForBlocks);
    assert_eq!(v.checkpoint_list_max_height(), 0);
}

#[test]
fn wrong_checkpoint_hash_fail_test() {
    let good_hash = h(400);
    let bad_hash = h(666);
    let mut v = CheckpointVerifier::new(vec![(0, good_hash)]).expect("valid list");

    // two competing bad candidates stay pending: bad blocks are not
    // cleared until the chain is verified
    let bad = blk(0, bad_hash, zero_hash());
    let (bad1, out) = submit(&mut v, bad);
    assert!(out.is_empty());
    let (bad2, out) = submit(&mut v, bad);
    assert!(out.is_empty());
    assert_eq!(v.previous_checkpoint_height(), Progress::BeforeGenesis);
    assert_eq!(v.target_checkpoint_height(), Target::WaitingForBlocks);

    // the good candidate closes the segment and flushes the bad ones
    let good = blk(0, good_hash, zero_hash());
    let (good_handle, out) = submit(&mut v, good);
    assert_eq!(out.len(), 3);
    for r in &out {
        if r.handle == good_handle {
            assert_eq!(r.outcome, Ok(good_hash));
        } else {
            assert!(r.handle == bad1 || r.handle == bad2);
            assert_eq!(r.outcome, Err(VerifyError::CheckpointHashMismatch));
        }
    }
    assert_eq!(v.previous_checkpoint_height(), Progress::FinalCheckpoint);
    assert_eq!(v.target_checkpoint_height(), Target::FinishedVerifying);
}

#[test]
fn checkpoint_drop_cancel_test() {
    let h0 = h(500);
    let h1 = h(501);
    let h415000 = h(502);
    let h434873 = h(503);
    let list = vec![(0, h0), (1, h1), (415_000, h415000), (434_873, h434873)];
    let mut v = CheckpointVerifier::new(list).expect("valid list");
    assert_eq!(v.checkpoint_list_max_height(), 434_873);

    let blocks = [
        blk(0, h0, zero_hash()),
        blk(1, h1, h0),
        blk(415_000, h415000, h(999)),
        blk(434_873, h434873, h(998)),
    ];
    let mut outcomes: Vec<(u64, Vec<Resolution>)> = Vec::new();
    for b in blocks {
        let height = b.height;
        let (handle, out) = submit(&mut v, b);
        outcomes.push((handle, out));
        // only continuous checkpoints verify
        assert_eq!(
            v.previous_checkpoint_height(),
            Progress::PreviousCheckpoint(height.min(1))
        );
        assert_eq!(v.target_checkpoint_height(), Target::WaitingForBlocks);
    }

    // blocks 0 and 1 resolved with their hashes as their segments closed
    assert_eq!(outcomes[0].1.len(), 1);
    assert_eq!(outcomes[0].1[0].outcome, Ok(h0));
    assert_eq!(outcomes[1].1.len(), 1);
    assert_eq!(outcomes[1].1[0].outcome, Ok(h1));
    // the non-contiguous blocks stay pending
    assert!(outcomes[2].1.is_empty());
    assert!(outcomes[3].1.is_empty());

    // teardown cancels exactly the two pending handles
    let cancelled = v.teardown();
    assert_eq!(cancelled.len(), 2);
    assert_eq!(cancelled[0].handle, outcomes[2].0);
    assert_eq!(cancelled[0].outcome, Err(VerifyError::VerifierDropped));
    assert_eq!(cancelled[1].handle, outcomes[3].0);
    assert_eq!(cancelled[1].outcome, Err(VerifyError::VerifierDropped));

    // once torn down, the verifier refuses readiness
    assert!(v.ready().is_none());
}

#[test]
fn sparse_checkpoints_close_two_segments_at_once() {
    // submitting out of order: the block that completes the first
    // segment also lets the second close in the same call
    let h0 = h(600);
    let h1 = h(601);
    let h2 = h(602);
    let mut v = CheckpointVerifier::new(vec![(0, h0), (1, h1), (2, h2)]).expect("valid list");

    let (_, out) = submit(&mut v, blk(1, h1, h0));
    assert!(out.is_empty());
    let (_, out) = submit(&mut v, blk(2, h2, h1));
    assert!(out.is_empty());
    assert_eq!(v.previous_checkpoint_height(), Progress::BeforeGenesis);

    let (_, out) = submit(&mut v, blk(0, h0, zero_hash()));
    assert_eq!(out.len(), 3);
    assert_eq!(v.previous_checkpoint_height(), Progress::FinalCheckpoint);
    let mut hashes: Vec<BlockHash> = out
        .iter()
        .map(|r| r.outcome.expect("all three should verify"))
        .collect();
    hashes.sort_by_key(|x| x.w0);
    let mut expected = [h0, h1, h2];
    expected.sort_by_key(|x| x.w0);
    assert_eq!(hashes, expected.to_vec());
}

#[test]
fn already_verified_rejected() {
    let h0 = h(700);
    let h1 = h(701);
    let mut v = CheckpointVerifier::new(vec![(0, h0), (1, h1)]).expect("valid list");

    let (_, out) = submit(&mut v, blk(0, h0, zero_hash()));
    assert_eq!(out.len(), 1);
    assert_eq!(v.previous_checkpoint_height(), Progress::PreviousCheckpoint(0));

    // anything at or below the last verified checkpoint is rejected
    let (handle, out) = submit(&mut v, blk(0, h0, zero_hash()));
    assert_eq!(out.len(), 1);
    assert_eq!(out[0].handle, handle);
    assert_eq!(out[0].outcome, Err(VerifyError::AlreadyVerified));
    assert_eq!(v.previous_checkpoint_height(), Progress::PreviousCheckpoint(0));
}

#[test]
fn after_final_checkpoint_rejected() {
    let h0 = h(800);
    let mut v = CheckpointVerifier::new(vec![(0, h0)]).expect("valid list");
    let (_, out) = submit(&mut v, blk(0, h0, zero_hash()));
    assert_eq!(out[0].outcome, Ok(h0));

    let (handle, out) = submit(&mut v, blk(0, h0, zero_hash()));
    assert_eq!(out.len(), 1);
    assert_eq!(out[0].handle, handle);
    assert_eq!(out[0].outcome, Err(VerifyError::AfterFinalCheckpoint));
}

#[test]
fn superseded_peer_rejected_at_segment_close() {
    // two competing candidates at a non-checkpoint height: the one the
    // chain selects wins, the other is superseded
    let h0 = h(900);
    let h2 = h(902);
    let winner = h(910);
    let loser = h(911);
    let mut v = CheckpointVerifier::new(vec![(0, h0), (2, h2)]).expect("valid list");

    let (_, out) = submit(&mut v, blk(0, h0, zero_hash()));
    assert_eq!(out.len(), 1);

    let (win_handle, out) = submit(&mut v, blk(1, winner, h0));
    assert!(out.is_empty());
    let (lose_handle, out) = submit(&mut v, blk(1, loser, h0));
    assert!(out.is_empty());

    let (top_handle, out) = submit(&mut v, blk(2, h2, winner));
    assert_eq!(out.len(), 3);
    for r in &out {
        if r.handle == win_handle {
            assert_eq!(r.outcome, Ok(winner));
        } else if r.handle == lose_handle {
            assert_eq!(r.outcome, Err(VerifyError::SupersededByPeer));
        } else {
            assert_eq!(r.handle, top_handle);
            assert_eq!(r.outcome, Ok(h2));
        }
    }
    assert_eq!(v.previous_checkpoint_height(), Progress::FinalCheckpoint);
}

#[test]
fn token_from_before_teardown_is_refused() {
    let h0 = h(1000);
    let mut v = CheckpointVerifier::new(vec![(0, h0)]).expect("valid list");
    let token = v.ready().expect("ready before teardown");
    let cancelled = v.teardown();
    assert!(cancelled.is_empty());

    // a submission with a stale token resolves at once as dropped
    let (handle, out) = v.call(token, blk(0, h0, zero_hash()));
    assert_eq!(out.len(), 1);
    assert_eq!(out[0].handle, handle);
    assert_eq!(out[0].outcome, Err(VerifyError::VerifierDropped));
}

#[test]
fn inspection_has_no_side_effect() {
    let h0 = h(1100);
    let h1 = h(1101);
    let mut v = CheckpointVerifier::new(vec![(0, h0), (1, h1)]).expect("valid list");
    let bad = blk(0, h(1199), zero_hash());
    let (_, out) = submit(&mut v, bad);
    assert!(out.is_empty());

    // asking twice answers the same, and changes nothing observable
    assert_eq!(v.previous_checkpoint_height(), v.previous_checkpoint_height());
    assert_eq!(v.target_checkpoint_height(), v.target_checkpoint_height());
    assert_eq!(v.checkpoint_list_max_height(), v.checkpoint_list_max_height());
    assert_eq!(v.previous_checkpoint_height(), Progress::BeforeGenesis);

    // the queued entry is still there: the good block still flushes it
    let (_, out) = submit(&mut v, blk(0, h0, zero_hash()));
    assert_eq!(out.len(), 2);
}

#[test]
fn constructor_errors() {
    assert_eq!(
        CheckpointVerifier::new(vec![]).err(),
        Some(ListError::EmptyList)
    );
    assert_eq!(
        CheckpointVerifier::new(vec![(1, h(1))]).err(),
        Some(ListError::MissingGenesis)
    );
    assert_eq!(
        CheckpointVerifier::new(vec![(0, h(0)), (5, h(5)), (5, h(6))]).err(),
        Some(ListError::DuplicateHeight)
    );
    assert!(CheckpointVerifier::new(vec![(0, h(0)), (5, h(5))]).is_ok());
}

#[test]
fn checkpoint_at_largest_height() {
    // the largest representable height is a usable checkpoint; a block
    // there stays pending while the gap below it is unfilled
    let h0 = h(1300);
    let htop = h(1301);
    let mut v = CheckpointVerifier::new(vec![(0, h0), (u32::MAX, htop)]).expect("valid list");
    assert_eq!(v.checkpoint_list_max_height(), u32::MAX);

    let (_, out) = submit(&mut v, blk(0, h0, zero_hash()));
    assert_eq!(out.len(), 1);
    assert_eq!(out[0].outcome, Ok(h0));

    let (top_handle, out) = submit(&mut v, blk(u32::MAX, htop, h(9)));
    assert!(out.is_empty());
    assert_eq!(v.previous_checkpoint_height(), Progress::PreviousCheckpoint(0));

    let cancelled = v.teardown();
    assert_eq!(cancelled.len(), 1);
    assert_eq!(cancelled[0].handle, top_handle);
    assert_eq!(cancelled[0].outcome, Err(VerifyError::VerifierDropped));
}

#[test]
fn genesis_parent_must_be_zero() {
    // a genesis candidate that declares a non-zero parent never links to
    // the pre-genesis anchor, so its segment cannot close
    let h0 = h(1200);
    let mut v = CheckpointVerifier::new(vec![(0, h0)]).expect("valid list");
    let (handle, out) = submit(&mut v, blk(0, h0, h(7)));
    assert!(out.is_empty());
    assert_eq!(v.previous_checkpoint_height(), Progress::BeforeGenesis);

    // teardown still answers it
    let cancelled = v.teardown();
    assert_eq!(cancelled.len(), 1);
    assert_eq!(cancelled[0].handle, handle);
    assert_eq!(cancelled[0].outcome, Err(VerifyError::VerifierDropped));
}
