//! The two observable state values of the verifier: what it has verified,
//! and what it is pursuing.

use vstd::prelude::*;
use crate::block::Height;

verus! {

/// The most recently verified checkpoint.
#[derive(Clone, Copy, Debug, PartialEq, Eq, Structural)]
pub enum Progress {
    /// No block has been verified yet.
    BeforeGenesis,
    /// The most recent verified block was at this checkpoint height,
    /// which lies below the largest checkpoint height.
    PreviousCheckpoint(Height),
    /// Every checkpoint has been reached.
    FinalCheckpoint,
}

/// The checkpoint the verifier is pursuing.
#[derive(Clone, Copy, Debug, PartialEq, Eq, Structural)]
pub enum Target {
    /// The verifier lacks the blocks to close the next segment.
    WaitingForBlocks,
    /// The verifier holds enough blocks to pursue this checkpoint height.
    Checkpoint(Height),
    /// Terminal: emitted exactly when progress is the final checkpoint.
    FinishedVerifying,
}

/// Orders progress values: verification only ever moves forward along
/// this order.
pub open spec fn progress_le(a: Progress, b: Progress) -> bool {
    match (a, b) {
        (Progress::BeforeGenesis, _) => true,
        (Progress::PreviousCheckpoint(x), Progress::PreviousCheckpoint(y)) => x <= y,
        (Progress::PreviousCheckpoint(_), Progress::FinalCheckpoint) => true,
        (Progress::FinalCheckpoint, Progress::FinalCheckpoint) => true,
        _ => false,
    }
}

/// The progress order is transitive: a verifier whose every step advances
/// progress never regresses across any sequence of steps.
pub proof fn lemma_progress_le_trans(a: Progress, b: Progress, c: Progress)
    requires
        progress_le(a, b),
        progress_le(b, c),
    ensures
        progress_le(a, c),
{
}

} // verus!
