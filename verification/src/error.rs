//! The error taxonomy: construction errors for checkpoint lists, and the
//! error kinds a completion handle can resolve with.

use vstd::prelude::*;

verus! {

/// Why a checkpoint list could not be built.
#[derive(Clone, Copy, Debug, PartialEq, Eq, Structural)]
pub enum ListError {
    /// The mapping handed in was empty.
    EmptyList,
    /// The mapping does not contain height 0.
    MissingGenesis,
    /// Two entries share a height.
    DuplicateHeight,
}

/// Why a submitted block was rejected. Exactly one of these, or the
/// block's hash, is delivered on each completion handle.
#[derive(Clone, Copy, Debug, PartialEq, Eq, Structural)]
pub enum VerifyError {
    /// The block's height is at or below the last verified checkpoint.
    AlreadyVerified,
    /// The block's height exceeds the largest checkpoint height.
    BeyondMaxCheckpoint,
    /// The candidate at a checkpoint height had the wrong hash.
    CheckpointHashMismatch,
    /// No back-link chain through this block existed within its segment
    /// when the segment closed.
    ChainDiscontinuity,
    /// Another entry at the same height became the verified one.
    SupersededByPeer,
    /// The block was submitted after the final checkpoint was reached.
    AfterFinalCheckpoint,
    /// The verifier was torn down while the block was pending.
    VerifierDropped,
}

} // verus!
