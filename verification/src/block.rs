//! Block heights, header hashes, and the block summary the verifier reads.

use vstd::prelude::*;

verus! {

/// A block height. Genesis is 0. Totally ordered.
pub type Height = u32;

/// A block header hash: an opaque 256-bit identifier compared only for
/// equality, held as four 64-bit words.
#[derive(Clone, Copy, Debug, PartialEq, Eq, Structural)]
pub struct BlockHash {
    /// Words 0 to 3 of the hash, least significant first.
    pub w0: u64,
    /// Word 1.
    pub w1: u64,
    /// Word 2.
    pub w2: u64,
    /// Word 3.
    pub w3: u64,
}

impl BlockHash {
    /// Builds a hash from its four words.
    pub fn new(w0: u64, w1: u64, w2: u64, w3: u64) -> (r: BlockHash)
        ensures
            r == (BlockHash { w0, w1, w2, w3 }),
    {
        BlockHash { w0, w1, w2, w3 }
    }
}

/// The hash that a genesis block declares as its parent: all zero words.
/// It seeds back-link validation for the first verified segment.
pub open spec fn spec_pre_genesis_hash() -> BlockHash {
    BlockHash { w0: 0, w1: 0, w2: 0, w3: 0 }
}

/// Executable form of [`spec_pre_genesis_hash`].
pub fn pre_genesis_hash() -> (r: BlockHash)
    ensures
        r == spec_pre_genesis_hash(),
{
    BlockHash { w0: 0, w1: 0, w2: 0, w3: 0 }
}

/// What the verifier reads of a submitted block: its coinbase-declared
/// height, its header hash, and the parent hash its header declares.
///
/// Parsing a block and computing its header hash happen outside the
/// verifier; it consumes only these three values.
#[derive(Clone, Copy, Debug, PartialEq, Eq, Structural)]
pub struct Block {
    /// The height the block's coinbase transaction declares.
    pub height: Height,
    /// The hash of the block's header.
    pub hash: BlockHash,
    /// The hash of the parent block, as the header declares it.
    pub previous_block_hash: BlockHash,
}

impl Block {
    /// The height the block's coinbase transaction declares.
    pub fn coinbase_height(&self) -> (r: Height)
        ensures
            r == self.height,
    {
        self.height
    }

    /// The parent hash the block's header declares.
    pub fn previous_block_hash(&self) -> (r: BlockHash)
        ensures
            r == self.previous_block_hash,
    {
        self.previous_block_hash
    }

    /// The hash of the block's header.
    pub fn header_hash(&self) -> (r: BlockHash)
        ensures
            r == self.hash,
    {
        self.hash
    }
}

} // verus!
