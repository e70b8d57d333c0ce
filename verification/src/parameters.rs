//! Chain constants: the slow-start interval and shift, block target
//! spacings around the Blossom upgrade, transaction expiry deltas, and
//! the magic bytes that identify each network.

use vstd::prelude::*;
use crate::block::Height;

verus! {

/// An initial period from genesis to this height where the block subsidy
/// is gradually incremented.
pub const SLOW_START_INTERVAL: Height = 20_000;

/// Half the slow-start interval; the interval is divisible by 2, so the
/// division is exact.
pub const SLOW_START_SHIFT: Height = SLOW_START_INTERVAL / 2;

/// Block target interval before the Blossom upgrade, in seconds.
pub const PRE_BLOSSOM_POW_TARGET_SPACING: u32 = 150;

/// Block target interval after the Blossom upgrade, in seconds.
pub const POST_BLOSSOM_POW_TARGET_SPACING: u32 = 75;

/// The ratio between pre- and post-Blossom target spacing; used for
/// calculations involving block timing across the Blossom boundary.
pub const BLOSSOM_POW_TARGET_SPACING_RATIO: u32 = PRE_BLOSSOM_POW_TARGET_SPACING
    / POST_BLOSSOM_POW_TARGET_SPACING;

/// Default number of blocks, before Blossom, after which a transaction
/// expires.
pub const DEFAULT_PRE_BLOSSOM_TX_EXPIRY_DELTA: u32 = 20;

/// Default number of blocks, after Blossom, after which a transaction
/// expires.
pub const DEFAULT_POST_BLOSSOM_EXPIRY_DELTA: u32 = DEFAULT_PRE_BLOSSOM_TX_EXPIRY_DELTA
    * BLOSSOM_POW_TARGET_SPACING_RATIO;

/// The spacing invariants: blocks get faster after Blossom, the new
/// spacing divides the old one exactly, the ratio is exact, and the
/// slow-start shift halves the interval exactly.
pub proof fn lemma_spacing_invariants()
    ensures
        PRE_BLOSSOM_POW_TARGET_SPACING > POST_BLOSSOM_POW_TARGET_SPACING,
        PRE_BLOSSOM_POW_TARGET_SPACING % POST_BLOSSOM_POW_TARGET_SPACING == 0,
        BLOSSOM_POW_TARGET_SPACING_RATIO * POST_BLOSSOM_POW_TARGET_SPACING
            == PRE_BLOSSOM_POW_TARGET_SPACING,
        SLOW_START_SHIFT * 2 == SLOW_START_INTERVAL,
        DEFAULT_POST_BLOSSOM_EXPIRY_DELTA == DEFAULT_PRE_BLOSSOM_TX_EXPIRY_DELTA
            * BLOSSOM_POW_TARGET_SPACING_RATIO,
{
}

/// A network magic identifier: the four bytes that open every message of
/// one Zcash network.
#[derive(Clone, Copy, Debug, PartialEq, Eq)]
pub struct Magic(pub [u8; 4]);

/// The production mainnet magic.
pub fn mainnet_magic() -> (r: Magic)
    ensures
        r.0[0] == 0x24u8 && r.0[1] == 0xe9u8 && r.0[2] == 0x27u8 && r.0[3] == 0x64u8,
{
    Magic([0x24, 0xe9, 0x27, 0x64])
}

/// The testnet magic.
pub fn testnet_magic() -> (r: Magic)
    ensures
        r.0[0] == 0xfau8 && r.0[1] == 0x1au8 && r.0[2] == 0xf9u8 && r.0[3] == 0xbfu8,
{
    Magic([0xfa, 0x1a, 0xf9, 0xbf])
}

/// The regtest magic.
pub fn regtest_magic() -> (r: Magic)
    ensures
        r.0[0] == 0xaau8 && r.0[1] == 0xe8u8 && r.0[2] == 0x3fu8 && r.0[3] == 0x5fu8,
{
    Magic([0xaa, 0xe8, 0x3f, 0x5f])
}

} // verus!
