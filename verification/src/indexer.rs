//! The indexer's walk over the chain: which block comes next.
use vstd::prelude::*;
use crate::text::decimal;
use crate::store::{last_block_of, lemma_last_block_roundtrip};

verus! {

/// The first block in which bitmap claims count.
pub const GENESIS_BITMAP_BLOCKHEIGHT: u64 = 792435;

/// The block to process after `last_block`: the genesis block while it has
/// not been reached, the following block afterwards.
pub open spec fn block_after(last_block: u64) -> int {
    if last_block < GENESIS_BITMAP_BLOCKHEIGHT {
        GENESIS_BITMAP_BLOCKHEIGHT as int
    } else {
        last_block + 1
    }
}

/// The block to process after `last_block`.
pub fn next_block(last_block: u64) -> (r: u64)
    requires
        last_block < u64::MAX,
    ensures
        r == block_after(last_block),
        r >= GENESIS_BITMAP_BLOCKHEIGHT,
        r > last_block || last_block < GENESIS_BITMAP_BLOCKHEIGHT,
{
    if last_block < GENESIS_BITMAP_BLOCKHEIGHT {
        GENESIS_BITMAP_BLOCKHEIGHT
    } else {
        last_block + 1
    }
}

/// Law: once block `height` (at or after genesis) is recorded as processed,
/// the indexer goes on with the block right after it.
pub proof fn lemma_continues_after_recorded(height: u64)
    requires
        GENESIS_BITMAP_BLOCKHEIGHT <= height < u64::MAX,
    ensures
        block_after(last_block_of(Some(decimal(height as nat)))) == height + 1,
{
    lemma_last_block_roundtrip(height);
}

/// Law: the indexer neither skips a block nor moves past one that failed.
/// After an attempt at the block that follows `last_block`, it goes on with
/// the block after that one when the attempt recorded it as processed, and
/// tries the same block again when the attempt recorded nothing, so that the
/// store still holds `last_block`.
pub proof fn lemma_no_block_skipped(last_block: u64, recorded: bool)
    requires
        block_after(last_block) < u64::MAX,
    ensures
        ({
            let h = block_after(last_block) as u64;
            let stored = if recorded {
                last_block_of(Some(decimal(h as nat)))
            } else {
                last_block
            };
            block_after(stored) == if recorded {
                h + 1
            } else {
                h as int
            }
        }),
{
    let h = block_after(last_block) as u64;
    lemma_last_block_roundtrip(h);
}

} // verus!
