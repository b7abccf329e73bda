//! Persisted layout constants.
use vstd::prelude::*;

verus! {

/// Bytes per content block.
pub const BLOCK_SIZE: u64 = 65536;

/// Largest file size that is kept inside the inode record.
pub const INLINE_DATA_THRESHOLD: u64 = 4096;

/// Inode number of the filesystem root; a smaller parent means "no real parent".
pub const ROOT_INODE: u64 = 1;

/// Number of blocks that cover `size` bytes.
pub open spec fn blocks_for(size: u64) -> int {
    (size as int + BLOCK_SIZE as int - 1) / (BLOCK_SIZE as int)
}

/// Computes the number of blocks that cover `size` bytes.
pub fn block_count(size: u64) -> (n: u64)
    ensures
        n as int == blocks_for(size),
{
    let q: u64 = size / BLOCK_SIZE;
    let r: u64 = size % BLOCK_SIZE;
    assert(blocks_for(size) == (if r == 0 { q as int } else { q as int + 1 })) by {
        assert(size as int == 65536 * (q as int) + r as int);
        assert((size as int + 65535) / 65536 == (if r == 0 { q as int } else { q as int + 1 }));
    }
    if r == 0 { q } else { q + 1 }
}

} // verus!
