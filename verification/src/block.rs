//! Numbers of blocks.

use vstd::prelude::*;

verus! {

/// The size of a block in bytes.
pub const BLOCK_SIZE: usize = 4096;

/// A number of blocks, or the place of a block on a device.
#[derive(Debug, Clone, Copy, PartialEq, Eq, Structural)]
pub struct Block<T>(pub T);

/// How many bytes `blocks` blocks have.
pub open spec fn bytes(blocks: int) -> int {
    blocks * BLOCK_SIZE
}

impl Block<u32> {
    /// The number of blocks that `b` bytes fill.
    pub fn from_bytes(b: u32) -> (blocks: Self)
        requires
            b % 4096 == 0,
        ensures
            bytes(blocks.0 as int) == b,
    {
        Block(b / BLOCK_SIZE as u32)
    }

    /// The number of bytes in the blocks.
    pub fn to_bytes(self) -> (b: u32)
        requires
            bytes(self.0 as int) <= u32::MAX,
        ensures
            b == bytes(self.0 as int),
    {
        self.0 * BLOCK_SIZE as u32
    }

    /// The number of blocks.
    pub fn as_u32(self) -> (n: u32)
        ensures
            n == self.0,
    {
        self.0
    }

    /// The number of blocks.
    pub fn as_u64(self) -> (n: u64)
        ensures
            n == self.0,
    {
        self.0 as u64
    }
}

impl Block<u64> {
    /// The number of blocks that `b` bytes fill.
    pub fn from_bytes(b: u64) -> (blocks: Self)
        requires
            b % 4096 == 0,
        ensures
            bytes(blocks.0 as int) == b,
    {
        Block(b / BLOCK_SIZE as u64)
    }

    /// The number of bytes in the blocks.
    pub fn to_bytes(self) -> (b: u64)
        requires
            bytes(self.0 as int) <= u64::MAX,
        ensures
            b == bytes(self.0 as int),
    {
        self.0 * BLOCK_SIZE as u64
    }

    /// The number of blocks.
    pub fn as_u64(self) -> (n: u64)
        ensures
            n == self.0,
    {
        self.0
    }
}

/// Bytes and blocks convert into each other without loss.
pub proof fn law_blocks_and_bytes(b: int)
    requires
        b % 4096 == 0,
    ensures
        bytes(b / 4096) == b,
        bytes(b) / 4096 == b,
{
}

} // verus!
