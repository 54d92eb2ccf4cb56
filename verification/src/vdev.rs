//! What all block devices have in common.

use crate::block::Block;
use vstd::prelude::*;

verus! {

/// Why a task of the runtime ended without a result.
#[derive(Debug, Clone, Copy, PartialEq, Eq, Structural)]
pub enum TaskFailure {
    /// It was cancelled.
    Cancelled,
    /// It panicked.
    Panicked,
}

/// Why an operation on a device failed.
#[derive(Debug)]
pub enum VdevError {
    /// The device with this id could not be read.
    ReadError(String),
    /// The device with this id could not be written.
    WriteError(String),
    /// The task that ran the operation ended without a result.
    TaskError(TaskFailure),
}

/// How many blocks a device has read and written so far, and with what
/// success. A counter starts again at zero when it overflows.
#[derive(Debug, Clone, Copy, PartialEq, Eq, Structural)]
pub struct Statistics {
    /// The number of blocks that were to be read.
    pub read: Block<u64>,
    /// The number of blocks that were to be written.
    pub written: Block<u64>,
    /// The number of blocks that could not be read.
    pub failed_reads: Block<u64>,
    /// The number of blocks that could not be written.
    pub failed_writes: Block<u64>,
    /// The number of blocks with a wrong checksum.
    pub checksum_errors: Block<u64>,
    /// The number of blocks that were repaired.
    pub repaired: Block<u64>,
}

/// A counter after `more` more blocks.
pub open spec fn counted(counter: Block<u64>, more: int) -> Block<u64> {
    Block(counter.0.wrapping_add(more as u64))
}

/// What scrubbing a part of a device found.
pub struct ScrubResult {
    /// The data.
    pub data: Vec<u8>,
    /// How many blocks were faulty.
    pub faulted: Block<u32>,
    /// How many blocks were repaired.
    pub repaired: Block<u32>,
}

/// The data does not match the checksum.
#[derive(Debug, Clone, Copy, PartialEq, Eq, Structural)]
pub struct ChecksumError;

/// A checksum of some data.
pub trait Checksum: Sized {
    /// Whether `data` has this checksum.
    fn verify(&self, data: &[u8]) -> Result<(), ChecksumError>;
}

/// Something that computes checksums.
pub trait Builder<C: Checksum> {
    /// The checksum of `data`.
    fn checksum(&self, data: &[u8]) -> C;
}

/// What a block device says of itself.
pub trait Vdev {
    /// How many blocks `size` blocks take on the device.
    fn actual_size(&self, size: Block<u32>) -> Block<u32>;

    /// How many blocks the device has.
    fn size(&self) -> Block<u64>;

    /// How many of `free_size` free blocks can be used.
    fn effective_free_size(&self, free_size: Block<u64>) -> Block<u64>;

    /// The name of the device.
    fn id(&self) -> &str;

    /// What the device has done so far.
    fn stats(&self) -> Statistics;

    /// How many disks the device has.
    fn num_disks(&self) -> usize;
}

} // verus!
