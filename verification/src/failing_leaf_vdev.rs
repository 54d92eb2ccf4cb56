//! A block device in memory that can be told to fail, and data to test it
//! with.

use crate::block::{bytes, Block, BLOCK_SIZE};
use crate::shrink::{law_shrinks_are_smaller, shrink_u8};
use crate::vdev::{
    counted, Checksum, ChecksumError, ScrubResult, Statistics, Vdev, VdevError,
};
use crate::xorshift::xorshift_fill;
use vstd::prelude::*;

verus! {

/// What a device does instead of what it is asked for.
#[derive(Clone, Copy, PartialEq, Eq, Debug, Structural)]
pub enum FailureMode {
    /// It does what it is asked for.
    NoFail,
    /// It returns an error.
    FailOperation,
    /// It reads or writes something else.
    BadData,
    /// It panics.
    Panic,
}

/// The modes that random tests choose from.
pub open spec fn arbitrary_modes() -> Seq<FailureMode> {
    seq![FailureMode::NoFail, FailureMode::FailOperation, FailureMode::BadData]
}

impl FailureMode {
    /// The mode that a random choice among three selects. A panic is never
    /// among them.
    pub fn arbitrary(choice: usize) -> (mode: FailureMode)
        requires
            choice < 3,
        ensures
            mode == arbitrary_modes()[choice as int],
            choice == 0 ==> mode == FailureMode::NoFail,
            choice == 1 ==> mode == FailureMode::FailOperation,
            choice == 2 ==> mode == FailureMode::BadData,
            mode != FailureMode::Panic,
    {
        if choice == 0 {
            FailureMode::NoFail
        } else if choice == 1 {
            FailureMode::FailOperation
        } else {
            FailureMode::BadData
        }
    }
}

/// A device that keeps its blocks in memory.
pub struct FailingLeafVdev {
    buffer: Vec<u8>,
    id: String,
    fail_reads: FailureMode,
    fail_writes: FailureMode,
    fail_flushes: bool,
    stats: Statistics,
}

/// The state of a device.
#[verifier::ext_equal]
pub struct VdevView {
    /// What is stored.
    pub buffer: Seq<u8>,
    /// The name of the device.
    pub id: String,
    /// How reads fail.
    pub fail_reads: FailureMode,
    /// How writes fail.
    pub fail_writes: FailureMode,
    /// Whether flushes fail.
    pub fail_flushes: bool,
    /// What was read and written so far.
    pub stats: Statistics,
}

/// The `len` bytes from `at` on.
pub open spec fn section(buffer: Seq<u8>, at: int, len: int) -> Seq<u8> {
    buffer.subrange(at, at + len)
}

/// `buffer` with `data` from `at` on.
pub open spec fn overwritten(buffer: Seq<u8>, at: int, data: Seq<u8>) -> Seq<u8> {
    buffer.take(at) + data + buffer.skip(at + data.len())
}

/// The `len` bytes that stand in for the data at `at`.
pub open spec fn bad_data(factor: int, at: int, len: nat) -> Seq<u8> {
    Seq::new(len, |x: int| ((factor * x + at) % 256) as u8)
}

/// The place that a range of `len` bytes at a block ends at is a number of
/// bytes that the machine can address.
pub open spec fn addressable(offset: Block<u64>, len: int) -> bool {
    bytes(offset.0 as int) + len <= usize::MAX
}

/// What reading a range without failure gives: the data, unless the device is
/// told to fail.
pub open spec fn read_result(v: VdevView, size: Block<u32>, offset: Block<u64>) -> Result<
    Seq<u8>,
    VdevError,
> {
    if v.fail_reads == FailureMode::NoFail {
        Ok(section(v.buffer, bytes(offset.0 as int), bytes(size.0 as int)))
    } else {
        Err(VdevError::ReadError(v.id))
    }
}

/// `size` blocks at `offset` can be read from the device.
pub open spec fn readable(v: VdevView, size: Block<u32>, offset: Block<u64>) -> bool {
    &&& v.fail_reads != FailureMode::Panic
    &&& bytes(size.0 as int) <= u32::MAX
    &&& addressable(offset, bytes(size.0 as int))
    &&& v.fail_reads == FailureMode::NoFail ==> bytes(offset.0 as int) + bytes(size.0 as int)
        <= v.buffer.len()
}

/// What a read returns once the data was read and its checksum was verified.
pub open spec fn concluded(data: Seq<u8>, verdict: Result<(), ChecksumError>, id: String) -> Result<
    Seq<u8>,
    VdevError,
> {
    match verdict {
        Ok(()) => Ok(data),
        Err(_) => Err(VdevError::ReadError(id)),
    }
}

/// The contents of a read.
pub open spec fn shown(r: Result<Vec<u8>, VdevError>) -> Result<Seq<u8>, VdevError> {
    match r {
        Ok(data) => Ok(data@),
        Err(e) => Err(e),
    }
}

/// Returns the data that was read if its checksum is right, and an error that
/// names the device if not.
pub fn conclude_read(data: Vec<u8>, verdict: Result<(), ChecksumError>, id: &String) -> (r: Result<
    Vec<u8>,
    VdevError,
>)
    ensures
        shown(r) == concluded(data@, verdict, *id),
        match verdict {
            Ok(_) => r == Ok::<Vec<u8>, VdevError>(data),
            Err(_) => r == Err::<Vec<u8>, VdevError>(VdevError::ReadError(*id)),
        },
{
    match verdict {
        Ok(()) => Ok(data),
        Err(_) => Err(VdevError::ReadError(id.clone())),
    }
}

/// `len` bytes at `at` that differ from what was asked for.
fn make_bad_data(factor: u64, at: usize, len: usize) -> (data: Vec<u8>)
    requires
        factor <= 7,
        len <= u32::MAX,
        at <= u32::MAX,
    ensures
        data@ == bad_data(factor as int, at as int, len as nat),
{
    let mut data: Vec<u8> = Vec::new();
    let mut x: usize = 0;
    while x < len
        invariant
            x <= len <= u32::MAX,
            at <= u32::MAX,
            factor <= 7,
            data@ =~= bad_data(factor as int, at as int, x as nat),
        decreases len - x,
    {
        assert(0 <= factor * x <= 7 * u32::MAX) by (nonlinear_arith)
            requires
                0 <= factor <= 7,
                0 <= x <= u32::MAX,
        ;
        let value: u64 = (factor * x as u64 + at as u64) % 256;
        data.push(value as u8);
        x = x + 1;
    }
    data
}

impl FailingLeafVdev {
    /// The state of the device.
    pub closed spec fn view(&self) -> VdevView {
        VdevView {
            buffer: self.buffer@,
            id: self.id,
            fail_reads: self.fail_reads,
            fail_writes: self.fail_writes,
            fail_flushes: self.fail_flushes,
            stats: self.stats,
        }
    }

    /// The device has whole blocks, no more than 32 bits can count the bytes of.
    pub open spec fn wf(&self) -> bool {
        &&& self@.buffer.len() % 4096 == 0
        &&& self@.buffer.len() <= u32::MAX
    }

    /// A device with `size` blocks of zeros that does not fail.
    pub fn new(size: Block<u32>, id: String) -> (vdev: Self)
        requires
            bytes(size.0 as int) <= u32::MAX,
        ensures
            vdev.wf(),
            vdev@ == (VdevView {
                buffer: Seq::new(bytes(size.0 as int) as nat, |i: int| 0u8),
                id,
                fail_reads: FailureMode::NoFail,
                fail_writes: FailureMode::NoFail,
                fail_flushes: false,
                stats: Statistics {
                    read: Block(0),
                    written: Block(0),
                    failed_reads: Block(0),
                    failed_writes: Block(0),
                    checksum_errors: Block(0),
                    repaired: Block(0),
                },
            }),
    {
        let vdev = FailingLeafVdev {
            buffer: vec![0u8; size.to_bytes() as usize],
            id,
            fail_reads: FailureMode::NoFail,
            fail_writes: FailureMode::NoFail,
            fail_flushes: false,
            stats: Statistics {
                read: Block(0),
                written: Block(0),
                failed_reads: Block(0),
                failed_writes: Block(0),
                checksum_errors: Block(0),
                repaired: Block(0),
            },
        };
        assert(vdev@.buffer =~= Seq::new(bytes(size.0 as int) as nat, |i: int| 0u8));
        vdev
    }

    /// Tells the device how to fail when it is written.
    pub fn fail_writes(&mut self, failure_mode: FailureMode)
        ensures
            final(self)@ == (VdevView { fail_writes: failure_mode, ..old(self)@ }),
    {
        self.fail_writes = failure_mode;
    }

    /// Tells the device how to fail when it is read.
    pub fn fail_reads(&mut self, failure_mode: FailureMode)
        ensures
            final(self)@ == (VdevView { fail_reads: failure_mode, ..old(self)@ }),
    {
        self.fail_reads = failure_mode;
    }

    /// A copy of the bytes from `at` on.
    fn copy_out(&self, at: usize, len: usize) -> (data: Vec<u8>)
        requires
            at + len <= self@.buffer.len(),
        ensures
            data@ == section(self@.buffer, at as int, len as int),
    {
        assert(at + len <= self.buffer.len());
        vstd::slice::slice_to_vec(
            vstd::slice::slice_subrange(self.buffer.as_slice(), at, at + len),
        )
    }

    /// Reads blocks, whatever their checksum is.
    pub fn handle_read(&self, size: Block<u32>, offset: Block<u64>) -> (r: Result<Vec<u8>, VdevError>)
        requires
            self.wf(),
            readable(self@, size, offset),
        ensures
            shown(r) == read_result(self@, size, offset),
    {
        let size: usize = size.to_bytes() as usize;
        let offset: usize = offset.to_bytes() as usize;
        match self.fail_reads {
            FailureMode::NoFail => Ok(self.copy_out(offset, size)),
            _ => Err(VdevError::ReadError(self.id.clone())),
        }
    }

    /// Reads blocks that have the given checksum.
    pub fn read<C: Checksum>(&self, size: Block<u32>, offset: Block<u64>, checksum: C) -> (r: Result<
        Vec<u8>,
        VdevError,
    >)
        requires
            self.wf(),
            readable(self@, size, offset),
        ensures
            match read_result(self@, size, offset) {
                Ok(data) => exists|slice: &[u8], verdict: Result<(), ChecksumError>|
                    {
                        &&& slice@ == data
                        &&& #[trigger] call_ensures(C::verify, (&checksum, slice), verdict)
                        &&& shown(r) == concluded(data, verdict, self@.id)
                    },
                Err(e) => r == Err::<Vec<u8>, VdevError>(e),
            },
    {
        let data: Vec<u8> = match self.handle_read(size, offset) {
            Ok(data) => data,
            Err(e) => return Err(e),
        };
        let slice: &[u8] = data.as_slice();
        let verdict: Result<(), ChecksumError> = checksum.verify(slice);
        assert(call_ensures(C::verify, (&checksum, slice), verdict));
        conclude_read(data, verdict, &self.id)
    }

    /// Reads blocks that have the given checksum. Nothing is ever found to be
    /// faulty or repaired.
    pub fn scrub<C: Checksum>(&self, size: Block<u32>, offset: Block<u64>, checksum: C) -> (r:
        Result<ScrubResult, VdevError>)
        requires
            self.wf(),
            readable(self@, size, offset),
        ensures
            match read_result(self@, size, offset) {
                Ok(data) => exists|slice: &[u8], verdict: Result<(), ChecksumError>|
                    {
                        &&& slice@ == data
                        &&& #[trigger] call_ensures(C::verify, (&checksum, slice), verdict)
                        &&& match r {
                            Ok(found) => verdict is Ok && found.data@ == data && found.faulted
                                == Block(0u32) && found.repaired == Block(0u32),
                            Err(e) => verdict is Err && e == VdevError::ReadError(self@.id),
                        }
                    },
                Err(e) => r == Err::<ScrubResult, VdevError>(e),
            },
    {
        match self.read(size, offset, checksum) {
            Ok(data) => Ok(ScrubResult { data, faulted: Block(0), repaired: Block(0) }),
            Err(e) => Err(e),
        }
    }

    /// Reads every copy of some blocks, whatever their checksums are. There is
    /// one.
    pub fn read_raw(&self, size: Block<u32>, offset: Block<u64>) -> (r: Result<
        Vec<Vec<u8>>,
        VdevError,
    >)
        requires
            self.wf(),
            readable(self@, size, offset),
        ensures
            match (r, read_result(self@, size, offset)) {
                (Ok(copies), Ok(data)) => copies@.len() == 1 && copies@[0]@ == data,
                (Err(e), Err(expected)) => e == expected,
                _ => false,
            },
    {
        match self.handle_read(size, offset) {
            Ok(data) => {
                let mut copies: Vec<Vec<u8>> = Vec::new();
                copies.push(data);
                Ok(copies)
            },
            Err(e) => Err(e),
        }
    }
}

/// The number of bytes that a read into `len` bytes asks the device for.
pub open spec fn requested(len: nat) -> u32 {
    len as u32
}

/// A read into a buffer of `len` bytes at `offset` is possible: it asks for
/// whole blocks within the device, and, unless it fails, for as many as the
/// buffer has.
pub open spec fn fillable(v: VdevView, len: nat, offset: Block<u64>) -> bool {
    &&& v.fail_reads != FailureMode::Panic
    &&& requested(len) % 4096 == 0
    &&& bytes(offset.0 as int) + requested(len) <= v.buffer.len()
    &&& v.fail_reads != FailureMode::FailOperation ==> requested(len) == len
}

/// The state after a read into a buffer of `len` bytes.
pub open spec fn after_read(v: VdevView, len: nat) -> VdevView {
    let blocks = requested(len) / 4096;
    VdevView {
        stats: Statistics {
            read: counted(v.stats.read, blocks as int),
            failed_reads: if v.fail_reads == FailureMode::FailOperation {
                counted(v.stats.failed_reads, blocks as int)
            } else {
                v.stats.failed_reads
            },
            ..v.stats
        },
        ..v
    }
}

/// What is read into a buffer of `len` bytes.
pub open spec fn filled(v: VdevView, len: nat, offset: Block<u64>) -> Result<Seq<u8>, VdevError> {
    let at = bytes(offset.0 as int);
    match v.fail_reads {
        FailureMode::NoFail => Ok(section(v.buffer, at, len as int)),
        FailureMode::BadData => Ok(bad_data(3, at, len)),
        _ => Err(VdevError::ReadError(v.id)),
    }
}

/// Some whole blocks can be written at `offset`.
pub open spec fn writable(v: VdevView, len: nat, offset: Block<u64>) -> bool {
    &&& v.fail_writes != FailureMode::Panic
    &&& len % 4096 == 0
    &&& addressable(offset, len as int)
    &&& v.fail_writes != FailureMode::FailOperation ==> bytes(offset.0 as int) + len
        <= v.buffer.len()
}

/// The state after a write: the data is stored, or something else, or nothing,
/// as the device was told.
pub open spec fn after_write(
    v: VdevView,
    data: Seq<u8>,
    offset: Block<u64>,
    is_repair: bool,
) -> VdevView {
    let at = bytes(offset.0 as int);
    let blocks = data.len() as int / 4096;
    let failed = v.fail_writes == FailureMode::FailOperation;
    VdevView {
        buffer: match v.fail_writes {
            FailureMode::NoFail => overwritten(v.buffer, at, data),
            FailureMode::BadData => overwritten(v.buffer, at, bad_data(7, at, data.len())),
            _ => v.buffer,
        },
        stats: Statistics {
            written: counted(v.stats.written, blocks),
            failed_writes: if failed {
                counted(v.stats.failed_writes, blocks)
            } else {
                v.stats.failed_writes
            },
            repaired: if is_repair && !failed {
                counted(v.stats.repaired, blocks)
            } else {
                v.stats.repaired
            },
            ..v.stats
        },
        ..v
    }
}

/// What a write returns.
pub open spec fn write_result(v: VdevView) -> Result<(), VdevError> {
    if v.fail_writes == FailureMode::FailOperation {
        Err(VdevError::WriteError(v.id))
    } else {
        Ok(())
    }
}

impl FailingLeafVdev {
    /// Counts blocks that are to be read.
    pub fn count_read(&mut self, size: Block<u32>)
        ensures
            final(self)@ == (VdevView {
                stats: Statistics {
                    read: counted(old(self)@.stats.read, size.0 as int),
                    ..old(self)@.stats
                },
                ..old(self)@
            }),
    {
        self.stats.read = Block(self.stats.read.0.wrapping_add(size.as_u64()));
    }

    /// Counts blocks that are to be written.
    pub fn count_written(&mut self, size: Block<u64>)
        ensures
            final(self)@ == (VdevView {
                stats: Statistics {
                    written: counted(old(self)@.stats.written, size.0 as int),
                    ..old(self)@.stats
                },
                ..old(self)@
            }),
    {
        self.stats.written = Block(self.stats.written.0.wrapping_add(size.as_u64()));
    }

    /// Reads the blocks at `offset` into `buf` and returns it, whatever their
    /// checksum is.
    pub fn read_raw_into(&mut self, buf: Vec<u8>, offset: Block<u64>) -> (r: Result<
        Vec<u8>,
        VdevError,
    >)
        requires
            old(self).wf(),
            fillable(old(self)@, buf@.len(), offset),
        ensures
            final(self).wf(),
            final(self)@ == after_read(old(self)@, buf@.len()),
            shown(r) == filled(old(self)@, buf@.len(), offset),
    {
        let size: Block<u32> = Block::<u32>::from_bytes(buf.len() as u32);
        self.count_read(size);
        assert(bytes(offset.0 as int) <= self.buffer.len());
        let at: usize = offset.to_bytes() as usize;
        let byte_size: usize = size.to_bytes() as usize;
        match self.fail_reads {
            FailureMode::NoFail => Ok(self.copy_out(at, byte_size)),
            FailureMode::BadData => Ok(make_bad_data(3, at, byte_size)),
            _ => {
                self.stats.failed_reads = Block(
                    self.stats.failed_reads.0.wrapping_add(size.as_u64()),
                );
                Err(VdevError::ReadError(self.id.clone()))
            },
        }
    }

    /// Counts blocks whose checksum was wrong.
    pub fn checksum_error_occurred(&mut self, size: Block<u32>)
        ensures
            final(self)@ == (VdevView {
                stats: Statistics {
                    checksum_errors: counted(old(self)@.stats.checksum_errors, size.0 as int),
                    ..old(self)@.stats
                },
                ..old(self)@
            }),
    {
        self.stats.checksum_errors = Block(
            self.stats.checksum_errors.0.wrapping_add(size.as_u64()),
        );
    }

    /// Stores `data` from `at` on.
    fn copy_in(&mut self, at: usize, data: &[u8])
        requires
            at + data@.len() <= old(self)@.buffer.len(),
        ensures
            final(self)@ == (VdevView {
                buffer: overwritten(old(self)@.buffer, at as int, data@),
                ..old(self)@
            }),
    {
        let mut i: usize = 0;
        assert(self@.buffer =~= overwritten(self@.buffer, at as int, data@.take(0)));
        while i < data.len()
            invariant
                i <= data@.len(),
                at + data@.len() <= old(self)@.buffer.len(),
                self@ == (VdevView {
                    buffer: overwritten(old(self)@.buffer, at as int, data@.take(i as int)),
                    ..old(self)@
                }),
            decreases data@.len() - i,
        {
            assert(at + i < self.buffer.len());
            self.buffer[at + i] = data[i];
            i = i + 1;
            assert(self@.buffer =~= overwritten(
                old(self)@.buffer,
                at as int,
                data@.take(i as int),
            ));
        }
        assert(data@.take(i as int) =~= data@);
    }

    /// Writes whole blocks at `offset`.
    pub fn write_raw(&mut self, data: &[u8], offset: Block<u64>, is_repair: bool) -> (r: Result<
        (),
        VdevError,
    >)
        requires
            old(self).wf(),
            writable(old(self)@, data@.len(), offset),
        ensures
            final(self).wf(),
            final(self)@ == after_write(old(self)@, data@, offset, is_repair),
            r == write_result(old(self)@),
    {
        let size: Block<u64> = Block::<u64>::from_bytes(data.len() as u64);
        let size_in_blocks: u64 = size.as_u64();
        self.count_written(size);
        let at: usize = offset.to_bytes() as usize;
        match self.fail_writes {
            FailureMode::NoFail => self.copy_in(at, data),
            FailureMode::BadData => {
                let bad: Vec<u8> = make_bad_data(7, at, data.len());
                self.copy_in(at, bad.as_slice());
            },
            _ => {
                self.stats.failed_writes = Block(
                    self.stats.failed_writes.0.wrapping_add(size_in_blocks),
                );
                return Err(VdevError::WriteError(self.id.clone()));
            },
        }
        if is_repair {
            self.stats.repaired = Block(self.stats.repaired.0.wrapping_add(size_in_blocks));
        }
        Ok(())
    }

    /// Makes everything that was written durable.
    pub fn flush(&self) -> (r: Result<(), VdevError>)
        ensures
            r == if self@.fail_flushes {
                Err(VdevError::WriteError(self@.id))
            } else {
                Ok::<(), VdevError>(())
            },
    {
        if self.fail_flushes {
            Err(VdevError::WriteError(self.id.clone()))
        } else {
            Ok(())
        }
    }
}

impl Vdev for FailingLeafVdev {
    fn actual_size(&self, size: Block<u32>) -> (r: Block<u32>)
        ensures
            r == size,
    {
        size
    }

    fn size(&self) -> (r: Block<u64>)
        ensures
            r.0 == self@.buffer.len() / 4096,
            self.wf() ==> bytes(r.0 as int) == self@.buffer.len(),
    {
        Block(self.buffer.len() as u64 / BLOCK_SIZE as u64)
    }

    fn effective_free_size(&self, free_size: Block<u64>) -> (r: Block<u64>)
        ensures
            r == free_size,
    {
        free_size
    }

    fn id(&self) -> (r: &str)
        ensures
            r@ == self@.id@,
    {
        self.id.as_str()
    }

    fn stats(&self) -> (r: Statistics)
        ensures
            r == self@.stats,
    {
        self.stats
    }

    fn num_disks(&self) -> (r: usize)
        ensures
            r == 1,
    {
        1
    }
}

/// The seed of the data of a write.
pub open spec fn seed(idx: usize, offset: Block<u64>, size: Block<u32>) -> Seq<u32> {
    seq![(size.0 + 1) as u32, idx as u32, offset.0 as u32, (offset.0 >> 32) as u32]
}

/// The data of a write.
pub open spec fn generated(idx: usize, offset: Block<u64>, size: Block<u32>) -> Seq<u8> {
    crate::xorshift::xorshift_bytes(seed(idx, offset, size), bytes(size.0 as int) as nat)
}

/// Data for write number `idx`, of `size` blocks at `offset`.
pub fn generate_data(idx: usize, offset: Block<u64>, size: Block<u32>) -> (data: Vec<u8>)
    requires
        bytes(size.0 as int) <= u32::MAX,
    ensures
        data@ == generated(idx, offset, size),
        data@.len() == bytes(size.0 as int),
{
    let words: [u32; 4] = [
        size.as_u32() + 1,
        idx as u32,
        offset.as_u64() as u32,
        (offset.as_u64() >> 32) as u32,
    ];
    let mut data: Vec<u8> = vec![0u8; size.to_bytes() as usize];
    assert(words@ =~= seed(idx, offset, size));
    xorshift_fill(words, &mut data);
    data
}

/// A number that is not zero.
#[derive(Debug, Clone, Copy)]
pub struct NonZeroU8(u8);

/// The numbers in `s` that are not zero, in their order.
pub open spec fn nonzero(s: Seq<u8>) -> Seq<u8> {
    s.filter(|x: u8| x != 0)
}

/// The numbers in `candidates` that are not zero, in their order.
pub fn select_nonzero(candidates: &Vec<u8>) -> (r: Vec<NonZeroU8>)
    ensures
        r@.map_values(|x: NonZeroU8| x@) == nonzero(candidates@),
        forall|i: int| 0 <= i < r@.len() ==> (#[trigger] r@[i])@ != 0 && candidates@.contains(r@[i]@),
{
    let mut r: Vec<NonZeroU8> = Vec::new();
    let mut k: usize = 0;
    assert(candidates@.take(0) =~= Seq::<u8>::empty());
    assert(nonzero(Seq::<u8>::empty()) =~= Seq::<u8>::empty()) by {
        reveal(Seq::filter);
    }
    while k < candidates.len()
        invariant
            k <= candidates@.len(),
            r@.map_values(|x: NonZeroU8| x@) =~= nonzero(candidates@.take(k as int)),
            forall|i: int|
                0 <= i < r@.len() ==> (#[trigger] r@[i])@ != 0 && candidates@.contains(r@[i]@),
        decreases candidates@.len() - k,
    {
        proof {
            reveal(Seq::filter);
            assert(candidates@.take(k + 1).drop_last() =~= candidates@.take(k as int));
        }
        if candidates[k] != 0 {
            r.push(NonZeroU8(candidates[k]));
        }
        k = k + 1;
    }
    assert(candidates@.take(k as int) =~= candidates@);
    r
}

impl NonZeroU8 {
    #[verifier::type_invariant]
    spec fn is_nonzero(self) -> bool {
        self.0 != 0
    }

    /// The number.
    pub closed spec fn view(&self) -> u8 {
        self.0
    }

    /// The number.
    pub fn get(&self) -> (x: u8)
        ensures
            x == self@,
            x != 0,
    {
        proof {
            use_type_invariant(self);
        }
        self.0
    }

    /// The number that was drawn at random from the 254 smallest ones.
    pub fn arbitrary(drawn: u8) -> (x: NonZeroU8)
        requires
            1 <= drawn < 255,
        ensures
            x@ == drawn,
    {
        NonZeroU8(drawn)
    }

    /// Smaller numbers to try in place of this one.
    pub fn shrink(&self) -> (smaller: Vec<NonZeroU8>)
        ensures
            smaller@.map_values(|x: NonZeroU8| x@) == nonzero(crate::shrink::u8_shrinks(self@)),
            forall|i: int| 0 <= i < smaller@.len() ==> 0 < (#[trigger] smaller@[i])@ < self@,
    {
        let candidates: Vec<u8> = shrink_u8(self.0);
        proof {
            law_shrinks_are_smaller(self.0);
        }
        select_nonzero(&candidates)
    }
}

/// What was written without failure is read back, through either kind of read.
pub proof fn law_read_gives_back_what_was_written(
    v: VdevView,
    data: Seq<u8>,
    size: Block<u32>,
    offset: Block<u64>,
    is_repair: bool,
)
    requires
        v.fail_writes == FailureMode::NoFail,
        v.fail_reads == FailureMode::NoFail,
        writable(v, data.len(), offset),
        data.len() == bytes(size.0 as int),
    ensures
        write_result(v) is Ok,
        read_result(after_write(v, data, offset, is_repair), size, offset) == Ok::<
            Seq<u8>,
            VdevError,
        >(data),
        filled(after_write(v, data, offset, is_repair), data.len(), offset) == Ok::<
            Seq<u8>,
            VdevError,
        >(data),
{
    let at = bytes(offset.0 as int);
    assert(section(overwritten(v.buffer, at, data), at, data.len() as int) =~= data);
}

/// A write, whether it stores the right data or not, changes nothing outside
/// of its range, nor the size of the device.
pub proof fn law_write_leaves_the_rest(
    v: VdevView,
    data: Seq<u8>,
    offset: Block<u64>,
    is_repair: bool,
    at: int,
    len: int,
)
    requires
        writable(v, data.len(), offset),
        0 <= at,
        0 <= len,
        at + len <= v.buffer.len(),
        at + len <= bytes(offset.0 as int) || bytes(offset.0 as int) + data.len() <= at,
    ensures
        after_write(v, data, offset, is_repair).buffer.len() == v.buffer.len(),
        section(after_write(v, data, offset, is_repair).buffer, at, len) == section(
            v.buffer,
            at,
            len,
        ),
{
    let to = bytes(offset.0 as int);
    if v.fail_writes != FailureMode::FailOperation {
        assert(section(overwritten(v.buffer, to, data), at, len) =~= section(v.buffer, at, len));
        let bad = bad_data(7, to, data.len());
        assert(section(overwritten(v.buffer, to, bad), at, len) =~= section(v.buffer, at, len));
    }
}

/// A write that is reported to have failed, and every read, leave what is
/// stored as it is.
pub proof fn law_failures_and_reads_store_nothing(
    v: VdevView,
    data: Seq<u8>,
    len: nat,
    offset: Block<u64>,
    is_repair: bool,
)
    ensures
        write_result(v) is Err ==> after_write(v, data, offset, is_repair).buffer == v.buffer,
        after_read(v, len).buffer == v.buffer,
{
}

/// Of two writes to the same range the second one counts.
pub proof fn law_last_write_counts(
    v: VdevView,
    first: Seq<u8>,
    second: Seq<u8>,
    offset: Block<u64>,
    is_repair: bool,
)
    requires
        v.fail_writes == FailureMode::NoFail,
        writable(v, first.len(), offset),
        first.len() == second.len(),
    ensures
        after_write(after_write(v, first, offset, is_repair), second, offset, is_repair).buffer
            == after_write(v, second, offset, is_repair).buffer,
{
    let at = bytes(offset.0 as int);
    assert(overwritten(overwritten(v.buffer, at, first), at, second) =~= overwritten(
        v.buffer,
        at,
        second,
    ));
}

/// A new device reads as zeros.
pub proof fn law_new_device_is_zero(v: VdevView, size: Block<u32>, offset: Block<u64>)
    requires
        forall|i: int| 0 <= i < v.buffer.len() ==> v.buffer[i] == 0,
        v.fail_reads == FailureMode::NoFail,
        readable(v, size, offset),
    ensures
        read_result(v, size, offset) == Ok::<Seq<u8>, VdevError>(
            Seq::new(bytes(size.0 as int) as nat, |i: int| 0u8),
        ),
{
    assert(section(v.buffer, bytes(offset.0 as int), bytes(size.0 as int)) =~= Seq::new(
        bytes(size.0 as int) as nat,
        |i: int| 0u8,
    ));
}

/// A section has the asked for length, and each of its bytes stands in the
/// buffer as far behind its beginning.
pub proof fn law_bytes_of_a_section(buffer: Seq<u8>, at: int, len: int)
    requires
        0 <= at,
        0 <= len,
        at + len <= buffer.len(),
    ensures
        section(buffer, at, len).len() == len,
        forall|i: int| 0 <= i < len ==> #[trigger] section(buffer, at, len)[i] == buffer[at + i],
{
}

/// Overwriting changes exactly the bytes of a range, into those of the data.
pub proof fn law_bytes_after_overwriting(buffer: Seq<u8>, at: int, data: Seq<u8>)
    requires
        0 <= at,
        at + data.len() <= buffer.len(),
    ensures
        overwritten(buffer, at, data).len() == buffer.len(),
        forall|p: int|
            0 <= p < buffer.len() ==> #[trigger] overwritten(buffer, at, data)[p] == if at <= p < at
                + data.len() {
                data[p - at]
            } else {
                buffer[p]
            },
{
}

/// Without failure a read gives the bytes that the device holds from the first
/// asked for block on, as many as the blocks have. Otherwise it gives an error
/// that names the device.
pub proof fn law_bytes_of_a_read(v: VdevView, size: Block<u32>, offset: Block<u64>)
    requires
        4096 * offset.0 + 4096 * size.0 <= v.buffer.len(),
    ensures
        v.fail_reads == FailureMode::NoFail ==> (read_result(v, size, offset) matches Ok(data)
            && data.len() == 4096 * size.0 && forall|i: int|
            0 <= i < 4096 * size.0 ==> #[trigger] data[i] == v.buffer[4096 * offset.0 + i]),
        v.fail_reads != FailureMode::NoFail ==> read_result(v, size, offset) == Err::<
            Seq<u8>,
            VdevError,
        >(VdevError::ReadError(v.id)),
{
}

/// A read into a buffer gives the bytes that the device holds, or, from a device
/// that is to give bad data, bytes that go up by three from the place of the
/// first one. It fails exactly if the device is told to.
pub proof fn law_bytes_of_a_read_into_a_buffer(v: VdevView, len: nat, offset: Block<u64>)
    requires
        4096 * offset.0 + len <= v.buffer.len(),
    ensures
        v.fail_reads == FailureMode::NoFail ==> (filled(v, len, offset) matches Ok(data)
            && data.len() == len && forall|i: int|
            0 <= i < len ==> #[trigger] data[i] == v.buffer[4096 * offset.0 + i]),
        v.fail_reads == FailureMode::BadData ==> (filled(v, len, offset) matches Ok(data)
            && data.len() == len && forall|i: int|
            0 <= i < len ==> #[trigger] data[i] == (3 * i + 4096 * offset.0) % 256),
        v.fail_reads == FailureMode::FailOperation ==> filled(v, len, offset) == Err::<
            Seq<u8>,
            VdevError,
        >(VdevError::ReadError(v.id)),
{
    if v.fail_reads == FailureMode::BadData {
        assert forall|i: int| 0 <= i < len implies #[trigger] bad_data(3, bytes(offset.0 as int), len)[i]
            == (3 * i + 4096 * offset.0) % 256 by {
            assert(0 <= (3 * i + 4096 * offset.0) % 256 < 256);
        }
    }
}

/// A write changes exactly the bytes of its blocks: into the data, or, on a
/// device that is to store bad data, into bytes that go up by seven from the
/// place of the first one, or not at all if it fails.
pub proof fn law_bytes_after_a_write(
    v: VdevView,
    data: Seq<u8>,
    offset: Block<u64>,
    is_repair: bool,
)
    requires
        4096 * offset.0 + data.len() <= v.buffer.len(),
        v.fail_writes != FailureMode::Panic,
    ensures
        ({
            let at = 4096 * offset.0;
            let after = after_write(v, data, offset, is_repair);
            &&& after.buffer.len() == v.buffer.len()
            &&& forall|p: int|
                0 <= p < v.buffer.len() && !(at <= p < at + data.len())
                    ==> #[trigger] after.buffer[p] == v.buffer[p]
            &&& v.fail_writes == FailureMode::NoFail ==> forall|p: int|
                at <= p < at + data.len() ==> #[trigger] after.buffer[p] == data[p - at]
            &&& v.fail_writes == FailureMode::BadData ==> forall|p: int|
                at <= p < at + data.len() ==> #[trigger] after.buffer[p] == (7 * (p - at) + at) % 256
            &&& v.fail_writes == FailureMode::FailOperation ==> after.buffer == v.buffer
            &&& after.id == v.id
            &&& after.fail_reads == v.fail_reads
            &&& after.fail_writes == v.fail_writes
            &&& after.fail_flushes == v.fail_flushes
        }),
        v.fail_writes == FailureMode::FailOperation ==> write_result(v) == Err::<(), VdevError>(
            VdevError::WriteError(v.id),
        ),
        v.fail_writes != FailureMode::FailOperation ==> write_result(v) == Ok::<(), VdevError>(()),
{
    let at = bytes(offset.0 as int);
    if v.fail_writes == FailureMode::BadData {
        let bad = bad_data(7, at, data.len());
        assert forall|p: int| at <= p < at + data.len() implies #[trigger] overwritten(
            v.buffer,
            at,
            bad,
        )[p] == (7 * (p - at) + at) % 256 by {
            assert(overwritten(v.buffer, at, bad)[p] == bad[p - at]);
            assert(0 <= (7 * (p - at) + at) % 256 < 256);
        }
    }
}

/// Every write counts its blocks as written, a failed one as failed too, and
/// one that is a repair and does not fail as repaired too. The other counters
/// stay.
pub proof fn law_counters_after_a_write(
    v: VdevView,
    data: Seq<u8>,
    offset: Block<u64>,
    is_repair: bool,
)
    requires
        data.len() % 4096 == 0,
        data.len() / 4096 <= u64::MAX,
    ensures
        ({
            let blocks = (data.len() / 4096) as u64;
            let (before, after) = (v.stats, after_write(v, data, offset, is_repair).stats);
            let failed = v.fail_writes == FailureMode::FailOperation;
            &&& after.written.0 == before.written.0.wrapping_add(blocks)
            &&& after.failed_writes.0 == if failed {
                before.failed_writes.0.wrapping_add(blocks)
            } else {
                before.failed_writes.0
            }
            &&& after.repaired.0 == if is_repair && !failed {
                before.repaired.0.wrapping_add(blocks)
            } else {
                before.repaired.0
            }
            &&& after.read == before.read
            &&& after.failed_reads == before.failed_reads
            &&& after.checksum_errors == before.checksum_errors
        }),
{
}

/// Every read into a buffer counts its blocks as read, and a failed one as failed
/// too. Nothing else changes. The number of bytes is taken as one of 32 bits.
pub proof fn law_counters_after_a_read(v: VdevView, len: nat)
    ensures
        ({
            let blocks = if len <= u32::MAX {
                (len / 4096) as u64
            } else {
                ((len as u32) / 4096) as u64
            };
            let after = after_read(v, len);
            &&& after.stats.read.0 == v.stats.read.0.wrapping_add(blocks)
            &&& after.stats.failed_reads.0 == if v.fail_reads == FailureMode::FailOperation {
                v.stats.failed_reads.0.wrapping_add(blocks)
            } else {
                v.stats.failed_reads.0
            }
            &&& after.stats.written == v.stats.written
            &&& after.stats.failed_writes == v.stats.failed_writes
            &&& after.stats.checksum_errors == v.stats.checksum_errors
            &&& after.stats.repaired == v.stats.repaired
            &&& after.buffer == v.buffer
            &&& after.id == v.id
            &&& after.fail_reads == v.fail_reads
            &&& after.fail_writes == v.fail_writes
            &&& after.fail_flushes == v.fail_flushes
        }),
{
}

/// A counter goes up by the number of blocks, and starts again at zero when it
/// overflows.
pub proof fn law_counters_count(counter: Block<u64>, more: u64)
    ensures
        counter.0 + more <= u64::MAX ==> counted(counter, more as int).0 == counter.0 + more,
        counter.0 + more > u64::MAX ==> counted(counter, more as int).0 == counter.0 + more
            - 0x1_0000_0000_0000_0000,
{
}

/// Data is returned exactly if its checksum is right. A wrong one is an error
/// that names the device.
pub proof fn law_wrong_checksums_are_read_errors(data: Seq<u8>, id: String, e: ChecksumError)
    ensures
        concluded(data, Ok(()), id) == Ok::<Seq<u8>, VdevError>(data),
        concluded(data, Err(e), id) == Err::<Seq<u8>, VdevError>(VdevError::ReadError(id)),
{
}

/// The contents of a read are its data or its error.
pub proof fn law_contents_of_a_read(data: Vec<u8>, e: VdevError)
    ensures
        shown(Ok(data)) == Ok::<Seq<u8>, VdevError>(data@),
        shown(Err(e)) == Err::<Seq<u8>, VdevError>(e),
{
}

/// All blocks within a device that is not told to panic can be read and written.
pub proof fn law_blocks_within_the_device_can_be_used(
    v: VdevView,
    size: Block<u32>,
    offset: Block<u64>,
)
    requires
        v.buffer.len() <= u32::MAX,
        4096 * offset.0 + 4096 * size.0 <= v.buffer.len(),
    ensures
        v.fail_reads != FailureMode::Panic ==> readable(v, size, offset),
        v.fail_reads != FailureMode::Panic ==> fillable(v, (4096 * size.0) as nat, offset),
        v.fail_writes != FailureMode::Panic ==> writable(v, (4096 * size.0) as nat, offset),
{
}

/// A device that fails can be asked for blocks that it does not have.
pub proof fn law_failing_devices_can_be_asked_for_any_blocks(
    v: VdevView,
    size: Block<u32>,
    offset: Block<u64>,
)
    requires
        4096 * size.0 <= u32::MAX,
        4096 * offset.0 + 4096 * size.0 <= usize::MAX,
    ensures
        v.fail_reads == FailureMode::FailOperation || v.fail_reads == FailureMode::BadData
            ==> readable(v, size, offset),
        v.fail_writes == FailureMode::FailOperation ==> writable(
            v,
            (4096 * size.0) as nat,
            offset,
        ),
{
}

/// The data of a write is what the generator gives for a seed of four words: one
/// more than the number of blocks, the number of the write, and the two halves
/// of the first block's number.
pub proof fn law_seed_of_a_write(idx: usize, offset: Block<u64>, size: Block<u32>)
    requires
        size.0 < u32::MAX,
    ensures
        seed(idx, offset, size).len() == 4,
        seed(idx, offset, size)[0] == size.0 + 1,
        seed(idx, offset, size)[1] == idx as u32,
        seed(idx, offset, size)[2] == offset.0 as u32,
        seed(idx, offset, size)[3] == (offset.0 >> 32) as u32,
        generated(idx, offset, size) == crate::xorshift::xorshift_bytes(
            seq![
                (size.0 + 1) as u32,
                idx as u32,
                offset.0 as u32,
                (offset.0 >> 32) as u32,
            ],
            (4096 * size.0) as nat,
        ),
{
}

/// Random tests choose among three modes, and a panic is none of them.
pub proof fn law_modes_of_random_tests()
    ensures
        arbitrary_modes().len() == 3,
        arbitrary_modes()[0] == FailureMode::NoFail,
        arbitrary_modes()[1] == FailureMode::FailOperation,
        arbitrary_modes()[2] == FailureMode::BadData,
{
}

/// Leaving out zeros keeps every other number, in its order.
pub proof fn law_only_zeros_are_left_out(s: Seq<u8>, x: u8)
    ensures
        nonzero(Seq::<u8>::empty()) == Seq::<u8>::empty(),
        x != 0 ==> nonzero(s.push(x)) == nonzero(s).push(x),
        nonzero(s.push(0)) == nonzero(s),
{
    reveal(Seq::filter);
    assert(s.push(x).drop_last() =~= s);
    assert(s.push(0).drop_last() =~= s);
}

} // verus!
