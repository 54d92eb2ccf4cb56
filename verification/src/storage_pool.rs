//! A pool of block devices, in tiers, with a queue of pending writes.
//!
//! The pool decides what is done in which order. Operations that involve
//! devices run in turns: each turn ends with a step that the runtime has to
//! perform before it gives the operation its next turn.

use crate::block::Block;
use crate::bounded_locked_dashmap_future_queue::{
    enqueue_turn, enqueues, flush_turn, law_stored_future_is_the_last_enqueued, reachable, takes,
    wait_turn, Action, BoundedFutureQueue, Enqueue, EnqueuePhase, Flush, FlushPhase, QueueView,
    Wait, WaitPhase,
};
use crate::step::{Key, Step, Turn};
use crate::vdev::{TaskFailure, Vdev, VdevError};
use vstd::prelude::*;

verus! {

/// How many storage classes a pool has.
pub const MAX_STORAGE_CLASSES: usize = 4;

/// A block on some disk of a pool.
#[derive(Debug, Clone, Copy, PartialEq, Eq, Structural)]
pub struct DiskOffset {
    /// The tier that the disk belongs to.
    pub storage_class: u8,
    /// Which disk of that tier.
    pub disk_id: u16,
    /// Which block of that disk.
    pub block_offset: Block<u64>,
}

impl DiskOffset {
    /// What a pending write to this place is stored under.
    pub open spec fn spec_key(self) -> Key {
        (self.storage_class, self.disk_id, self.block_offset.0)
    }

    /// What a pending write to this place is stored under.
    pub fn key(self) -> (key: Key)
        ensures
            key == self.spec_key(),
            key.0 == self.storage_class,
            key.1 == self.disk_id,
            key.2 == self.block_offset.0,
    {
        (self.storage_class, self.disk_id, self.block_offset.0)
    }
}

/// How a pool is set up.
#[derive(Debug, Clone, Copy, PartialEq, Eq, Structural)]
pub struct StoragePoolConfiguration {
    /// From how many pending writes on workers are asked to help.
    pub queue_depth_soft_limit: u32,
    /// From how many pending writes on no further one is admitted.
    pub queue_depth_hard_limit: u32,
    /// How many threads the runtime has, if it is not to choose for itself.
    pub thread_pool_size: Option<u32>,
}

/// A pool of block devices.
pub struct StoragePoolUnit<D> {
    tiers: Vec<Vec<D>>,
    write_back_queue: BoundedFutureQueue,
}

/// The devices of each tier.
pub open spec fn contents<D>(tiers: Seq<Vec<D>>) -> Seq<Seq<D>> {
    tiers.map_values(|tier: Vec<D>| tier@)
}

/// The tiers, and as many empty ones as are missing.
pub open spec fn padded<D>(tiers: Seq<Seq<D>>) -> Seq<Seq<D>> {
    tiers + Seq::new((MAX_STORAGE_CLASSES - tiers.len()) as nat, |i: int| Seq::<D>::empty())
}

impl<D: Vdev> StoragePoolUnit<D> {
    /// The devices of each tier.
    pub closed spec fn tiers(&self) -> Seq<Seq<D>> {
        contents(self.tiers@)
    }

    /// The pending writes.
    pub closed spec fn queue(&self) -> QueueView {
        self.write_back_queue@
    }

    /// There is a tier for each storage class.
    pub closed spec fn inv(&self) -> bool {
        &&& self.tiers@.len() == MAX_STORAGE_CLASSES
        &&& self.write_back_queue.inv()
    }

    /// Whether the pool has this disk.
    pub open spec fn has_disk(&self, storage_class: u8, disk_id: u16) -> bool {
        storage_class < self.tiers().len() && disk_id < self.tiers()[storage_class as int].len()
    }

    /// The device that is this disk.
    pub open spec fn disk(&self, storage_class: u8, disk_id: u16) -> D {
        self.tiers()[storage_class as int][disk_id as int]
    }

    /// A pool of devices, with nothing pending.
    pub fn new(configuration: &StoragePoolConfiguration, tiers: Vec<Vec<D>>) -> (pool: Self)
        requires
            tiers@.len() <= MAX_STORAGE_CLASSES,
        ensures
            pool.inv(),
            pool.tiers() == padded(contents(tiers@)),
            pool.tiers().len() == MAX_STORAGE_CLASSES,
            forall|i: int| 0 <= i < tiers@.len() ==> #[trigger] pool.tiers()[i] == tiers@[i]@,
            forall|i: int|
                tiers@.len() <= i < MAX_STORAGE_CLASSES ==> (#[trigger] pool.tiers()[i]).len() == 0,
            pool.queue() == (QueueView {
                futures: Map::empty(),
                soft_limit: configuration.queue_depth_soft_limit as u64,
                hard_limit: configuration.queue_depth_hard_limit as u64,
                flush_lock: None,
                pending: 0,
            }),
    {
        let ghost given: Seq<Vec<D>> = tiers@;
        let mut tiers: Vec<Vec<D>> = tiers;
        while tiers.len() < MAX_STORAGE_CLASSES
            invariant
                given.len() <= tiers@.len() <= MAX_STORAGE_CLASSES,
                forall|i: int| 0 <= i < given.len() ==> #[trigger] tiers@[i] == given[i],
                forall|i: int|
                    given.len() <= i < tiers@.len() ==> (#[trigger] tiers@[i])@ == Seq::<D>::empty(),
            decreases MAX_STORAGE_CLASSES - tiers@.len(),
        {
            tiers.push(Vec::new());
        }
        assert(contents(tiers@) =~= padded(contents(given)));
        StoragePoolUnit {
            tiers,
            write_back_queue: BoundedFutureQueue::new(
                configuration.queue_depth_soft_limit as usize,
                configuration.queue_depth_hard_limit as usize,
            ),
        }
    }

    /// How many writes are pending.
    pub fn pending(&self) -> (pending: u64)
        requires
            self.inv(),
        ensures
            pending == self.queue().pending,
    {
        self.write_back_queue.pending()
    }

    /// The device of a disk.
    pub fn by_offset(&self, offset: DiskOffset) -> (device: &D)
        requires
            self.inv(),
            self.has_disk(offset.storage_class, offset.disk_id),
        ensures
            *device == self.disk(offset.storage_class, offset.disk_id),
            *device == self.tiers()[offset.storage_class as int][offset.disk_id as int],
    {
        &self.tiers[offset.storage_class as usize][offset.disk_id as usize]
    }

    /// The device at a place, if there is one.
    pub fn device(&self, place: (usize, usize)) -> (device: Option<&D>)
        requires
            self.inv(),
        ensures
            device == if place.0 < self.tiers().len() && place.1 < self.tiers()[place.0 as int].len() {
                Some(&self.tiers()[place.0 as int][place.1 as int])
            } else {
                None
            },
    {
        if place.0 < self.tiers.len() {
            assert(self.tiers()[place.0 as int] == self.tiers@[place.0 as int]@);
            if place.1 < self.tiers[place.0].len() {
                return Some(&self.tiers[place.0][place.1]);
            }
        }
        None
    }

    /// How many blocks `size` blocks take on a disk: what its device says.
    pub fn actual_size(&self, storage_class: u8, disk_id: u16, size: Block<u32>) -> (r: Block<u32>)
        requires
            self.inv(),
            self.has_disk(storage_class, disk_id),
        ensures
            call_ensures(
                D::actual_size,
                (&self.tiers()[storage_class as int][disk_id as int], size),
                r,
            ),
    {
        self.by_offset(DiskOffset { storage_class, disk_id, block_offset: Block(0) }).actual_size(size)
    }

    /// How many blocks a disk has: what its device says.
    pub fn size_in_blocks(&self, storage_class: u8, disk_id: u16) -> (r: Block<u64>)
        requires
            self.inv(),
            self.has_disk(storage_class, disk_id),
        ensures
            call_ensures(
                D::size,
                (&self.tiers()[storage_class as int][disk_id as int],),
                r,
            ),
    {
        self.by_offset(DiskOffset { storage_class, disk_id, block_offset: Block(0) }).size()
    }

    /// How many disks a device has: what it says.
    pub fn num_disks(&self, storage_class: u8, disk_id: u16) -> (r: usize)
        requires
            self.inv(),
            self.has_disk(storage_class, disk_id),
        ensures
            call_ensures(
                D::num_disks,
                (&self.tiers()[storage_class as int][disk_id as int],),
                r,
            ),
    {
        self.by_offset(DiskOffset { storage_class, disk_id, block_offset: Block(0) }).num_disks()
    }

    /// How many of `free_size` free blocks of a disk can be used: what its
    /// device says.
    pub fn effective_free_size(&self, storage_class: u8, disk_id: u16, free_size: Block<u64>) -> (r:
        Block<u64>)
        requires
            self.inv(),
            self.has_disk(storage_class, disk_id),
        ensures
            call_ensures(
                D::effective_free_size,
                (&self.tiers()[storage_class as int][disk_id as int], free_size),
                r,
            ),
    {
        self.by_offset(
            DiskOffset { storage_class, disk_id, block_offset: Block(0) },
        ).effective_free_size(free_size)
    }

    /// How many disks a tier has. Disks have 16-bit numbers: the count is
    /// truncated to that.
    pub fn disk_count(&self, storage_class: u8) -> (r: u16)
        requires
            self.inv(),
            storage_class < MAX_STORAGE_CLASSES,
        ensures
            r == self.tiers()[storage_class as int].len() as u16,
            self.tiers()[storage_class as int].len() <= u16::MAX ==> r
                == self.tiers()[storage_class as int].len(),
    {
        assert(self.tiers()[storage_class as int] == self.tiers@[storage_class as int]@);
        self.tiers[storage_class as usize].len() as u16
    }

    /// How many tiers there are.
    pub fn storage_class_count(&self) -> (r: u8)
        requires
            self.inv(),
        ensures
            r == self.tiers().len(),
            r == MAX_STORAGE_CLASSES,
    {
        MAX_STORAGE_CLASSES as u8
    }
}

/// What a task of the runtime returned, or why it returned nothing.
pub open spec fn joined<T>(result: Result<Result<T, VdevError>, TaskFailure>) -> Result<
    T,
    VdevError,
> {
    match result {
        Ok(inner) => inner,
        Err(failure) => Err(VdevError::TaskError(failure)),
    }
}

/// What a task of the runtime returned, or an error if it returned nothing.
pub fn join_outcome<T>(result: Result<Result<T, VdevError>, TaskFailure>) -> (r: Result<T, VdevError>)
    ensures
        r == joined(result),
        match result {
            Ok(Ok(value)) => r == Ok::<T, VdevError>(value),
            Ok(Err(e)) => r == Err::<T, VdevError>(e),
            Err(failure) => r == Err::<T, VdevError>(VdevError::TaskError(failure)),
        },
{
    match result {
        Ok(Ok(value)) => Ok(value),
        Ok(Err(e)) => Err(e),
        Err(failure) => Err(VdevError::TaskError(failure)),
    }
}

/// A read that waits for a pending write to the same place.
pub struct Read<C> {
    /// How many blocks.
    pub size: Block<u32>,
    /// From where on.
    pub offset: DiskOffset,
    /// The checksum that they have to have.
    pub checksum: C,
    /// The wait for the pending write.
    pub wait: Wait,
}

/// What a device is asked to read.
pub struct ReadRequest<C> {
    /// How many blocks.
    pub size: Block<u32>,
    /// The disk and the first block.
    pub offset: DiskOffset,
    /// The checksum that they have to have.
    pub checksum: C,
}

/// What the runtime has to do next for a [`Read`].
pub enum ReadStep<C> {
    /// Run this pending write to its end; the next turn takes its result.
    Await(u64),
    /// Return this error: the pending write failed.
    Fail(VdevError),
    /// Let a device read, and return what it reads.
    Read(ReadRequest<C>),
}

/// The end of a turn of a [`Read`].
pub struct ReadTurn<C> {
    /// What comes next for this operation.
    pub step: ReadStep<C>,
    /// Whether sleeping operations have to be woken.
    pub notify: bool,
}

/// The queue, the phase of the wait and the end of the turn.
pub struct ReadOutcome<C> {
    pub queue: QueueView,
    pub phase: WaitPhase,
    pub turn: ReadTurn<C>,
}

impl<C> Read<C> {
    /// What the device is asked to read in the end.
    pub open spec fn request(self) -> ReadRequest<C> {
        ReadRequest { size: self.size, offset: self.offset, checksum: self.checksum }
    }
}

/// A read that begins now: it waits for the write that is pending for its
/// place, if there is one.
pub open spec fn begun_read<C>(
    q: QueueView,
    size: Block<u32>,
    offset: DiskOffset,
    checksum: C,
) -> Read<C> {
    Read {
        size,
        offset,
        checksum,
        wait: Wait {
            phase: if q.futures.contains_key(offset.spec_key()) {
                WaitPhase::Waiting(q.futures[offset.spec_key()])
            } else {
                WaitPhase::Ready
            },
        },
    }
}

/// A turn of a [`Read`]: wait for the pending write, then read unless it
/// failed.
pub open spec fn read_turn<C>(
    q: QueueView,
    op: Read<C>,
    outcome: Option<Result<(), VdevError>>,
) -> ReadOutcome<C> {
    let end = wait_turn(q, op.wait, outcome);
    let step = match (op.wait.phase, outcome) {
        (WaitPhase::Waiting(write), None) => ReadStep::Await(write),
        (WaitPhase::Waiting(_), Some(Err(e))) => ReadStep::Fail(e),
        _ => ReadStep::Read(op.request()),
    };
    ReadOutcome {
        queue: end.queue,
        phase: end.phase,
        turn: ReadTurn { step, notify: end.turn.notify },
    }
}

/// A write on its way into the queue. The task that performs it stands behind
/// a latch until then.
pub struct Write {
    /// The place that is written.
    pub offset: DiskOffset,
    /// The write on its way into the queue.
    pub enqueue: Enqueue,
}

/// What the runtime has to do next for a [`Write`].
pub enum WriteStep {
    /// Run this pending write to its end; the next turn takes its result.
    Await(u64),
    /// Block until another turn notifies.
    Sleep,
    /// Open the latch and return this result.
    Release(Result<(), VdevError>),
}

/// The end of a turn of a [`Write`].
pub struct WriteTurn {
    /// What comes next for this operation.
    pub step: WriteStep,
    /// Whether sleeping operations have to be woken.
    pub notify: bool,
}

/// The queue, the phase of the write and the end of the turn.
pub struct WriteOutcome {
    pub queue: QueueView,
    pub phase: EnqueuePhase,
    pub turn: WriteTurn,
}

/// A turn of a [`Write`]: put it into the queue, then open the latch, whether
/// it got there or not.
pub open spec fn write_turn(
    q: QueueView,
    op: Write,
    outcome: Option<Result<(), VdevError>>,
) -> WriteOutcome {
    let end = enqueue_turn(q, op.enqueue, outcome);
    let step = match end.turn.step {
        Step::Return(result) => WriteStep::Release(result),
        Step::Await(write) => WriteStep::Await(write),
        _ => WriteStep::Sleep,
    };
    WriteOutcome {
        queue: end.queue,
        phase: end.phase,
        turn: WriteTurn { step, notify: end.turn.notify },
    }
}

impl<D: Vdev> StoragePoolUnit<D> {
    /// Begins to read from a disk: a pending write to the same place is taken
    /// out of the queue, to be awaited first.
    pub fn read_async<C>(&mut self, size: Block<u32>, offset: DiskOffset, checksum: C) -> (op: Read<
        C,
    >)
        requires
            old(self).inv(),
        ensures
            final(self).inv(),
            final(self).tiers() == old(self).tiers(),
            final(self).queue() == old(self).queue().take(offset.spec_key()),
            op == begun_read(old(self).queue(), size, offset, checksum),
            op.size == size,
            op.offset == offset,
            op.checksum == checksum,
    {
        let wait: Wait = self.write_back_queue.wait_async(offset.key());
        Read { size, offset, checksum, wait }
    }

    /// Gives a read the next turn.
    pub fn continue_read<C: Copy>(
        &mut self,
        op: &mut Read<C>,
        outcome: Option<Result<(), VdevError>>,
    ) -> (turn: ReadTurn<C>)
        requires
            old(self).inv(),
            !(old(op).wait.phase is Done),
            outcome is Some ==> old(op).wait.phase is Waiting && old(self).queue().pending > 0,
        ensures
            final(self).inv(),
            final(self).tiers() == old(self).tiers(),
            final(op).request() == old(op).request(),
            final(op).size == old(op).size,
            final(op).offset == old(op).offset,
            final(op).checksum == old(op).checksum,
            (ReadOutcome { queue: final(self).queue(), phase: final(op).wait.phase, turn })
                == read_turn(old(self).queue(), *old(op), outcome),
    {
        let turn: Turn<VdevError> = self.write_back_queue.wait(&mut op.wait, outcome);
        let step: ReadStep<C> = match turn.step {
            Step::Await(write) => ReadStep::Await(write),
            Step::Return(Err(e)) => ReadStep::Fail(e),
            _ => ReadStep::Read(
                ReadRequest { size: op.size, offset: op.offset, checksum: op.checksum },
            ),
        };
        ReadTurn { step, notify: turn.notify }
    }

    /// Begins to write to a disk. A task that performs the write `write` has to
    /// be started first, behind a latch.
    pub fn begin_write(&self, who: u64, offset: DiskOffset, write: u64) -> (op: Write)
        ensures
            op == (Write {
                offset,
                enqueue: Enqueue {
                    who,
                    key: (offset.storage_class, offset.disk_id, offset.block_offset.0),
                    future: write,
                    phase: EnqueuePhase::Locking,
                },
            }),
    {
        Write { offset, enqueue: Enqueue::new(who, offset.key(), write) }
    }

    /// Gives a write the next turn.
    pub fn continue_write(&mut self, op: &mut Write, outcome: Option<Result<(), VdevError>>) -> (turn:
        WriteTurn)
        requires
            old(self).inv(),
            old(op).enqueue.wf(old(self).queue()),
            !(old(op).enqueue.phase is Done),
            outcome is Some <==> old(op).enqueue.phase is Waiting,
            old(op).enqueue.phase is Waiting ==> old(self).queue().pending > 0,
            old(op).enqueue.arrives(old(self).queue()) && old(self).queue().pending <= old(
                self,
            ).queue().hard_limit ==> old(self).queue().pending < u64::MAX,
        ensures
            final(self).inv(),
            final(self).tiers() == old(self).tiers(),
            final(op).enqueue.wf(final(self).queue()),
            *final(op) == (Write {
                enqueue: Enqueue { phase: final(op).enqueue.phase, ..old(op).enqueue },
                ..*old(op)
            }),
            (WriteOutcome { queue: final(self).queue(), phase: final(op).enqueue.phase, turn })
                == write_turn(old(self).queue(), *old(op), outcome),
    {
        let turn: Turn<VdevError> = self.write_back_queue.enqueue(&mut op.enqueue, outcome);
        let step: WriteStep = match turn.step {
            Step::Return(result) => WriteStep::Release(result),
            Step::Await(write) => WriteStep::Await(write),
            _ => WriteStep::Sleep,
        };
        WriteTurn { step, notify: turn.notify }
    }
}

/// The places of all devices, a tier after the other: which tier, and which
/// device of that tier.
pub open spec fn places<D>(tiers: Seq<Seq<D>>) -> Seq<(usize, usize)>
    decreases tiers.len(),
{
    if tiers.len() == 0 {
        Seq::empty()
    } else {
        places(tiers.drop_last()) + places_in((tiers.len() - 1) as usize, tiers.last().len())
    }
}

/// The places of the first `count` devices of a tier.
pub open spec fn places_in(class: usize, count: nat) -> Seq<(usize, usize)> {
    Seq::new(count, |disk: int| (class, disk as usize))
}

/// A write to the same blocks of every device.
pub struct RawWrite {
    /// The first block.
    pub offset: Block<u64>,
    /// How many devices have not written yet.
    pub pending: usize,
}

/// What a raw write returns when one more device has written, if that ends it:
/// the first error, or success after the last device.
pub open spec fn raw_write_turn(pending: int, outcome: Result<(), VdevError>) -> Option<
    Result<(), VdevError>,
> {
    match outcome {
        Err(e) => Some(Err(e)),
        Ok(()) => if pending == 1 {
            Some(Ok(()))
        } else {
            None
        },
    }
}

impl RawWrite {
    /// What the write returns if there is no device to wait for.
    pub fn start(&self) -> (r: Option<Result<(), VdevError>>)
        ensures
            r == if self.pending == 0 {
                Some(Ok::<(), VdevError>(()))
            } else {
                None
            },
    {
        if self.pending == 0 {
            Some(Ok(()))
        } else {
            None
        }
    }

    /// Takes the result of one more device, whichever it is, and says what the
    /// write returns if that ends it.
    pub fn turn(&mut self, outcome: Result<(), VdevError>) -> (r: Option<Result<(), VdevError>>)
        requires
            old(self).pending > 0,
        ensures
            final(self).offset == old(self).offset,
            final(self).pending == old(self).pending - 1,
            r == raw_write_turn(old(self).pending as int, outcome),
    {
        self.pending = self.pending - 1;
        match outcome {
            Err(e) => Some(Err(e)),
            Ok(()) => if self.pending == 0 {
                Some(Ok(()))
            } else {
                None
            },
        }
    }
}

/// A read of the same blocks of every device, one after the other.
pub struct RawRead {
    size: Block<u32>,
    offset: Block<u64>,
    places: Vec<(usize, usize)>,
    next: usize,
    copies: Vec<Vec<u8>>,
}

/// The state of a [`RawRead`].
#[verifier::ext_equal]
pub struct RawReadView {
    /// How many blocks.
    pub size: Block<u32>,
    /// The first block.
    pub offset: Block<u64>,
    /// The devices.
    pub places: Seq<(usize, usize)>,
    /// Which of them is to read next.
    pub next: int,
    /// What the ones before it have read.
    pub copies: Seq<Vec<u8>>,
}

/// What a device is asked to read, whatever its checksum is.
pub struct RawReadRequest {
    /// The tier and the device.
    pub place: (usize, usize),
    /// How many blocks.
    pub size: Block<u32>,
    /// The first block.
    pub offset: Block<u64>,
}

/// What the runtime has to do next for a [`RawRead`].
pub enum RawReadStep {
    /// Let a device read; the next turn takes its result.
    Read(RawReadRequest),
    /// Return this result.
    Return(Result<Vec<Vec<u8>>, VdevError>),
}

/// The state after a device has read these copies.
pub open spec fn after_raw_read(op: RawReadView, copies: Seq<Vec<u8>>) -> RawReadView {
    RawReadView { next: op.next + 1, copies: op.copies + copies, ..op }
}

/// The next device is asked to read, or everything is returned after the last
/// one.
pub open spec fn raw_read_step(op: RawReadView, step: RawReadStep) -> bool {
    if op.next < op.places.len() {
        step == RawReadStep::Read(
            RawReadRequest { place: op.places[op.next], size: op.size, offset: op.offset },
        )
    } else {
        step matches RawReadStep::Return(Ok(copies)) && copies@ == op.copies
    }
}

impl RawRead {
    /// The state of the operation.
    pub closed spec fn view(&self) -> RawReadView {
        RawReadView {
            size: self.size,
            offset: self.offset,
            places: self.places@,
            next: self.next as int,
            copies: self.copies@,
        }
    }

    /// Gives the operation the next turn. The first error ends it.
    pub fn turn(&mut self, outcome: Option<Result<Vec<Vec<u8>>, VdevError>>) -> (step: RawReadStep)
        requires
            outcome is Some ==> old(self)@.next < old(self)@.places.len(),
        ensures
            match outcome {
                None => raw_read_step(old(self)@, step) && (step is Read ==> final(self)@ == old(
                    self,
                )@),
                Some(Ok(copies)) => {
                    let now = after_raw_read(old(self)@, copies@);
                    raw_read_step(now, step) && (step is Read ==> final(self)@ == now)
                },
                Some(Err(e)) => step == RawReadStep::Return(Err(e)),
            },
    {
        match outcome {
            Some(Ok(copies)) => {
                let mut copies: Vec<Vec<u8>> = copies;
                self.copies.append(&mut copies);
                assert(self.next < self.places.len());
                self.next = self.next + 1;
            },
            Some(Err(e)) => return RawReadStep::Return(Err(e)),
            None => {},
        }
        if self.next < self.places.len() {
            RawReadStep::Read(
                RawReadRequest {
                    place: self.places[self.next],
                    size: self.size,
                    offset: self.offset,
                },
            )
        } else {
            let mut copies: Vec<Vec<u8>> = Vec::new();
            core::mem::swap(&mut copies, &mut self.copies);
            RawReadStep::Return(Ok(copies))
        }
    }
}

/// A flush of the queue, and then of every device, one after the other.
pub struct PoolFlush {
    flush: Flush,
    places: Vec<(usize, usize)>,
    next: usize,
}

/// The state of a [`PoolFlush`].
#[verifier::ext_equal]
pub struct PoolFlushView {
    /// The flush of the queue.
    pub flush: Flush,
    /// The devices.
    pub places: Seq<(usize, usize)>,
    /// Which of them is to be flushed next.
    pub next: int,
}

/// What the runtime has to do next for a [`PoolFlush`].
pub enum FlushStep {
    /// Block until another turn notifies.
    Sleep,
    /// Flush this device; the next turn takes its result.
    Flush((usize, usize)),
    /// Return this result.
    Return(Result<(), VdevError>),
}

/// The end of a turn of a [`PoolFlush`].
pub struct FlushTurn {
    /// What comes next for this operation.
    pub step: FlushStep,
    /// Whether sleeping operations have to be woken.
    pub notify: bool,
}

/// The queue, the operation and the end of the turn.
pub struct FlushOutcome {
    pub queue: QueueView,
    pub op: PoolFlushView,
    pub turn: FlushTurn,
}

/// The next device is to be flushed, or it is over after the last one.
pub open spec fn flush_step(op: PoolFlushView) -> FlushStep {
    if op.next < op.places.len() {
        FlushStep::Flush(op.places[op.next])
    } else {
        FlushStep::Return(Ok(()))
    }
}

/// A turn of a [`PoolFlush`]: wait until nothing is pending, then flush the
/// devices. The first error ends it.
pub open spec fn pool_flush_turn(
    q: QueueView,
    op: PoolFlushView,
    outcome: Option<Result<(), VdevError>>,
) -> FlushOutcome {
    if !(op.flush.phase is Done) {
        let end = flush_turn::<VdevError>(q, op.flush);
        let now = PoolFlushView { flush: Flush { phase: end.phase, ..op.flush }, ..op };
        FlushOutcome {
            queue: end.queue,
            op: now,
            turn: FlushTurn {
                step: match end.turn.step {
                    Step::Return(Ok(())) => flush_step(now),
                    Step::Return(Err(e)) => FlushStep::Return(Err(e)),
                    _ => FlushStep::Sleep,
                },
                notify: end.turn.notify,
            },
        }
    } else {
        let now = PoolFlushView { next: op.next + 1, ..op };
        FlushOutcome {
            queue: q,
            op: now,
            turn: FlushTurn {
                step: match outcome {
                    Some(Err(e)) => FlushStep::Return(Err(e)),
                    _ => flush_step(now),
                },
                notify: false,
            },
        }
    }
}

impl PoolFlush {
    /// The state of the operation.
    pub closed spec fn view(&self) -> PoolFlushView {
        PoolFlushView { flush: self.flush, places: self.places@, next: self.next as int }
    }

    /// The next device is to be flushed, or it is over after the last one.
    fn next_step(&self) -> (step: FlushStep)
        ensures
            step == flush_step(self@),
    {
        if self.next < self.places.len() {
            FlushStep::Flush(self.places[self.next])
        } else {
            FlushStep::Return(Ok(()))
        }
    }
}

impl<D: Vdev> StoragePoolUnit<D> {
    /// The places of all devices, a tier after the other.
    pub fn places(&self) -> (r: Vec<(usize, usize)>)
        requires
            self.inv(),
        ensures
            r@ == places(self.tiers()),
    {
        let mut r: Vec<(usize, usize)> = Vec::new();
        let mut class: usize = 0;
        while class < self.tiers.len()
            invariant
                self.inv(),
                class <= self.tiers@.len(),
                r@ == places(self.tiers().take(class as int)),
            decreases self.tiers@.len() - class,
        {
            let ghost before: Seq<(usize, usize)> = r@;
            let mut disk: usize = 0;
            while disk < self.tiers[class].len()
                invariant
                    class < self.tiers@.len(),
                    disk <= self.tiers@[class as int]@.len(),
                    r@ =~= before + places_in(class, disk as nat),
                decreases self.tiers@[class as int]@.len() - disk,
            {
                r.push((class, disk));
                disk = disk + 1;
            }
            proof {
                let now = self.tiers().take(class + 1);
                assert(now.drop_last() =~= self.tiers().take(class as int));
                assert(now.last() == self.tiers@[class as int]@);
            }
            class = class + 1;
        }
        assert(self.tiers().take(class as int) =~= self.tiers());
        r
    }

    /// Begins to write the same blocks of every device, all at once.
    pub fn write_raw(&self, offset: Block<u64>) -> (r: (Vec<(usize, usize)>, RawWrite))
        requires
            self.inv(),
        ensures
            r.0@ == places(self.tiers()),
            r.1.offset == offset,
            r.1.pending == r.0@.len(),
    {
        let places: Vec<(usize, usize)> = self.places();
        let pending: usize = places.len();
        (places, RawWrite { offset, pending })
    }

    /// Begins to read the same blocks of every device.
    pub fn read_raw(&self, size: Block<u32>, offset: Block<u64>) -> (op: RawRead)
        requires
            self.inv(),
        ensures
            op@ == (RawReadView {
                size,
                offset,
                places: places(self.tiers()),
                next: 0,
                copies: Seq::empty(),
            }),
    {
        RawRead { size, offset, places: self.places(), next: 0, copies: Vec::new() }
    }

    /// Begins to flush the queue and every device.
    pub fn flush(&self, who: u64) -> (op: PoolFlush)
        requires
            self.inv(),
        ensures
            op@ == (PoolFlushView {
                flush: Flush { who, phase: FlushPhase::Locking },
                places: places(self.tiers()),
                next: 0,
            }),
    {
        PoolFlush { flush: Flush::new(who), places: self.places(), next: 0 }
    }

    /// Gives a flush the next turn.
    pub fn continue_flush(&mut self, op: &mut PoolFlush, outcome: Option<Result<(), VdevError>>) -> (
    turn: FlushTurn)
        requires
            old(self).inv(),
            old(op)@.flush.wf(old(self).queue()),
            outcome is Some <==> old(op)@.flush.phase is Done,
            outcome is Some ==> old(op)@.next < old(op)@.places.len(),
        ensures
            final(self).inv(),
            final(self).tiers() == old(self).tiers(),
            final(op)@.flush.wf(final(self).queue()),
            (FlushOutcome { queue: final(self).queue(), op: final(op)@, turn }) == pool_flush_turn(
                old(self).queue(),
                old(op)@,
                outcome,
            ),
    {
        match outcome {
            None => {
                let turn: Turn<VdevError> = self.write_back_queue.flush(&mut op.flush);
                let step: FlushStep = match turn.step {
                    Step::Return(Ok(())) => op.next_step(),
                    Step::Return(Err(e)) => FlushStep::Return(Err(e)),
                    _ => FlushStep::Sleep,
                };
                FlushTurn { step, notify: turn.notify }
            },
            Some(result) => {
                assert(op.next < op.places.len());
                op.next = op.next + 1;
                let step: FlushStep = match result {
                    Err(e) => FlushStep::Return(Err(e)),
                    Ok(()) => op.next_step(),
                };
                FlushTurn { step, notify: false }
            },
        }
    }
}

/// The latch before a write is opened once, in the last turn. If the write got
/// into the queue, it is there by then, under the key of its place; if not, an
/// earlier write to the same place has failed with the error that is returned.
pub proof fn law_latch_opens_after_the_write_is_enqueued(
    q: QueueView,
    op: Write,
    outcome: Option<Result<(), VdevError>>,
)
    requires
        op.enqueue.wf(q),
        !(op.enqueue.phase is Done),
        outcome is Some <==> op.enqueue.phase is Waiting,
    ensures
        ({
            let end = write_turn(q, op, outcome);
            &&& end.turn.step is Release <==> end.phase is Done
            &&& end.turn.step == WriteStep::Release(Ok(())) ==> end.queue.futures.contains_key(
                op.enqueue.key,
            ) && end.queue.futures[op.enqueue.key] == op.enqueue.future
            &&& forall|e: VdevError|
                end.turn.step == WriteStep::Release(Err(e)) ==> #[trigger] has_error(outcome, e)
        }),
{
}

/// The future that was awaited returned this error.
pub open spec fn has_error(outcome: Option<Result<(), VdevError>>, e: VdevError) -> bool {
    outcome == Some(Result::<(), VdevError>::Err(e))
}

/// A read that begins while a write to the same place is pending waits for
/// that write, fails with its error, and otherwise reads after it.
pub proof fn law_read_waits_for_the_pending_write<C>(
    now: QueueView,
    op: Read<C>,
    write: u64,
    result: Result<(), VdevError>,
)
    requires
        op.wait.phase == WaitPhase::Waiting(write),
    ensures
        read_turn(now, op, None).turn.step == ReadStep::<C>::Await(write),
        read_turn(now, op, None).phase == op.wait.phase,
        read_turn(now, op, Some(result)).turn.step == match result {
            Ok(()) => ReadStep::Read(op.request()),
            Err(e) => ReadStep::Fail(e),
        },
{
}

/// A read that begins when a write to the same place got into the queue waits
/// for that write.
pub proof fn law_read_after_write<C>(
    q: QueueView,
    op: Write,
    outcome: Option<Result<(), VdevError>>,
    size: Block<u32>,
    checksum: C,
)
    requires
        op.enqueue.key == op.offset.spec_key(),
        op.enqueue.wf(q),
        !(op.enqueue.phase is Done),
        outcome is Some <==> op.enqueue.phase is Waiting,
        write_turn(q, op, outcome).turn.step == WriteStep::Release(Ok(())),
    ensures
        begun_read(write_turn(q, op, outcome).queue, size, op.offset, checksum).wait.phase
            == WaitPhase::Waiting(op.enqueue.future),
{
}

/// A read that begins any time after a write to the same place got into the
/// queue waits for that write, if no other operation has taken it out and none
/// was enqueued for that place since.
pub proof fn law_read_waits_for_the_last_write<C>(
    trace: Seq<QueueView>,
    actions: Seq<Action<VdevError>>,
    i: int,
    n: int,
    op: Write,
    outcome: Option<Result<(), VdevError>>,
    size: Block<u32>,
    checksum: C,
)
    requires
        reachable(trace, actions),
        0 <= i < n <= actions.len(),
        op.enqueue.key == op.offset.spec_key(),
        actions[i] == Action::Enqueue(op.enqueue, outcome),
        write_turn(trace[i], op, outcome).turn.step == WriteStep::Release(Ok(())),
        forall|j: int|
            i < j < n ==> !enqueues(trace[j], #[trigger] actions[j], op.enqueue.key) && !takes(
                trace[j],
                actions[j],
                op.enqueue.key,
            ),
    ensures
        begun_read(trace[n], size, op.offset, checksum).wait.phase == WaitPhase::Waiting(
            op.enqueue.future,
        ),
{
    law_stored_future_is_the_last_enqueued(trace, actions, i, n, op.enqueue, outcome);
}

/// A read of a place that no write is pending for reads at once.
pub proof fn law_read_without_pending_write_reads_at_once<C>(now: QueueView, op: Read<C>)
    requires
        op.wait.phase is Ready,
    ensures
        read_turn(now, op, None).turn.step == ReadStep::Read(op.request()),
        read_turn(now, op, None).queue == now,
{
}

/// Two places have the same key only if they are the same.
pub proof fn law_keys_tell_places_apart(a: DiskOffset, b: DiskOffset)
    ensures
        a.spec_key() == b.spec_key() <==> a == b,
{
}

/// A device is flushed only after a moment at which nothing was pending; the
/// devices are flushed in their order, each once; and success means that all
/// of them were.
pub proof fn law_flush_order(
    q: QueueView,
    op: PoolFlushView,
    outcome: Option<Result<(), VdevError>>,
)
    requires
        outcome is Some <==> op.flush.phase is Done,
        op.flush.phase is Done ==> op.next < op.places.len(),
        !(op.flush.phase is Done) ==> op.next == 0,
    ensures
        ({
            let end = pool_flush_turn(q, op, outcome);
            &&& end.op.places == op.places
            &&& end.turn.step is Flush ==> end.op.flush.phase is Done && end.turn.step
                == FlushStep::Flush(op.places[end.op.next])
            &&& end.op.flush.phase is Done ==> end.op.next == if op.flush.phase is Done {
                op.next + 1
            } else {
                0
            }
            &&& end.op.flush.phase is Done && !(op.flush.phase is Done) ==> q.pending == 0
            &&& end.turn.step == FlushStep::Return(Ok(())) ==> end.op.flush.phase is Done
                && end.op.next == op.places.len()
            &&& forall|e: VdevError|
                end.turn.step == FlushStep::Return(Err(e)) ==> #[trigger] has_error(outcome, e)
        }),
{
}

/// What a raw write returns after the first `k` of these results, in whatever
/// order the devices give them.
pub open spec fn raw_write_result(
    results: Seq<Result<(), VdevError>>,
    k: int,
) -> Option<Result<(), VdevError>>
    decreases k,
{
    if k <= 0 {
        None
    } else if raw_write_result(results, k - 1) is Some {
        raw_write_result(results, k - 1)
    } else {
        raw_write_turn(results.len() - k + 1, results[k - 1])
    }
}

/// A raw write succeeds exactly if every device does, and not before the last
/// one has; otherwise it returns the first error there was.
pub proof fn law_raw_write(results: Seq<Result<(), VdevError>>, k: int)
    requires
        0 < k <= results.len(),
        forall|i: int| 0 <= i < k - 1 ==> (#[trigger] results[i]) is Ok,
    ensures
        raw_write_result(results, k - 1) is None,
        raw_write_result(results, k) == match results[k - 1] {
            Ok(()) => if k == results.len() {
                Some(Ok::<(), VdevError>(()))
            } else {
                None
            },
            Err(e) => Some(Err(e)),
        },
    decreases k,
{
    if k > 1 {
        law_raw_write(results, k - 1);
    }
}

/// A raw read asks one device after the other, in their order, and returns
/// what they have read in that order, once all of them have.
pub proof fn law_raw_read_collects_in_order(
    op: RawReadView,
    results: Seq<Seq<Vec<u8>>>,
    step: RawReadStep,
)
    requires
        0 <= op.next < op.places.len() == results.len(),
        op.copies == results.take(op.next).flatten(),
        raw_read_step(after_raw_read(op, results[op.next]), step),
    ensures
        after_raw_read(op, results[op.next]).copies == results.take(op.next + 1).flatten(),
        step is Return <==> op.next + 1 == op.places.len(),
        step matches RawReadStep::Return(Ok(copies)) ==> copies@ == results.flatten(),
        step matches RawReadStep::Read(request) ==> request.place == op.places[op.next + 1],
{
    let before = results.take(op.next);
    before.lemma_flatten_push(results[op.next]);
    assert(results.take(op.next + 1) =~= before.push(results[op.next]));
    assert(results.take(results.len() as int) =~= results);
}

/// Every device has a place, after those of the tiers before it and of the
/// devices before it.
pub proof fn law_every_device_has_a_place<D>(tiers: Seq<Seq<D>>, class: int, disk: int)
    requires
        0 <= class < tiers.len() <= usize::MAX,
        0 <= disk < tiers[class].len() <= usize::MAX,
    ensures
        places(tiers)[places(tiers.take(class)).len() + disk] == (class as usize, disk as usize),
        places(tiers.take(class)).len() + disk < places(tiers).len(),
    decreases tiers.len(),
{
    let rest = tiers.drop_last();
    if class == tiers.len() - 1 {
        assert(tiers.take(class) =~= rest);
    } else {
        law_every_device_has_a_place(rest, class, disk);
        assert(rest.take(class) =~= tiers.take(class));
    }
}

/// Every place is the one of a device, and no device has two.
pub proof fn law_every_place_has_a_device<D>(tiers: Seq<Seq<D>>, i: int)
    requires
        0 <= i < places(tiers).len(),
        tiers.len() <= usize::MAX,
        forall|class: int| 0 <= class < tiers.len() ==> (#[trigger] tiers[class]).len() <= usize::MAX,
    ensures
        ({
            let (class, disk) = places(tiers)[i];
            &&& class < tiers.len()
            &&& disk < tiers[class as int].len()
            &&& i == places(tiers.take(class as int)).len() + disk
        }),
    decreases tiers.len(),
{
    let rest = tiers.drop_last();
    if i < places(rest).len() {
        law_every_place_has_a_device(rest, i);
        let class = places(rest)[i].0 as int;
        assert(rest[class] == tiers[class]);
        assert(rest.take(class) =~= tiers.take(class));
    } else {
        assert(tiers.take(tiers.len() - 1) =~= rest);
        assert(tiers[tiers.len() - 1] == tiers.last());
    }
}

/// The key of a place is made of the tier, the disk and the block.
pub proof fn law_key_of_a_place(offset: DiskOffset)
    ensures
        offset.spec_key() == (offset.storage_class, offset.disk_id, offset.block_offset.0),
{
}

/// A read that begins asks for what it was given, and waits for the write that
/// is pending for its tier, disk and block, if there is one.
pub proof fn law_begun_read_keeps_what_it_was_given<C>(
    q: QueueView,
    size: Block<u32>,
    offset: DiskOffset,
    checksum: C,
)
    ensures
        ({
            let op = begun_read(q, size, offset, checksum);
            let key = (offset.storage_class, offset.disk_id, offset.block_offset.0);
            &&& op.size == size
            &&& op.offset == offset
            &&& op.checksum == checksum
            &&& q.futures.contains_key(key) ==> op.wait.phase == WaitPhase::Waiting(q.futures[key])
            &&& !q.futures.contains_key(key) ==> op.wait.phase is Ready
        }),
{
}

/// The device is asked to read as many blocks, from the same block of the same
/// disk of the same tier on, and with the same checksum, as the read was given.
pub proof fn law_device_is_asked_for_what_the_read_was_given<C>(
    q: QueueView,
    op: Read<C>,
    outcome: Option<Result<(), VdevError>>,
)
    ensures
        read_turn(q, op, outcome).turn.step matches ReadStep::Read(request) ==> {
            &&& request.size == op.size
            &&& request.offset.storage_class == op.offset.storage_class
            &&& request.offset.disk_id == op.offset.disk_id
            &&& request.offset.block_offset == op.offset.block_offset
            &&& request.checksum == op.checksum
        },
{
}

/// A read reads unless a pending write is to be awaited first or has failed,
/// and its turns change the queue by one completed write at most.
pub proof fn law_turns_of_a_read<C>(
    q: QueueView,
    op: Read<C>,
    write: u64,
    result: Result<(), VdevError>,
)
    ensures
        op.wait.phase is Ready ==> {
            let end = read_turn(q, op, None);
            &&& end.turn.step is Read
            &&& end.queue == q
            &&& end.phase is Done
            &&& !end.turn.notify
        },
        op.wait.phase == WaitPhase::Waiting(write) ==> {
            let (begin, end) = (read_turn(q, op, None), read_turn(q, op, Some(result)));
            &&& begin.turn.step == ReadStep::<C>::Await(write)
            &&& begin.queue == q
            &&& begin.phase == WaitPhase::Waiting(write)
            &&& !begin.turn.notify
            &&& end.turn.step is Read <==> result is Ok
            &&& result matches Err(e) ==> end.turn.step == ReadStep::<C>::Fail(e)
            &&& end.phase is Done
            &&& end.turn.notify
            &&& end.queue == (QueueView {
                futures: q.futures,
                soft_limit: q.soft_limit,
                hard_limit: q.hard_limit,
                flush_lock: q.flush_lock,
                pending: q.pending - 1,
            })
        },
{
}

/// A write that meets a free lock, or has it and waits for room, is stored
/// under the key of its place and released in that turn, if at most
/// `hard_limit` writes are pending and none for its place.
pub proof fn law_write_is_stored_while_there_is_room(
    q: QueueView,
    op: Write,
    outcome: Option<Result<(), VdevError>>,
)
    requires
        op.enqueue.key == op.offset.spec_key(),
        op.enqueue.phase is Admitting || (op.enqueue.phase is Locking && q.flush_lock is None
            && !q.futures.contains_key(op.enqueue.key)),
        q.pending <= q.hard_limit,
    ensures
        ({
            let end = write_turn(q, op, outcome);
            let key = (op.offset.storage_class, op.offset.disk_id, op.offset.block_offset.0);
            &&& end.turn.step == WriteStep::Release(Ok(()))
            &&& end.turn.notify
            &&& end.phase is Done
            &&& end.queue == (QueueView {
                futures: q.futures.insert(key, op.enqueue.future),
                soft_limit: q.soft_limit,
                hard_limit: q.hard_limit,
                flush_lock: None,
                pending: q.pending + 1,
            })
        }),
{
}

/// A write does what its way into the queue says: it awaits what that awaits,
/// sleeps when that sleeps, and is released with the result of that.
pub proof fn law_write_follows_its_way_into_the_queue(
    q: QueueView,
    op: Write,
    outcome: Option<Result<(), VdevError>>,
    write: u64,
)
    requires
        op.enqueue.wf(q),
        !(op.enqueue.phase is Done),
        outcome is Some <==> op.enqueue.phase is Waiting,
    ensures
        ({
            let end = write_turn(q, op, outcome);
            let way = enqueue_turn(q, op.enqueue, outcome);
            &&& end.queue == way.queue
            &&& end.phase == way.phase
            &&& end.turn.notify == way.turn.notify
            &&& way.turn.step matches Step::Return(result) ==> end.turn.step == WriteStep::Release(
                result,
            )
            &&& way.turn.step matches Step::Await(earlier) ==> end.turn.step == WriteStep::Await(
                earlier,
            )
            &&& way.turn.step is Sleep ==> end.turn.step is Sleep
            &&& op.enqueue.phase is Waiting ==> (outcome matches Some(Err(e)) ==> end.turn.step
                == WriteStep::Release(Err(e)))
            &&& op.enqueue.phase is Locking && q.flush_lock is None && q.futures.contains_pair(
                op.enqueue.key,
                write,
            ) ==> end.turn.step == WriteStep::Await(write)
            &&& op.enqueue.phase is Locking && q.flush_lock is Some ==> end.turn.step is Sleep
                && end.queue == q
        }),
{
}

/// If the flush of a device fails, whichever device it is, that turn ends the
/// flush of the pool with the same error.
pub proof fn law_failed_device_fails_the_flush(q: QueueView, op: PoolFlushView, e: VdevError)
    requires
        op.flush.phase is Done,
    ensures
        pool_flush_turn(q, op, Some(Err(e))).turn.step == FlushStep::Return(Err(e)),
        pool_flush_turn(q, op, Some(Err(e))).queue == q,
{
}

/// If the flush of a device succeeds, the next device is flushed, and the flush
/// of the pool succeeds after the last one.
pub proof fn law_flush_goes_on_after_a_device(q: QueueView, op: PoolFlushView)
    requires
        op.flush.phase is Done,
        0 <= op.next < op.places.len(),
    ensures
        ({
            let end = pool_flush_turn(q, op, Some(Ok(())));
            &&& end.queue == q
            &&& !end.turn.notify
            &&& end.op.next == op.next + 1
            &&& end.op.places == op.places
            &&& end.op.flush == op.flush
            &&& op.next + 1 < op.places.len() ==> end.turn.step == FlushStep::Flush(
                op.places[op.next + 1],
            )
            &&& op.next + 1 == op.places.len() ==> end.turn.step == FlushStep::Return(Ok(()))
        }),
{
}

/// A flush first waits until nothing is pending: it sleeps while another
/// operation has the lock or something is pending, and asks for the first
/// device, or returns if there is none, when nothing is.
pub proof fn law_flush_begins_with_the_queue(q: QueueView, op: PoolFlushView)
    requires
        !(op.flush.phase is Done),
        op.flush.phase is Emptying ==> q.flush_lock == Some(op.flush.who),
        op.next == 0,
    ensures
        ({
            let end = pool_flush_turn(q, op, None);
            let held = op.flush.phase is Locking && q.flush_lock is Some;
            &&& end.op.places == op.places
            &&& end.op.next == 0
            &&& end.op.flush.who == op.flush.who
            &&& end.queue.futures == q.futures
            &&& end.queue.pending == q.pending
            &&& held || q.pending != 0 ==> end.turn.step is Sleep && !end.turn.notify
            &&& held ==> end.queue == q && end.op == op
            &&& !held && q.pending != 0 ==> end.queue.flush_lock == Some(op.flush.who)
                && end.op.flush.phase is Emptying
            &&& !held && q.pending == 0 ==> {
                &&& end.op.flush.phase is Done
                &&& end.queue.flush_lock is None
                &&& end.turn.notify == (op.flush.phase is Emptying)
                &&& op.places.len() > 0 ==> end.turn.step == FlushStep::Flush(op.places[0])
                &&& op.places.len() == 0 ==> end.turn.step == FlushStep::Return(Ok(()))
            }
        }),
{
}

/// The flush of a pool succeeds only if the flush of every device has: in a run
/// through the devices that ends with success, each device was flushed once, in
/// its order, with success.
pub proof fn law_flush_succeeds_only_if_every_device_does(
    queues: Seq<QueueView>,
    ops: Seq<PoolFlushView>,
    results: Seq<Result<(), VdevError>>,
    k: int,
)
    requires
        queues.len() == results.len(),
        ops.len() == results.len() + 1,
        results.len() > 0,
        ops[0].flush.phase is Done,
        ops[0].next == 0,
        forall|i: int|
            #![trigger results[i]]
            0 <= i < results.len() ==> ops[i + 1] == pool_flush_turn(
                queues[i],
                ops[i],
                Some(results[i]),
            ).op,
        forall|i: int|
            #![trigger queues[i]]
            0 <= i < results.len() - 1 ==> pool_flush_turn(
                queues[i],
                ops[i],
                Some(results[i]),
            ).turn.step is Flush,
        pool_flush_turn(
            queues.last(),
            ops[results.len() - 1],
            Some(results.last()),
        ).turn.step == FlushStep::Return(Ok(())),
        0 <= k < results.len(),
    ensures
        results[k] is Ok,
        results.len() >= ops[0].places.len(),
        ops[k].next == k,
        k + 1 < results.len() ==> pool_flush_turn(queues[k], ops[k], Some(results[k])).turn.step
            == FlushStep::Flush(ops[0].places[k + 1]),
{
    let n = results.len() as int;
    lemma_flush_run(queues, ops, results, k);
    lemma_flush_run(queues, ops, results, n - 1);
    assert(queues.last() == queues[n - 1]);
    assert(results.last() == results[n - 1]);
    assert(ops[n] == pool_flush_turn(queues[n - 1], ops[n - 1], Some(results[n - 1])).op);
    if results[k] is Err {
        assert(results[k] == Err::<(), VdevError>(results[k]->Err_0));
        law_failed_device_fails_the_flush(queues[k], ops[k], results[k]->Err_0);
        if k < n - 1 {
            assert(pool_flush_turn(queues[k], ops[k], Some(results[k])).turn.step is Flush);
        }
        assert(false);
    }
}

/// In a run of a flush through the devices, `ops[k]` is about device `k`.
proof fn lemma_flush_run(
    queues: Seq<QueueView>,
    ops: Seq<PoolFlushView>,
    results: Seq<Result<(), VdevError>>,
    k: int,
)
    requires
        queues.len() == results.len(),
        ops.len() == results.len() + 1,
        ops[0].flush.phase is Done,
        ops[0].next == 0,
        forall|i: int|
            #![trigger results[i]]
            0 <= i < results.len() ==> ops[i + 1] == pool_flush_turn(
                queues[i],
                ops[i],
                Some(results[i]),
            ).op,
        0 <= k <= results.len(),
    ensures
        ops[k].next == k,
        ops[k].flush.phase is Done,
        ops[k].places == ops[0].places,
    decreases k,
{
    if k > 0 {
        lemma_flush_run(queues, ops, results, k - 1);
        assert(ops[k] == pool_flush_turn(queues[k - 1], ops[k - 1], Some(results[k - 1])).op);
    }
}

/// One device that has written ends a raw write with its error, or with success
/// if it was the last one and has none.
pub proof fn law_raw_write_ends_with_an_error_or_the_last_device(
    pending: int,
    outcome: Result<(), VdevError>,
)
    ensures
        outcome matches Err(e) ==> raw_write_turn(pending, outcome) == Some(
            Err::<(), VdevError>(e),
        ),
        outcome is Ok && pending == 1 ==> raw_write_turn(pending, outcome) == Some(
            Ok::<(), VdevError>(()),
        ),
        outcome is Ok && pending != 1 ==> raw_write_turn(pending, outcome) is None,
{
}

/// A raw read asks the device in its place for the blocks that it was given, and
/// returns all copies, in the order in which they were read, when all devices
/// have read.
pub proof fn law_raw_read_asks_for_what_it_was_given(
    op: RawReadView,
    step: RawReadStep,
    copies: Seq<Vec<u8>>,
)
    requires
        raw_read_step(op, step),
    ensures
        op.next < op.places.len() ==> (step matches RawReadStep::Read(request) && request.place
            == op.places[op.next] && request.size == op.size && request.offset == op.offset),
        op.next >= op.places.len() ==> (step matches RawReadStep::Return(Ok(all)) && all@
            == op.copies),
        after_raw_read(op, copies).next == op.next + 1,
        after_raw_read(op, copies).copies == op.copies + copies,
        after_raw_read(op, copies).places == op.places,
        after_raw_read(op, copies).size == op.size,
        after_raw_read(op, copies).offset == op.offset,
{
}

/// Devices come in the order of their tiers, and within a tier in their order.
pub proof fn law_places_are_in_order<D>(tiers: Seq<Seq<D>>, i: int, j: int)
    requires
        0 <= i < j < places(tiers).len(),
        tiers.len() <= usize::MAX,
        forall|class: int| 0 <= class < tiers.len() ==> (#[trigger] tiers[class]).len() <= usize::MAX,
    ensures
        places(tiers)[i].0 < places(tiers)[j].0 || (places(tiers)[i].0 == places(tiers)[j].0
            && places(tiers)[i].1 < places(tiers)[j].1),
{
    law_every_place_has_a_device(tiers, i);
    law_every_place_has_a_device(tiers, j);
    let (a, b) = (places(tiers)[i].0 as int, places(tiers)[j].0 as int);
    if b < a {
        lemma_places_grow(tiers, b + 1, a);
        assert(tiers.take(b + 1).drop_last() =~= tiers.take(b));
        assert(tiers.take(b + 1).last() == tiers[b]);
    }
}

/// More tiers have more places.
proof fn lemma_places_grow<D>(tiers: Seq<Seq<D>>, a: int, b: int)
    requires
        0 <= a <= b <= tiers.len(),
    ensures
        places(tiers.take(a)).len() <= places(tiers.take(b)).len(),
    decreases b - a,
{
    if a < b {
        lemma_places_grow(tiers, a, b - 1);
        assert(tiers.take(b).drop_last() =~= tiers.take(b - 1));
    }
}

/// The number of places is the number of devices: a tier adds as many as it has.
pub proof fn law_places_are_counted<D>(tiers: Seq<Seq<D>>, tier: Seq<D>)
    ensures
        places(Seq::<Seq<D>>::empty()).len() == 0,
        places(tiers.push(tier)).len() == places(tiers).len() + tier.len(),
{
    assert(tiers.push(tier).drop_last() =~= tiers);
}

/// The tiers of a pool are the given ones and then empty ones, as many as there
/// are storage classes.
pub proof fn law_tiers_are_padded<D>(tiers: Seq<Seq<D>>)
    requires
        tiers.len() <= 4,
    ensures
        padded(tiers).len() == 4,
        forall|i: int| 0 <= i < tiers.len() ==> #[trigger] padded(tiers)[i] == tiers[i],
        forall|i: int| tiers.len() <= i < 4 ==> (#[trigger] padded(tiers)[i]).len() == 0,
{
}

/// A pool has exactly the disks that its tiers have, and each is the device in
/// its place.
pub proof fn law_disks_are_the_devices_of_the_tiers<D: Vdev>(
    pool: &StoragePoolUnit<D>,
    storage_class: u8,
    disk_id: u16,
)
    ensures
        pool.has_disk(storage_class, disk_id) <==> storage_class < pool.tiers().len() && disk_id
            < pool.tiers()[storage_class as int].len(),
        pool.disk(storage_class, disk_id) == pool.tiers()[storage_class as int][disk_id as int],
{
}

/// What a task returned is passed on, and a task that returned nothing is an
/// error that says why.
pub proof fn law_outcomes_of_tasks<T>(value: T, e: VdevError, failure: TaskFailure)
    ensures
        joined(Ok(Ok(value))) == Ok::<T, VdevError>(value),
        joined(Ok(Err::<T, VdevError>(e))) == Err::<T, VdevError>(e),
        joined(Err::<Result<T, VdevError>, TaskFailure>(failure)) == Err::<T, VdevError>(
            VdevError::TaskError(failure),
        ),
{
}

} // verus!
