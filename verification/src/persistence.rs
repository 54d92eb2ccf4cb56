//! A test of block devices: what was written and not overwritten is read back.

use crate::block::{bytes, Block};
use crate::failing_leaf_vdev::{
    after_write, concluded, generate_data, generated, law_read_gives_back_what_was_written,
    law_write_leaves_the_rest, read_result, section, shown, FailingLeafVdev, FailureMode, VdevView,
};
use crate::vdev::{Builder, Checksum, ChecksumError, Vdev, VdevError};
use vstd::prelude::*;

verus! {

/// The blocks that one write takes.
pub struct Range {
    /// The first block.
    pub offset: u64,
    /// How many blocks.
    pub size: u32,
}

impl Range {
    /// Whether block `b` is one of them.
    pub open spec fn covers(self, b: int) -> bool {
        self.offset <= b < self.offset + self.size
    }

    /// Whether a block is in both.
    pub open spec fn overlaps(self, other: Range) -> bool {
        exists|b: int| #[trigger] self.covers(b) && other.covers(b)
    }
}

/// No write after write `idx` takes one of its blocks.
pub open spec fn intact(ranges: Seq<Range>, idx: int) -> bool {
    forall|j: int| idx < j < ranges.len() ==> !ranges[idx].overlaps(#[trigger] ranges[j])
}

/// Keeps track of which write each block was last written by.
pub struct PersistenceCheck {
    marker: Vec<usize>,
    ranges: Vec<Range>,
}

impl PersistenceCheck {
    /// The writes so far.
    pub closed spec fn view(&self) -> Seq<Range> {
        self.ranges@
    }

    /// How many blocks the device has.
    pub closed spec fn blocks(&self) -> nat {
        self.marker@.len()
    }

    /// All writes are within the device, and each block that was written is
    /// marked with the last write that took it.
    pub closed spec fn inv(&self) -> bool {
        &&& forall|i: int|
            0 <= i < self.ranges@.len() ==> (#[trigger] self.ranges@[i]).offset
                + self.ranges@[i].size <= self.marker@.len()
        &&& forall|i: int, b: int|
            0 <= i < self.ranges@.len() && #[trigger] self.ranges@[i].covers(b) ==> i
                <= self.marker@[b] < self.ranges@.len() && self.ranges@[self.marker@[b] as int].covers(
                b,
            )
    }

    /// Nothing was written to a device of `size` blocks yet.
    pub fn new(size: Block<u64>) -> (check: Self)
        requires
            size.0 <= usize::MAX,
        ensures
            check.inv(),
            check@ == Seq::<Range>::empty(),
            check.blocks() == size.0,
    {
        PersistenceCheck { marker: vec![0usize; size.as_u64() as usize], ranges: Vec::new() }
    }

    /// Notes that the next write takes `actual_size` blocks from `offset` on,
    /// and returns the data for it: `size` blocks.
    pub fn write(&mut self, offset: u8, size: u8, actual_size: Block<u32>) -> (data: Vec<u8>)
        requires
            old(self).inv(),
            offset + actual_size.0 <= old(self).blocks(),
        ensures
            final(self).inv(),
            final(self).blocks() == old(self).blocks(),
            final(self)@ == old(self)@.push(Range { offset: offset as u64, size: actual_size.0 }),
            data@ == generated(old(self)@.len() as usize, Block(offset as u64), Block(size as u32)),
            data@.len() == bytes(size as int),
    {
        let idx: usize = self.ranges.len();
        assert(offset + actual_size.0 <= self.marker.len());
        let first: usize = offset as usize;
        let end: usize = first + actual_size.0 as usize;
        let mut b: usize = first;
        while b < end
            invariant
                first <= b <= end <= self.marker@.len(),
                self.ranges@ == old(self).ranges@,
                self.marker@.len() == old(self).marker@.len(),
                forall|i: int|
                    0 <= i < self.marker@.len() ==> #[trigger] self.marker@[i] == if first <= i < b {
                        idx
                    } else {
                        old(self).marker@[i]
                    },
            decreases end - b,
        {
            self.marker[b] = idx;
            b = b + 1;
        }
        self.ranges.push(Range { offset: offset as u64, size: actual_size.0 });
        proof {
            assert forall|i: int, b: int|
                0 <= i < self.ranges@.len() && #[trigger] self.ranges@[i].covers(b) implies i
                <= self.marker@[b] < self.ranges@.len() && self.ranges@[self.marker@[b] as int].covers(
                b,
            ) by {
                if !(first <= b < end) {
                    assert(i < idx);
                    assert(old(self).ranges@[i].covers(b));
                }
            }
        }
        generate_data(idx, Block(offset as u64), Block(size as u32))
    }

    /// Whether write `idx` can be read back.
    pub fn is_intact(&self, idx: usize) -> (r: bool)
        requires
            self.inv(),
            idx < self@.len(),
        ensures
            r == intact(self@, idx as int),
            r <==> forall|j: int|
                idx < j < self@.len() ==> {
                    ||| self@[idx as int].size == 0
                    ||| (#[trigger] self@[j]).size == 0
                    ||| self@[idx as int].offset + self@[idx as int].size <= self@[j].offset
                    ||| self@[j].offset + self@[j].size <= self@[idx as int].offset
                },
    {
        proof {
            law_intact_by_block_numbers(self@, idx as int);
        }
        let first: usize = self.ranges[idx].offset as usize;
        assert(self.ranges@[idx as int].offset + self.ranges@[idx as int].size <= self.marker.len());
        let end: usize = first + self.ranges[idx].size as usize;
        let mut b: usize = first;
        while b < end
            invariant
                self.inv(),
                idx < self@.len(),
                first <= b <= end <= self.marker@.len(),
                first == self@[idx as int].offset,
                end == first + self@[idx as int].size,
                forall|i: int| first <= i < b ==> #[trigger] self.marker@[i] == idx,
            decreases end - b,
        {
            if self.marker[b] != idx {
                proof {
                    assert(self.ranges@[idx as int].covers(b as int));
                    let j = self.marker@[b as int] as int;
                    assert(self.ranges@[j].covers(b as int));
                    assert(self@[idx as int].overlaps(self@[j]));
                }
                return false;
            }
            b = b + 1;
        }
        proof {
            assert forall|j: int| idx < j < self@.len() implies !self@[idx as int].overlaps(
                #[trigger] self@[j],
            ) by {
                if self@[idx as int].overlaps(self@[j]) {
                    let b = choose|b: int|
                        #[trigger] self@[idx as int].covers(b) && self@[j].covers(b);
                    assert(self.ranges@[j].covers(b));
                    assert(self.marker@[b] == idx);
                }
            }
        }
        true
    }
}

/// How a device did not keep what was written.
#[derive(Debug, Clone, Copy, PartialEq, Eq, Structural)]
pub enum Failure {
    /// The device has not all of the blocks of this write.
    OutOfRange(usize),
    /// This write failed.
    WriteFailed(usize),
    /// This write could not be read back.
    ReadFailed(usize),
    /// What was read back for this write has a wrong checksum.
    WrongChecksum(usize),
    /// Something else was read back for this write.
    WrongData(usize),
}

/// Whether two vectors hold the same bytes.
fn same_bytes(a: &Vec<u8>, b: &Vec<u8>) -> (r: bool)
    ensures
        r == (a@ == b@),
{
    if a.len() != b.len() {
        return false;
    }
    let mut i: usize = 0;
    while i < a.len()
        invariant
            i <= a@.len() == b@.len(),
            forall|j: int| 0 <= j < i ==> a@[j] == b@[j],
        decreases a@.len() - i,
    {
        if a[i] != b[i] {
            return false;
        }
        i = i + 1;
    }
    assert(a@ =~= b@);
    true
}

/// Compares what was read back for write `idx` with what was written: both
/// need the checksum, and they have to be equal.
pub fn judge(
    idx: usize,
    data: &Vec<u8>,
    written: &Vec<u8>,
    data_verdict: Result<(), ChecksumError>,
    written_verdict: Result<(), ChecksumError>,
) -> (r: Result<(), Failure>)
    ensures
        r == judged(idx, data@, written@, data_verdict, written_verdict),
{
    if data_verdict.is_err() || written_verdict.is_err() {
        Err(Failure::WrongChecksum(idx))
    } else if !same_bytes(data, written) {
        Err(Failure::WrongData(idx))
    } else {
        Ok(())
    }
}

/// The blocks that a write of a pair of an offset and a size takes.
pub open spec fn range_of(write: (u8, u8)) -> Range {
    Range { offset: write.0 as u64, size: write.1 as u32 }
}

/// The blocks that the writes take.
pub open spec fn ranges_of(writes: Seq<(u8, u8)>) -> Seq<Range> {
    writes.map_values(|write: (u8, u8)| range_of(write))
}

/// The blocks that the writes take on a device, as many as it says.
pub open spec fn ranges_on(writes: Seq<(u8, u8)>, actual_sizes: Seq<Block<u32>>) -> Seq<Range> {
    Seq::new(
        writes.len(),
        |i: int| Range { offset: writes[i].0 as u64, size: actual_sizes[i].0 },
    )
}

/// The data of write `i`.
pub open spec fn data_of(writes: Seq<(u8, u8)>, i: int) -> Seq<u8> {
    generated(i as usize, Block(writes[i].0 as u64), Block(writes[i].1 as u32))
}

/// The device after the first `k` writes.
pub open spec fn written_through(v: VdevView, writes: Seq<(u8, u8)>, k: int) -> VdevView
    decreases k,
{
    if k <= 0 {
        v
    } else {
        after_write(
            written_through(v, writes, k - 1),
            data_of(writes, k - 1),
            Block(writes[k - 1].0 as u64),
            false,
        )
    }
}

/// What the device holds where write `i` went.
pub open spec fn held(v: VdevView, writes: Seq<(u8, u8)>, i: int) -> Seq<u8> {
    section(v.buffer, bytes(writes[i].0 as int), bytes(writes[i].1 as int))
}

/// The device holds the data of write `i`.
pub open spec fn stored(v: VdevView, writes: Seq<(u8, u8)>, i: int) -> bool {
    held(v, writes, i) == data_of(writes, i)
}

/// `checksum` was computed of `data`.
pub open spec fn is_checksum_of<C: Checksum, B: Builder<C>>(
    builder: &B,
    checksum: C,
    data: Seq<u8>,
) -> bool {
    exists|slice: &[u8]|
        slice@ == data && #[trigger] call_ensures(B::checksum, (builder, slice), checksum)
}

/// Data always has the checksum that was computed of it.
pub open spec fn honest<C: Checksum, B: Builder<C>>(builder: &B) -> bool {
    forall|checksum: C, slice: &[u8], verdict: Result<(), ChecksumError>|
        is_checksum_of(builder, checksum, slice@) && #[trigger] call_ensures(
            C::verify,
            (&checksum, slice),
            verdict,
        ) ==> verdict is Ok
}

/// The first `k` writes are within the device.
pub open spec fn within(v: VdevView, writes: Seq<(u8, u8)>, k: int) -> bool {
    forall|i: int|
        0 <= i < k ==> bytes((#[trigger] writes[i]).0 + writes[i].1) <= v.buffer.len()
}

/// Write `k` on a device that keeps what it is given leaves every write before
/// it that it does not overlap, and stores its own data.
proof fn lemma_write_keeps_others(v: VdevView, writes: Seq<(u8, u8)>, k: int)
    requires
        0 <= k < writes.len(),
        within(v, writes, k + 1),
        v.fail_writes == FailureMode::NoFail,
        data_of(writes, k).len() == bytes(writes[k].1 as int),
        v.buffer.len() <= u32::MAX,
        forall|i: int|
            0 <= i < k && intact(ranges_of(writes).take(k), i) ==> #[trigger] stored(v, writes, i),
    ensures
        forall|i: int|
            0 <= i < k + 1 && intact(ranges_of(writes).take(k + 1), i) ==> #[trigger] stored(
                after_write(v, data_of(writes, k), Block(writes[k].0 as u64), false),
                writes,
                i,
            ),
{
    let offset: Block<u64> = Block(writes[k].0 as u64);
    let data = data_of(writes, k);
    let after = after_write(v, data, offset, false);
    let now = ranges_of(writes).take(k + 1);
    assert forall|i: int| 0 <= i < k + 1 && intact(now, i) implies #[trigger] stored(
        after,
        writes,
        i,
    ) by {
        if i == k {
            law_read_gives_back_what_was_written(
                VdevView { fail_reads: FailureMode::NoFail, ..v },
                data,
                Block(writes[k].1 as u32),
                offset,
                false,
            );
        } else {
            let before = ranges_of(writes).take(k);
            assert(intact(before, i)) by {
                assert forall|j: int| i < j < before.len() implies !before[i].overlaps(
                    #[trigger] before[j],
                ) by {
                    assert(now[j] == before[j]);
                }
            }
            assert(stored(v, writes, i));
            assert(!now[i].overlaps(now[k]));
            let (o, n) = (writes[i].0 as int, writes[i].1 as int);
            let (p, m) = (writes[k].0 as int, writes[k].1 as int);
            if n == 0 {
                assert(section(after.buffer, bytes(o), 0) =~= section(v.buffer, bytes(o), 0));
            } else if m == 0 {
                assert(after.buffer =~= v.buffer);
            } else {
                let b = if o < p {
                    p
                } else {
                    o
                };
                if o < p + m && p < o + n {
                    assert(now[i].covers(b) && now[k].covers(b));
                }
                law_write_leaves_the_rest(v, data, offset, false, bytes(o), bytes(n));
            }
        }
    }
}

/// The writes do not change how the device fails, nor its size and name.
proof fn lemma_written_through(v: VdevView, writes: Seq<(u8, u8)>, k: int)
    requires
        0 <= k <= writes.len(),
        within(v, writes, k),
        v.fail_writes != FailureMode::Panic,
        v.buffer.len() <= u32::MAX,
        forall|i: int| 0 <= i < k ==> (#[trigger] data_of(writes, i)).len() == bytes(writes[i].1 as int),
    ensures
        written_through(v, writes, k).buffer.len() == v.buffer.len(),
        written_through(v, writes, k).fail_reads == v.fail_reads,
        written_through(v, writes, k).fail_writes == v.fail_writes,
        written_through(v, writes, k).id == v.id,
    decreases k,
{
    if k > 0 {
        lemma_written_through(v, writes, k - 1);
        assert(data_of(writes, k - 1).len() == bytes(writes[k - 1].1 as int));
        law_write_leaves_the_rest(
            written_through(v, writes, k - 1),
            data_of(writes, k - 1),
            Block(writes[k - 1].0 as u64),
            false,
            0,
            0,
        );
    }
}

/// How far a [`WriteTest`] has come.
pub enum TestPhase {
    /// Nothing was done yet.
    Starting,
    /// The device performs this write.
    Writing(usize),
    /// This write is read back.
    Reading(usize),
    /// It is over, since the device has not all of the blocks of this write.
    Refused(usize),
    /// It is over.
    Done,
}

impl TestPhase {
    /// Nothing is left to do.
    pub open spec fn over(self) -> bool {
        self is Refused || self is Done
    }
}

/// What a device did.
pub enum Event {
    /// Nothing: the test begins.
    Start,
    /// It performed the write, or failed to.
    Written(Result<(), VdevError>),
    /// It read the data back, or failed to.
    ReadBack(Result<Vec<u8>, VdevError>),
}

/// What a device is asked to write.
pub struct WriteRequest {
    /// The number of the write.
    pub idx: usize,
    /// The data.
    pub data: Vec<u8>,
    /// The first block.
    pub offset: Block<u64>,
}

/// What a device is asked to read back.
pub struct ReadBackRequest<C> {
    /// The number of the write.
    pub idx: usize,
    /// How many blocks.
    pub size: Block<u32>,
    /// The first block.
    pub offset: Block<u64>,
    /// The checksum that they have to have.
    pub checksum: C,
}

/// What comes next in a [`WriteTest`].
pub enum TestStep<C> {
    /// Let the device write; the next turn takes its answer.
    Write(WriteRequest),
    /// Let the device read; the next turn takes its answer.
    Read(ReadBackRequest<C>),
    /// The test is over.
    Done(Result<(), Failure>),
}

/// A test that a device keeps what is written to it.
pub struct WriteTest<C> {
    writes: Vec<(u8, u8)>,
    actual_sizes: Vec<Block<u32>>,
    size: Block<u64>,
    check: PersistenceCheck,
    checksums: Vec<C>,
    phase: TestPhase,
}

/// The state of a [`WriteTest`].
#[verifier::ext_equal]
pub struct TestView<C> {
    /// The writes, as pairs of an offset and a size.
    pub writes: Seq<(u8, u8)>,
    /// The blocks that they take on the device.
    pub ranges: Seq<Range>,
    /// How many blocks the device has.
    pub blocks: int,
    /// The checksums of the writes so far.
    pub checksums: Seq<C>,
    /// How far the test has come.
    pub phase: TestPhase,
}

/// The first write from `i` on that can be read back, or the number of writes
/// if there is none.
pub open spec fn next_intact(ranges: Seq<Range>, i: int) -> int
    decreases ranges.len() - i,
{
    if i >= ranges.len() {
        ranges.len() as int
    } else if intact(ranges, i) {
        i
    } else {
        next_intact(ranges, i + 1)
    }
}

/// The phase in which the writes before `i` were read back.
pub open spec fn reading_phase(ranges: Seq<Range>, i: int) -> TestPhase {
    if next_intact(ranges, i) < ranges.len() {
        TestPhase::Reading(next_intact(ranges, i) as usize)
    } else {
        TestPhase::Done
    }
}

/// A device with so many blocks has all blocks of write `i`.
pub open spec fn in_range(ranges: Seq<Range>, blocks: int, i: int) -> bool {
    ranges[i].offset + ranges[i].size <= blocks
}

/// The first write from `i` on that a device with so many blocks has not all
/// blocks of, or the number of writes if there is none.
pub open spec fn reach(ranges: Seq<Range>, blocks: int, i: int) -> int
    decreases ranges.len() - i,
{
    if i >= ranges.len() {
        ranges.len() as int
    } else if in_range(ranges, blocks, i) {
        reach(ranges, blocks, i + 1)
    } else {
        i
    }
}

/// The phase in which the writes before `i` were performed.
pub open spec fn writing_phase(ranges: Seq<Range>, blocks: int, i: int) -> TestPhase {
    if i < ranges.len() {
        if in_range(ranges, blocks, i) {
            TestPhase::Writing(i as usize)
        } else {
            TestPhase::Refused(i as usize)
        }
    } else {
        reading_phase(ranges, 0)
    }
}

/// `step` asks for what the phase of the test says.
pub open spec fn asks<C>(test: TestView<C>, step: TestStep<C>) -> bool {
    match test.phase {
        TestPhase::Starting => false,
        TestPhase::Writing(i) => {
            &&& step matches TestStep::Write(request)
            &&& request.idx == i
            &&& request.offset == Block(test.writes[i as int].0 as u64)
            &&& request.data@ == data_of(test.writes, i as int)
            &&& request.data@.len() == bytes(test.writes[i as int].1 as int)
        },
        TestPhase::Reading(i) => step == TestStep::Read(
            ReadBackRequest {
                idx: i,
                size: Block(test.writes[i as int].1 as u32),
                offset: Block(test.writes[i as int].0 as u64),
                checksum: test.checksums[i as int],
            },
        ),
        TestPhase::Refused(i) => step == TestStep::<C>::Done(Err(Failure::OutOfRange(i))),
        TestPhase::Done => step == TestStep::<C>::Done(Ok(())),
    }
}

/// What follows for write `idx` from the data that was read back and the
/// verdicts on it and on what was written.
pub open spec fn judged(
    idx: usize,
    data: Seq<u8>,
    written: Seq<u8>,
    data_verdict: Result<(), ChecksumError>,
    written_verdict: Result<(), ChecksumError>,
) -> Result<(), Failure> {
    if data_verdict is Err || written_verdict is Err {
        Err(Failure::WrongChecksum(idx))
    } else if data != written {
        Err(Failure::WrongData(idx))
    } else {
        Ok(())
    }
}

/// `checksum` was asked about `data` and gave this verdict.
pub open spec fn gives<C: Checksum>(
    checksum: C,
    data: Seq<u8>,
    verdict: Result<(), ChecksumError>,
) -> bool {
    exists|slice: &[u8]|
        slice@ == data && #[trigger] call_ensures(C::verify, (&checksum, slice), verdict)
}

/// The verdicts on the data that was read back for write `idx` and on what was
/// written lead to this judgement.
pub open spec fn verified<C: Checksum>(
    checksum: C,
    idx: usize,
    data: Seq<u8>,
    written: Seq<u8>,
    judgement: Result<(), Failure>,
) -> bool {
    exists|data_verdict: Result<(), ChecksumError>, written_verdict: Result<(), ChecksumError>|
        {
            &&& #[trigger] gives(checksum, data, data_verdict)
            &&& #[trigger] gives(checksum, written, written_verdict)
            &&& judgement == judged(idx, data, written, data_verdict, written_verdict)
        }
}

impl<C: Checksum + Copy> WriteTest<C> {
    /// The state of the test.
    pub closed spec fn view(&self) -> TestView<C> {
        TestView {
            writes: self.writes@,
            ranges: ranges_on(self.writes@, self.actual_sizes@),
            blocks: self.size.0 as int,
            checksums: self.checksums@,
            phase: self.phase,
        }
    }

    /// The writes that were asked for are noted, and have a checksum each.
    pub closed spec fn inv(&self) -> bool {
        &&& self.check.inv()
        &&& self.check.blocks() == self.size.0
        &&& self.actual_sizes@.len() == self.writes@.len()
        &&& self.check@ == self@.ranges.take(self.checksums@.len() as int)
        &&& self.checksums@.len() <= self.writes@.len()
        &&& match self.phase {
            TestPhase::Starting => self.checksums@.len() == 0,
            TestPhase::Writing(i) => self.checksums@.len() == i + 1,
            TestPhase::Reading(i) => i < self.writes@.len() == self.checksums@.len() && intact(
                self@.ranges,
                i as int,
            ),
            _ => true,
        }
    }

    /// A test of a device with `size` blocks on which the writes take so many
    /// blocks each.
    pub fn new(writes: &[(u8, u8)], actual_sizes: Vec<Block<u32>>, size: Block<u64>) -> (test: Self)
        requires
            size.0 <= usize::MAX,
            actual_sizes@.len() == writes@.len(),
        ensures
            test.inv(),
            test@ == (TestView {
                writes: writes@,
                ranges: ranges_on(writes@, actual_sizes@),
                blocks: size.0 as int,
                checksums: Seq::<C>::empty(),
                phase: TestPhase::Starting,
            }),
    {
        let test = WriteTest {
            writes: vstd::slice::slice_to_vec(writes),
            actual_sizes,
            size,
            check: PersistenceCheck::new(size),
            checksums: Vec::new(),
            phase: TestPhase::Starting,
        };
        assert(test@.ranges.take(0) =~= Seq::<Range>::empty());
        test
    }

    /// Asks for write `i`, or for the first read if there is none. A write out
    /// of range ends the test.
    fn ask_to_write<B: Builder<C>>(&mut self, builder: &B, i: usize) -> (step: TestStep<C>)
        requires
            old(self).inv(),
            !old(self)@.phase.over(),
            old(self)@.checksums.len() == i,
        ensures
            final(self).inv(),
            final(self)@.writes == old(self)@.writes,
            final(self)@.ranges == old(self)@.ranges,
            final(self)@.blocks == old(self)@.blocks,
            final(self)@.phase == writing_phase(old(self)@.ranges, old(self)@.blocks, i as int),
            checksums_follow(builder, old(self)@, final(self)@),
            asks(final(self)@, step),
    {
        if i < self.writes.len() {
            let (offset, size) = self.writes[i];
            if offset as u64 + self.actual_sizes[i].as_u64() > self.size.as_u64() {
                self.phase = TestPhase::Refused(i);
                assert(self@.ranges =~= old(self)@.ranges);
                return TestStep::Done(Err(Failure::OutOfRange(i)));
            }
            let data: Vec<u8> = self.check.write(offset, size, self.actual_sizes[i]);
            let slice: &[u8] = data.as_slice();
            let checksum: C = builder.checksum(slice);
            assert(is_checksum_of(builder, checksum, data@)) by {
                assert(call_ensures(B::checksum, (builder, slice), checksum));
            }
            self.checksums.push(checksum);
            self.phase = TestPhase::Writing(i);
            assert(self@.ranges =~= old(self)@.ranges);
            assert(self@.checksums.drop_last() =~= old(self)@.checksums);
            assert(self@.ranges.take(i + 1) =~= self@.ranges.take(i as int).push(
                self@.ranges[i as int],
            ));
            TestStep::Write(WriteRequest { idx: i, data, offset: Block(offset as u64) })
        } else {
            self.ask_to_read(0)
        }
    }

    /// Asks for the first read from write `from` on that is intact.
    fn ask_to_read(&mut self, from: usize) -> (step: TestStep<C>)
        requires
            old(self).inv(),
            old(self)@.checksums.len() == old(self)@.writes.len(),
            from <= old(self)@.writes.len(),
        ensures
            final(self).inv(),
            final(self)@ == (TestView {
                phase: reading_phase(old(self)@.ranges, from as int),
                ..old(self)@
            }),
            asks(final(self)@, step),
    {
        let mut i: usize = from;
        assert(self@.ranges.take(self.writes@.len() as int) =~= self@.ranges);
        while i < self.writes.len()
            invariant
                *self == *old(self),
                self.inv(),
                self@.checksums.len() == self@.writes.len(),
                self.check@ == self@.ranges,
                from <= i <= self.writes@.len() == self@.ranges.len(),
                next_intact(self@.ranges, from as int) == next_intact(self@.ranges, i as int),
            decreases self.writes@.len() - i,
        {
            if self.check.is_intact(i) {
                let (offset, size) = self.writes[i];
                self.phase = TestPhase::Reading(i);
                assert(self@.ranges =~= old(self)@.ranges);
                return TestStep::Read(
                    ReadBackRequest {
                        idx: i,
                        size: Block(size as u32),
                        offset: Block(offset as u64),
                        checksum: self.checksums[i],
                    },
                );
            }
            i = i + 1;
        }
        self.phase = TestPhase::Done;
        assert(self@.ranges =~= old(self)@.ranges);
        TestStep::Done(Ok(()))
    }

    /// Tells the test what the device did and asks what comes next. The first
    /// failure ends the test.
    pub fn turn<B: Builder<C>>(&mut self, builder: &B, event: Event) -> (step: TestStep<C>)
        requires
            old(self).inv(),
            fits(old(self)@.phase, event),
        ensures
            final(self).inv(),
            final(self)@.writes == old(self)@.writes,
            final(self)@.ranges == old(self)@.ranges,
            final(self)@.blocks == old(self)@.blocks,
            checksums_follow(builder, old(self)@, final(self)@),
            match (old(self)@.phase, event) {
                (TestPhase::Writing(i), Event::Written(Ok(()))) => final(self)@.phase
                    == writing_phase(old(self)@.ranges, old(self)@.blocks, i + 1) && asks(
                    final(self)@,
                    step,
                ),
                (TestPhase::Writing(i), Event::Written(Err(_))) => final(self)@.phase is Done
                    && step == TestStep::<C>::Done(Err(Failure::WriteFailed(i))),
                (TestPhase::Reading(i), Event::ReadBack(Ok(data))) => exists|
                    judgement: Result<(), Failure>,
                |
                    {
                        &&& #[trigger] verified(
                            old(self)@.checksums[i as int],
                            i,
                            data@,
                            data_of(old(self)@.writes, i as int),
                            judgement,
                        )
                        &&& match judgement {
                            Ok(()) => final(self)@.phase == reading_phase(
                                old(self)@.ranges,
                                i + 1,
                            ) && asks(final(self)@, step),
                            Err(e) => final(self)@.phase is Done && step == TestStep::<C>::Done(
                                Err(e),
                            ),
                        }
                    },
                (TestPhase::Reading(i), Event::ReadBack(Err(_))) => final(self)@.phase is Done
                    && step == TestStep::<C>::Done(Err(Failure::ReadFailed(i))),
                _ => final(self)@.phase == writing_phase(old(self)@.ranges, old(self)@.blocks, 0)
                    && asks(final(self)@, step),
            },
    {
        match event {
            Event::Start => self.ask_to_write(builder, 0),
            Event::Written(outcome) => {
                let i: usize = self.checksums.len() - 1;
                match outcome {
                    Ok(()) => self.ask_to_write(builder, i + 1),
                    Err(_) => {
                        self.phase = TestPhase::Done;
                        assert(self@.ranges =~= old(self)@.ranges);
                        TestStep::Done(Err(Failure::WriteFailed(i)))
                    },
                }
            },
            Event::ReadBack(outcome) => {
                let i: usize = match self.phase {
                    TestPhase::Reading(i) => i,
                    _ => 0,
                };
                match outcome {
                    Ok(data) => {
                        assert(i < self.writes.len());
                        let (offset, size) = self.writes[i];
                        let checksum: C = self.checksums[i];
                        let written: Vec<u8> = generate_data(
                            i,
                            Block(offset as u64),
                            Block(size as u32),
                        );
                        let data_slice: &[u8] = data.as_slice();
                        let written_slice: &[u8] = written.as_slice();
                        let data_verdict: Result<(), ChecksumError> = checksum.verify(data_slice);
                        let written_verdict: Result<(), ChecksumError> = checksum.verify(
                            written_slice,
                        );
                        assert(gives(checksum, data@, data_verdict)) by {
                            assert(call_ensures(C::verify, (&checksum, data_slice), data_verdict));
                        }
                        assert(gives(checksum, written@, written_verdict)) by {
                            assert(call_ensures(
                                C::verify,
                                (&checksum, written_slice),
                                written_verdict,
                            ));
                        }
                        let judgement: Result<(), Failure> = judge(
                            i,
                            &data,
                            &written,
                            data_verdict,
                            written_verdict,
                        );
                        assert(written@ == data_of(self@.writes, i as int));
                        assert(verified(checksum, i, data@, written@, judgement));
                        assert(verified(
                            old(self)@.checksums[i as int],
                            i,
                            data@,
                            data_of(old(self)@.writes, i as int),
                            judgement,
                        ));
                        match judgement {
                            Ok(()) => self.ask_to_read(i + 1),
                            Err(e) => {
                                self.phase = TestPhase::Done;
                                assert(self@.ranges =~= old(self)@.ranges);
                                TestStep::Done(Err(e))
                            },
                        }
                    },
                    Err(_) => {
                        self.phase = TestPhase::Done;
                        assert(self@.ranges =~= old(self)@.ranges);
                        TestStep::Done(Err(Failure::ReadFailed(i)))
                    },
                }
            },
        }
    }
}

/// The test was told what it waits for.
pub open spec fn fits(phase: TestPhase, event: Event) -> bool {
    match phase {
        TestPhase::Starting => event is Start,
        TestPhase::Writing(_) => event is Written,
        TestPhase::Reading(_) => event is ReadBack,
        _ => false,
    }
}

/// A new write has a checksum that was computed of its data, and the other
/// checksums stay.
pub open spec fn checksums_follow<C: Checksum, B: Builder<C>>(
    builder: &B,
    before: TestView<C>,
    after: TestView<C>,
) -> bool {
    match after.phase {
        TestPhase::Writing(i) => {
            &&& after.checksums.len() == before.checksums.len() + 1
            &&& after.checksums.drop_last() == before.checksums
            &&& is_checksum_of(builder, after.checksums.last(), data_of(after.writes, i as int))
        },
        _ => after.checksums == before.checksums,
    }
}

/// One thing that a device is asked for.
pub enum Planned {
    /// This write.
    Write(int),
    /// To read this write back.
    Read(int),
}

/// The writes from `i` on, in their order.
pub open spec fn writes_from(count: nat, i: int) -> Seq<Planned> {
    Seq::new((count - i) as nat, |k: int| Planned::Write(i + k))
}

/// The reads of all intact writes from `i` on, in their order.
pub open spec fn reads_from(ranges: Seq<Range>, i: int) -> Seq<Planned>
    decreases ranges.len() - i,
{
    if i >= ranges.len() {
        Seq::empty()
    } else if intact(ranges, i) {
        seq![Planned::Read(i)] + reads_from(ranges, i + 1)
    } else {
        reads_from(ranges, i + 1)
    }
}

/// The writes from `i` on up to the first one out of range, and then, if there
/// is none, the reads.
pub open spec fn plan_from(ranges: Seq<Range>, blocks: int, i: int) -> Seq<Planned> {
    let end = reach(ranges, blocks, i);
    writes_from(end as nat, i) + if end < ranges.len() {
        Seq::empty()
    } else {
        reads_from(ranges, 0)
    }
}

/// What the device is asked for now and will be asked for later, if it does
/// not fail.
pub open spec fn plan(ranges: Seq<Range>, blocks: int, phase: TestPhase) -> Seq<Planned> {
    match phase {
        TestPhase::Starting => plan_from(ranges, blocks, 0),
        TestPhase::Writing(i) => plan_from(ranges, blocks, i as int),
        TestPhase::Reading(i) => reads_from(ranges, i as int),
        _ => Seq::empty(),
    }
}

/// The plan is followed: a turn without a failure does away with the first
/// thing of the plan, and the first turn with nothing. Without a failure the
/// test ends exactly when nothing is left to do.
pub proof fn law_plan_is_followed(ranges: Seq<Range>, blocks: int, i: int)
    requires
        0 <= i,
        ranges.len() <= usize::MAX,
    ensures
        plan(ranges, blocks, writing_phase(ranges, blocks, 0)) == plan(
            ranges,
            blocks,
            TestPhase::Starting,
        ),
        i < ranges.len() && in_range(ranges, blocks, i) ==> plan(
            ranges,
            blocks,
            TestPhase::Writing(i as usize),
        ) == seq![Planned::Write(i)] + plan(ranges, blocks, writing_phase(ranges, blocks, i + 1)),
        i < ranges.len() && intact(ranges, i) ==> plan(
            ranges,
            blocks,
            TestPhase::Reading(i as usize),
        ) == seq![Planned::Read(i)] + plan(ranges, blocks, reading_phase(ranges, i + 1)),
        writing_phase(ranges, blocks, i).over() <==> plan(
            ranges,
            blocks,
            writing_phase(ranges, blocks, i),
        ).len() == 0,
        reading_phase(ranges, i).over() <==> plan(ranges, blocks, reading_phase(ranges, i)).len()
            == 0,
{
    lemma_next_intact(ranges, 0);
    lemma_next_intact(ranges, i);
    lemma_next_intact(ranges, i + 1);
    lemma_reach(ranges, blocks, 0);
    lemma_reach(ranges, blocks, i);
    lemma_reach(ranges, blocks, i + 1);
    lemma_plan_from(ranges, blocks, 0);
    lemma_plan_from(ranges, blocks, i);
    lemma_plan_from(ranges, blocks, i + 1);
    if i < ranges.len() && in_range(ranges, blocks, i) {
        let end = reach(ranges, blocks, i);
        assert(writes_from(end as nat, i) =~= seq![Planned::Write(i)] + writes_from(
            end as nat,
            i + 1,
        ));
        assert(plan_from(ranges, blocks, i) =~= seq![Planned::Write(i)] + plan_from(
            ranges,
            blocks,
            i + 1,
        ));
    }
}

/// The plan from write `i` on is that of the phase that begins with it.
proof fn lemma_plan_from(ranges: Seq<Range>, blocks: int, i: int)
    requires
        0 <= i,
        ranges.len() <= usize::MAX,
    ensures
        i <= ranges.len() ==> plan(ranges, blocks, writing_phase(ranges, blocks, i)) == plan_from(
            ranges,
            blocks,
            i,
        ),
{
    lemma_reach(ranges, blocks, i);
    lemma_next_intact(ranges, 0);
    let end = reach(ranges, blocks, i);
    if i == ranges.len() || (i < ranges.len() && !in_range(ranges, blocks, i)) {
        assert(writes_from(end as nat, i) =~= Seq::empty());
        assert(plan_from(ranges, blocks, i) =~= plan(
            ranges,
            blocks,
            writing_phase(ranges, blocks, i),
        ));
    }
}

/// All writes from `i` on up to the first one out of range are within it.
proof fn lemma_reach(ranges: Seq<Range>, blocks: int, i: int)
    requires
        0 <= i,
    ensures
        i <= ranges.len() ==> i <= reach(ranges, blocks, i) <= ranges.len(),
        forall|j: int| i <= j < reach(ranges, blocks, i) ==> #[trigger] in_range(ranges, blocks, j),
        reach(ranges, blocks, i) < ranges.len() ==> !in_range(
            ranges,
            blocks,
            reach(ranges, blocks, i),
        ),
    decreases ranges.len() - i,
{
    if i < ranges.len() && in_range(ranges, blocks, i) {
        lemma_reach(ranges, blocks, i + 1);
    }
}

/// The writes before the first one that is out of range, and only those, are
/// asked for, in their order and each once. If all are in range, the reads
/// follow.
pub proof fn law_writes_before_one_out_of_range_are_asked_for(ranges: Seq<Range>, blocks: int, i: int)
    requires
        0 <= i < ranges.len(),
        !in_range(ranges, blocks, i),
        forall|j: int| 0 <= j < i ==> #[trigger] in_range(ranges, blocks, j),
    ensures
        plan(ranges, blocks, TestPhase::Starting) == writes_from(i as nat, 0),
        writing_phase(ranges, blocks, i) == TestPhase::Refused(i as usize),
{
    lemma_reach(ranges, blocks, 0);
    let end = reach(ranges, blocks, 0);
    if end < i {
        assert(in_range(ranges, blocks, end));
    } else if end > i {
        assert(in_range(ranges, blocks, i));
    }
    assert(plan_from(ranges, blocks, 0) =~= writes_from(i as nat, 0));
}

/// The next intact write is the first one, and the reads begin with it.
proof fn lemma_next_intact(ranges: Seq<Range>, i: int)
    requires
        0 <= i,
    ensures
        i <= ranges.len() ==> i <= next_intact(ranges, i) <= ranges.len(),
        next_intact(ranges, i) < ranges.len() ==> i <= next_intact(ranges, i) && intact(
            ranges,
            next_intact(ranges, i),
        ),
        forall|j: int| i <= j < next_intact(ranges, i) ==> !#[trigger] intact(ranges, j),
        reads_from(ranges, i) == reads_from(ranges, next_intact(ranges, i)),
        reads_from(ranges, i).len() == 0 <==> next_intact(ranges, i) >= ranges.len(),
    decreases ranges.len() - i,
{
    if i < ranges.len() && !intact(ranges, i) {
        lemma_next_intact(ranges, i + 1);
    }
}

/// Of the writes from `i` on exactly the intact ones are read back, each once
/// and in their order.
pub proof fn law_intact_writes_are_read_once(ranges: Seq<Range>, i: int)
    requires
        0 <= i,
    ensures
        forall|k: int|
            0 <= k < reads_from(ranges, i).len() ==> ((#[trigger] reads_from(ranges, i)[k]) matches
                Planned::Read(idx) && i <= idx < ranges.len() && intact(ranges, idx)),
        forall|k: int, l: int|
            0 <= k < l < reads_from(ranges, i).len() ==> (#[trigger] reads_from(ranges, i)[k])->Read_0
                < (#[trigger] reads_from(ranges, i)[l])->Read_0,
        forall|idx: int|
            i <= idx < ranges.len() && #[trigger] intact(ranges, idx) ==> reads_from(
                ranges,
                i,
            ).contains(Planned::Read(idx)),
    decreases ranges.len() - i,
{
    if i < ranges.len() {
        law_intact_writes_are_read_once(ranges, i + 1);
        let reads = reads_from(ranges, i);
        let rest = reads_from(ranges, i + 1);
        if intact(ranges, i) {
            assert(forall|k: int| 0 < k < reads.len() ==> #[trigger] reads[k] == rest[k - 1]);
            assert(reads[0] == Planned::Read(i));
            assert forall|idx: int|
                i <= idx < ranges.len() && #[trigger] intact(ranges, idx) implies reads.contains(
                Planned::Read(idx),
            ) by {
                if idx > i {
                    assert(rest.contains(Planned::Read(idx)));
                    let k = choose|k: int| 0 <= k < rest.len() && rest[k] == Planned::Read(idx);
                    assert(reads[k + 1] == Planned::Read(idx));
                }
            }
        } else {
            assert forall|idx: int|
                i <= idx < ranges.len() && #[trigger] intact(ranges, idx) implies reads.contains(
                Planned::Read(idx),
            ) by {
                assert(rest.contains(Planned::Read(idx)));
            }
        }
    }
}

/// `data` was found to have a checksum that was computed of `of`.
pub open spec fn accepts<C: Checksum, B: Builder<C>>(
    builder: &B,
    of: Seq<u8>,
    data: Seq<u8>,
) -> bool {
    exists|checksum: C, verdict: Result<(), ChecksumError>|
        {
            &&& is_checksum_of(builder, checksum, of)
            &&& #[trigger] gives(checksum, data, verdict)
            &&& verdict is Ok
        }
}

/// `data` was found not to have a checksum that was computed of `of`.
pub open spec fn rejects<C: Checksum, B: Builder<C>>(
    builder: &B,
    of: Seq<u8>,
    data: Seq<u8>,
) -> bool {
    exists|checksum: C, verdict: Result<(), ChecksumError>|
        {
            &&& is_checksum_of(builder, checksum, of)
            &&& #[trigger] gives(checksum, data, verdict)
            &&& verdict is Err
        }
}

/// Write `i` was read back, and is what was written.
pub open spec fn passes<C: Checksum, B: Builder<C>>(
    builder: &B,
    v: VdevView,
    writes: Seq<(u8, u8)>,
    i: int,
) -> bool {
    &&& v.fail_reads == FailureMode::NoFail
    &&& stored(v, writes, i)
    &&& accepts::<C, B>(builder, data_of(writes, i), data_of(writes, i))
}

/// The first intact write that does not pass is write `i`.
pub open spec fn fails_at<C: Checksum, B: Builder<C>>(
    builder: &B,
    v: VdevView,
    writes: Seq<(u8, u8)>,
    i: int,
) -> bool {
    &&& 0 <= i < writes.len()
    &&& intact(ranges_of(writes), i)
    &&& forall|j: int|
        0 <= j < i && #[trigger] intact(ranges_of(writes), j) ==> passes::<C, B>(
            builder,
            v,
            writes,
            j,
        )
}

/// What a test may find that led from the device `start` to the device `end`.
pub open spec fn concludes<C: Checksum, B: Builder<C>>(
    builder: &B,
    start: VdevView,
    end: VdevView,
    writes: Seq<(u8, u8)>,
    r: Result<(), Failure>,
) -> bool {
    let count = reach(ranges_of(writes), start.buffer.len() as int / 4096, 0);
    if count > 0 && start.fail_writes == FailureMode::FailOperation {
        &&& r == Err::<(), Failure>(Failure::WriteFailed(0))
        &&& end == written_through(start, writes, 1)
    } else if count < writes.len() {
        &&& r == Err::<(), Failure>(Failure::OutOfRange(count as usize))
        &&& end == written_through(start, writes, count)
    } else {
        &&& end == written_through(start, writes, writes.len() as int)
        &&& match r {
            Ok(()) => forall|i: int|
                0 <= i < writes.len() && #[trigger] intact(ranges_of(writes), i) ==> passes::<
                    C,
                    B,
                >(builder, end, writes, i),
            Err(Failure::OutOfRange(_) | Failure::WriteFailed(_)) => false,
            Err(Failure::ReadFailed(i)) => fails_at::<C, B>(builder, end, writes, i as int) && (
            end.fail_reads != FailureMode::NoFail || rejects::<C, B>(
                builder,
                data_of(writes, i as int),
                held(end, writes, i as int),
            )),
            Err(Failure::WrongChecksum(i)) => {
                &&& fails_at::<C, B>(builder, end, writes, i as int)
                &&& end.fail_reads == FailureMode::NoFail
                &&& rejects::<C, B>(
                    builder,
                    data_of(writes, i as int),
                    held(end, writes, i as int),
                ) || rejects::<C, B>(
                    builder,
                    data_of(writes, i as int),
                    data_of(writes, i as int),
                )
            },
            Err(Failure::WrongData(i)) => {
                &&& fails_at::<C, B>(builder, end, writes, i as int)
                &&& end.fail_reads == FailureMode::NoFail
                &&& accepts::<C, B>(
                    builder,
                    data_of(writes, i as int),
                    held(end, writes, i as int),
                )
                &&& accepts::<C, B>(
                    builder,
                    data_of(writes, i as int),
                    data_of(writes, i as int),
                )
                &&& !stored(end, writes, i as int)
            },
        }
    }
}

/// The device and the checksums are as the phase of the test says.
spec fn progress<C: Checksum, B: Builder<C>>(
    builder: &B,
    start: VdevView,
    now: VdevView,
    test: TestView<C>,
) -> bool {
    let writes = test.writes;
    let n = writes.len() as int;
    &&& now.buffer.len() == start.buffer.len()
    &&& now.fail_writes == start.fail_writes
    &&& now.fail_reads == start.fail_reads
    &&& forall|j: int|
        0 <= j < test.checksums.len() ==> #[trigger] is_checksum_of(
            builder,
            test.checksums[j],
            data_of(writes, j),
        )
    &&& match test.phase {
        TestPhase::Starting => now == start && test.checksums.len() == 0,
        TestPhase::Writing(i) => {
            &&& i < n
            &&& test.checksums.len() == i + 1
            &&& i > 0 ==> start.fail_writes != FailureMode::FailOperation
            &&& within(start, writes, i + 1)
            &&& now == written_through(start, writes, i as int)
            &&& lengths_fit(writes, i + 1)
            &&& start.fail_writes == FailureMode::NoFail ==> all_stored(now, writes, i as int)
        },
        TestPhase::Reading(i) => {
            &&& i < n
            &&& test.checksums.len() == n
            &&& start.fail_writes != FailureMode::FailOperation
            &&& within(start, writes, n)
            &&& now == written_through(start, writes, n)
            &&& start.fail_writes == FailureMode::NoFail ==> all_stored(now, writes, n)
            &&& fails_at::<C, B>(builder, now, writes, i as int)
        },
        _ => true,
    }
}

/// The data of the first `k` writes has the size of the writes.
spec fn lengths_fit(writes: Seq<(u8, u8)>, k: int) -> bool {
    forall|j: int|
        0 <= j < k ==> (#[trigger] data_of(writes, j)).len() == bytes(writes[j].1 as int)
}

/// Of the first `k` writes the device holds what was not overwritten.
spec fn all_stored(v: VdevView, writes: Seq<(u8, u8)>, k: int) -> bool {
    forall|j: int|
        0 <= j < k && intact(ranges_of(writes).take(k), j) ==> #[trigger] stored(v, writes, j)
}

/// What is within the device is in its range, and the other way round.
proof fn lemma_within(v: VdevView, writes: Seq<(u8, u8)>, k: int)
    requires
        0 <= k <= writes.len(),
        within(v, writes, k),
    ensures
        ({
            let (ranges, blocks) = (ranges_of(writes), v.buffer.len() as int / 4096);
            &&& reach(ranges, blocks, 0) >= k
            &&& k < writes.len() && in_range(ranges, blocks, k) ==> within(v, writes, k + 1)
            &&& k < writes.len() && !in_range(ranges, blocks, k) ==> reach(ranges, blocks, 0) == k
        }),
{
    let (ranges, blocks) = (ranges_of(writes), v.buffer.len() as int / 4096);
    let end = reach(ranges, blocks, 0);
    lemma_reach(ranges, blocks, 0);
    if end < k {
        assert(bytes(writes[end].0 + writes[end].1) <= v.buffer.len());
    }
    if end > k {
        assert(in_range(ranges, blocks, k));
    }
}

/// The progress of a test when the writes were performed and `from` is the
/// next one that may be read back.
proof fn lemma_reading<C: Checksum, B: Builder<C>>(
    builder: &B,
    start: VdevView,
    now: VdevView,
    test: TestView<C>,
    from: int,
)
    requires
        0 <= from <= test.writes.len() <= usize::MAX,
        test.ranges == ranges_of(test.writes),
        within(start, test.writes, test.writes.len() as int),
        test.phase == reading_phase(test.ranges, from),
        test.checksums.len() == test.writes.len(),
        now.buffer.len() == start.buffer.len(),
        now.fail_writes == start.fail_writes,
        now.fail_reads == start.fail_reads,
        forall|j: int|
            0 <= j < test.checksums.len() ==> #[trigger] is_checksum_of(
                builder,
                test.checksums[j],
                data_of(test.writes, j),
            ),
        test.writes.len() > 0 ==> start.fail_writes != FailureMode::FailOperation,
        now == written_through(start, test.writes, test.writes.len() as int),
        start.fail_writes == FailureMode::NoFail ==> all_stored(
            now,
            test.writes,
            test.writes.len() as int,
        ),
        forall|j: int|
            0 <= j < from && #[trigger] intact(test.ranges, j) ==> passes::<C, B>(
                builder,
                now,
                test.writes,
                j,
            ),
    ensures
        progress::<C, B>(builder, start, now, test),
        test.phase is Done ==> concludes::<C, B>(builder, start, now, test.writes, Ok(())),
{
    lemma_next_intact(test.ranges, from);
    lemma_within(start, test.writes, test.writes.len() as int);
}

/// The progress of a test when the first `k` writes were performed.
proof fn lemma_writing<C: Checksum, B: Builder<C>>(
    builder: &B,
    start: VdevView,
    now: VdevView,
    before: TestView<C>,
    test: TestView<C>,
    k: int,
)
    requires
        0 <= k <= test.writes.len() <= usize::MAX,
        before.writes == test.writes,
        before.checksums.len() == k,
        test.ranges == ranges_of(test.writes),
        test.blocks == start.buffer.len() as int / 4096,
        start.buffer.len() % 4096 == 0,
        within(start, test.writes, k),
        test.phase == writing_phase(test.ranges, test.blocks, k),
        checksums_follow(builder, before, test),
        now.buffer.len() == start.buffer.len(),
        now.fail_writes == start.fail_writes,
        now.fail_reads == start.fail_reads,
        forall|j: int|
            0 <= j < k ==> #[trigger] is_checksum_of(
                builder,
                before.checksums[j],
                data_of(test.writes, j),
            ),
        k > 0 ==> start.fail_writes != FailureMode::FailOperation,
        now == written_through(start, test.writes, k),
        test.phase is Writing ==> lengths_fit(test.writes, k + 1),
        start.fail_writes == FailureMode::NoFail ==> all_stored(now, test.writes, k),
    ensures
        progress::<C, B>(builder, start, now, test),
        test.phase is Done ==> concludes::<C, B>(builder, start, now, test.writes, Ok(())),
        test.phase is Refused ==> concludes::<C, B>(
            builder,
            start,
            now,
            test.writes,
            Err(Failure::OutOfRange(k as usize)),
        ),
{
    lemma_within(start, test.writes, k);
    if test.phase is Writing {
        assert forall|j: int| 0 <= j < test.checksums.len() implies #[trigger] is_checksum_of(
            builder,
            test.checksums[j],
            data_of(test.writes, j),
        ) by {
            if j < k {
                assert(test.checksums[j] == test.checksums.drop_last()[j]);
                assert(is_checksum_of(builder, before.checksums[j], data_of(test.writes, j)));
            }
        }
    } else if k == test.writes.len() {
        lemma_reading::<C, B>(builder, start, now, test, 0);
    }
}

/// A read of what write `i` has left gives it back exactly if the device does
/// not fail and the checksum is found to be right.
proof fn lemma_answer<C: Checksum, B: Builder<C>>(
    builder: &B,
    vdev: &FailingLeafVdev,
    writes: Seq<(u8, u8)>,
    i: int,
    checksum: C,
    answer: Result<Vec<u8>, VdevError>,
)
    requires
        is_checksum_of(builder, checksum, data_of(writes, i)),
        match read_result(vdev@, Block(writes[i].1 as u32), Block(writes[i].0 as u64)) {
            Ok(data) => exists|slice: &[u8], verdict: Result<(), ChecksumError>|
                {
                    &&& slice@ == data
                    &&& #[trigger] call_ensures(C::verify, (&checksum, slice), verdict)
                    &&& shown(answer) == concluded(data, verdict, vdev@.id)
                },
            Err(e) => answer == Err::<Vec<u8>, VdevError>(e),
        },
    ensures
        vdev@.fail_reads != FailureMode::NoFail ==> answer is Err,
        answer matches Ok(data) ==> data@ == held(vdev@, writes, i),
        vdev@.fail_reads == FailureMode::NoFail && answer is Err ==> rejects::<C, B>(
            builder,
            data_of(writes, i),
            held(vdev@, writes, i),
        ),
        vdev@.fail_reads == FailureMode::NoFail && honest::<C, B>(builder) && stored(
            vdev@,
            writes,
            i,
        ) ==> answer is Ok,
{
    if vdev@.fail_reads == FailureMode::NoFail {
        let data = held(vdev@, writes, i);
        let (slice, verdict) = choose|slice: &[u8], verdict: Result<(), ChecksumError>|
            {
                &&& slice@ == data
                &&& #[trigger] call_ensures(C::verify, (&checksum, slice), verdict)
                &&& shown(answer) == concluded(data, verdict, vdev@.id)
            };
        assert(call_ensures(C::verify, (&checksum, slice), verdict));
        assert(gives(checksum, data, verdict));
    }
}

/// What a judgement says of the data that was read back.
proof fn lemma_judgement<C: Checksum, B: Builder<C>>(
    builder: &B,
    checksum: C,
    idx: usize,
    data: Seq<u8>,
    written: Seq<u8>,
    judgement: Result<(), Failure>,
)
    requires
        is_checksum_of(builder, checksum, written),
        verified(checksum, idx, data, written, judgement),
    ensures
        match judgement {
            Ok(()) => data == written && accepts::<C, B>(builder, written, written),
            Err(Failure::WrongChecksum(i)) => i == idx && (rejects::<C, B>(builder, written, data)
                || rejects::<C, B>(builder, written, written)),
            Err(Failure::WrongData(i)) => i == idx && data != written && accepts::<C, B>(
                builder,
                written,
                data,
            ) && accepts::<C, B>(builder, written, written),
            Err(_) => false,
        },
        honest::<C, B>(builder) && data == written ==> judgement is Ok,
{
    let (data_verdict, written_verdict) = choose|
        data_verdict: Result<(), ChecksumError>,
        written_verdict: Result<(), ChecksumError>,
    |
        {
            &&& #[trigger] gives(checksum, data, data_verdict)
            &&& #[trigger] gives(checksum, written, written_verdict)
            &&& judgement == judged(idx, data, written, data_verdict, written_verdict)
        };
    assert(gives(checksum, data, data_verdict));
    assert(gives(checksum, written, written_verdict));
    if honest::<C, B>(builder) && data == written {
        let a = choose|slice: &[u8]|
            slice@ == data && #[trigger] call_ensures(C::verify, (&checksum, slice), data_verdict);
        let b = choose|slice: &[u8]|
            slice@ == written && #[trigger] call_ensures(
                C::verify,
                (&checksum, slice),
                written_verdict,
            );
        assert(call_ensures(C::verify, (&checksum, a), data_verdict));
        assert(call_ensures(C::verify, (&checksum, b), written_verdict));
    }
}

/// Writes data to a device, at pairs of an offset and a size, and reads back
/// what was not overwritten.
///
/// A device that does not fail keeps everything that was written. `Ok` says
/// that this device did.
#[verifier::rlimit(40)]
pub fn test_writes_are_persistent<C: Checksum + Copy, B: Builder<C>>(
    writes: &[(u8, u8)],
    vdev: &mut FailingLeafVdev,
    builder: &B,
) -> (r: Result<(), Failure>)
    requires
        old(vdev).wf(),
        old(vdev)@.fail_writes != FailureMode::Panic,
        old(vdev)@.fail_reads != FailureMode::Panic,
    ensures
        final(vdev).wf(),
        final(vdev)@.buffer.len() == old(vdev)@.buffer.len(),
        concludes::<C, B>(builder, old(vdev)@, final(vdev)@, writes@, r),
        r is Ok ==> forall|i: int, x: int|
            #![trigger writes@[i], final(vdev)@.buffer[x]]
            {
                &&& 0 <= i < writes@.len()
                &&& 4096 * writes@[i].0 <= x < 4096 * writes@[i].0 + 4096 * writes@[i].1
                &&& forall|j: int|
                    i < j < writes@.len() ==> {
                        ||| (#[trigger] writes@[j]).1 == 0
                        ||| writes@[i].0 + writes@[i].1 <= writes@[j].0
                        ||| writes@[j].0 + writes@[j].1 <= writes@[i].0
                    }
            } ==> final(vdev)@.buffer[x] == generated(
                i as usize,
                Block(writes@[i].0 as u64),
                Block(writes@[i].1 as u32),
            )[x - 4096 * writes@[i].0],
        within(old(vdev)@, writes@, writes@.len() as int) && old(vdev)@.fail_writes
            == FailureMode::NoFail && old(vdev)@.fail_reads == FailureMode::NoFail && honest::<C, B>(
            builder,
        ) ==> r is Ok,
{
    let ghost start: VdevView = vdev@;
    let mut actual_sizes: Vec<Block<u32>> = Vec::new();
    let mut i: usize = 0;
    while i < writes.len()
        invariant
            i <= writes@.len(),
            vdev@ == start,
            actual_sizes@.len() == i,
            forall|j: int| 0 <= j < i ==> #[trigger] actual_sizes@[j] == Block(writes@[j].1 as u32),
        decreases writes@.len() - i,
    {
        actual_sizes.push(vdev.actual_size(Block(writes[i].1 as u32)));
        i = i + 1;
    }
    let size: Block<u64> = vdev.size();
    let mut test: WriteTest<C> = WriteTest::new(writes, actual_sizes, size);
    let ghost before: TestView<C> = test@;
    let mut step: TestStep<C> = test.turn(builder, Event::Start);
    proof {
        assert(test@.ranges =~= ranges_of(writes@));
        if test@.phase is Writing {
            assert(lengths_fit(writes@, 1));
        }
        lemma_writing::<C, B>(builder, start, vdev@, before, test@, 0);
    }
    loop
        invariant
            vdev.wf(),
            test.inv(),
            start == old(vdev)@,
            start.buffer.len() % 4096 == 0,
            start.buffer.len() <= u32::MAX,
            writes@.len() <= usize::MAX,
            test@.blocks == start.buffer.len() as int / 4096,
            start.fail_writes != FailureMode::Panic,
            start.fail_reads != FailureMode::Panic,
            test@.writes == writes@,
            test@.ranges == ranges_of(writes@),
            !(test@.phase is Starting),
            !test@.phase.over() ==> asks(test@, step),
            test@.phase.over() ==> step is Done,
            progress::<C, B>(builder, start, vdev@, test@),
            step matches TestStep::Done(r) ==> test@.phase.over() && concludes::<C, B>(
                builder,
                start,
                vdev@,
                writes@,
                r,
            ),
            step matches TestStep::Done(r) ==> (within(start, writes@, writes@.len() as int)
                && start.fail_writes == FailureMode::NoFail && start.fail_reads
                == FailureMode::NoFail && honest::<C, B>(builder) ==> r is Ok),
        decreases
            match test@.phase {
                TestPhase::Starting => 0,
                TestPhase::Writing(i) => 2 * writes@.len() + 1 - i,
                TestPhase::Reading(i) => writes@.len() - i,
                _ => 0,
            },
    {
        let ghost before: TestView<C> = test@;
        match step {
            TestStep::Write(request) => {
                let ghost i: int = request.idx as int;
                let ghost device: VdevView = vdev@;
                proof {
                    assert(bytes(writes@[i].0 + writes@[i].1) <= start.buffer.len());
                    assert(ranges_of(writes@).take(i).len() == i);
                    if start.fail_writes == FailureMode::NoFail {
                        assert(data_of(writes@, i).len() == bytes(writes@[i].1 as int));
                        lemma_write_keeps_others(device, writes@, i);
                    }
                }
                let outcome: Result<(), VdevError> = vdev.write_raw(
                    request.data.as_slice(),
                    request.offset,
                    false,
                );
                proof {
                    lemma_written_through(start, writes@, i + 1);
                    lemma_within(start, writes@, i + 1);
                }
                step = test.turn(builder, Event::Written(outcome));
                proof {
                    if outcome is Ok {
                        if test@.phase is Writing {
                            assert(data_of(writes@, i + 1).len() == bytes(
                                writes@[i + 1].1 as int,
                            ));
                        }
                        lemma_writing::<C, B>(builder, start, vdev@, before, test@, i + 1);
                        lemma_next_intact(ranges_of(writes@), 0);
                    }
                }
            },
            TestStep::Read(request) => {
                let ghost i: int = request.idx as int;
                assert(bytes(writes@[i].0 + writes@[i].1) <= start.buffer.len());
                let outcome: Result<Vec<u8>, VdevError> = vdev.read(
                    request.size,
                    request.offset,
                    request.checksum,
                );
                let ghost answer: Result<Vec<u8>, VdevError> = outcome;
                let ghost checksum: C = before.checksums[i];
                proof {
                    assert(is_checksum_of(builder, checksum, data_of(writes@, i)));
                    lemma_answer(builder, vdev, writes@, i, checksum, answer);
                    lemma_within(start, writes@, writes@.len() as int);
                    lemma_reach(ranges_of(writes@), start.buffer.len() as int / 4096, 0);
                    if start.fail_writes == FailureMode::NoFail {
                        assert(ranges_of(writes@).take(writes@.len() as int) =~= ranges_of(writes@));
                        assert(stored(vdev@, writes@, i));
                    }
                }
                step = test.turn(builder, Event::ReadBack(outcome));
                proof {
                    if let Ok(data) = answer {
                        let judgement = choose|judgement: Result<(), Failure>|
                            {
                                &&& #[trigger] verified(
                                    checksum,
                                    i as usize,
                                    data@,
                                    data_of(writes@, i),
                                    judgement,
                                )
                                &&& match judgement {
                                    Ok(()) => test@.phase == reading_phase(before.ranges, i + 1)
                                        && asks(test@, step),
                                    Err(e) => test@.phase is Done && step == TestStep::<C>::Done(
                                        Err(e),
                                    ),
                                }
                            };
                        lemma_judgement(
                            builder,
                            checksum,
                            i as usize,
                            data@,
                            data_of(writes@, i),
                            judgement,
                        );
                        if judgement is Ok {
                            lemma_reading::<C, B>(builder, start, vdev@, test@, i + 1);
                            lemma_next_intact(ranges_of(writes@), i + 1);
                        }
                    }
                }
            },
            TestStep::Done(r) => {
                proof {
                    lemma_all_data_is_there::<C, B>(builder, start, vdev@, writes@, r);
                }
                return r;
            },
        }
    }
}

/// Two writes share a block exactly if both take some and each begins before
/// the other ends.
pub proof fn law_overlaps_by_block_numbers(a: Range, b: Range)
    ensures
        a.overlaps(b) <==> a.size > 0 && b.size > 0 && a.offset < b.offset + b.size && b.offset
            < a.offset + a.size,
{
    let first = if a.offset < b.offset {
        b.offset as int
    } else {
        a.offset as int
    };
    if a.size > 0 && b.size > 0 && a.offset < b.offset + b.size && b.offset < a.offset + a.size {
        assert(a.covers(first) && b.covers(first));
    }
}

/// A write covers the blocks from its first one on, as many as it takes.
pub proof fn law_covered_blocks(a: Range, b: Range, block: int)
    ensures
        a.covers(block) <==> a.offset <= block < a.offset + a.size,
        a.offset <= block < a.offset + a.size && b.offset <= block < b.offset + b.size
            ==> a.overlaps(b),
{
    if a.offset <= block < a.offset + a.size && b.offset <= block < b.offset + b.size {
        assert(a.covers(block) && b.covers(block));
    }
}

/// A write is intact exactly if no later write takes one of its blocks: each
/// later one ends before it begins or begins after it has ended, or one of the
/// two takes no block.
pub proof fn law_intact_by_block_numbers(ranges: Seq<Range>, i: int)
    requires
        0 <= i < ranges.len(),
    ensures
        intact(ranges, i) <==> forall|j: int|
            i < j < ranges.len() ==> {
                ||| ranges[i].size == 0
                ||| (#[trigger] ranges[j]).size == 0
                ||| ranges[i].offset + ranges[i].size <= ranges[j].offset
                ||| ranges[j].offset + ranges[j].size <= ranges[i].offset
            },
{
    assert forall|j: int| i < j < ranges.len() implies (ranges[i].overlaps(#[trigger] ranges[j])
        <==> ranges[i].size > 0 && ranges[j].size > 0 && ranges[i].offset < ranges[j].offset
        + ranges[j].size && ranges[j].offset < ranges[i].offset + ranges[i].size) by {
        law_overlaps_by_block_numbers(ranges[i], ranges[j]);
    }
}

/// A write that is not intact shares a block with a later one: this gives both.
pub proof fn law_skipped_writes_are_overwritten(ranges: Seq<Range>, i: int) -> (r: (int, int))
    requires
        0 <= i < ranges.len(),
        !intact(ranges, i),
    ensures
        i < r.0 < ranges.len(),
        ranges[i].offset <= r.1 < ranges[i].offset + ranges[i].size,
        ranges[r.0].offset <= r.1 < ranges[r.0].offset + ranges[r.0].size,
{
    let j = choose|j: int| i < j < ranges.len() && ranges[i].overlaps(#[trigger] ranges[j]);
    law_overlaps_by_block_numbers(ranges[i], ranges[j]);
    let block = if ranges[i].offset < ranges[j].offset {
        ranges[j].offset as int
    } else {
        ranges[i].offset as int
    };
    (j, block)
}

/// A write takes the blocks from its offset on, as many as it has, or as many as
/// the device says.
pub proof fn law_ranges_of_writes(writes: Seq<(u8, u8)>, actual_sizes: Seq<Block<u32>>, i: int)
    requires
        0 <= i < writes.len(),
    ensures
        ranges_of(writes).len() == writes.len(),
        ranges_of(writes)[i].offset == writes[i].0,
        ranges_of(writes)[i].size == writes[i].1,
        ranges_on(writes, actual_sizes).len() == writes.len(),
        ranges_on(writes, actual_sizes)[i].offset == writes[i].0,
        ranges_on(writes, actual_sizes)[i].size == actual_sizes[i].0,
{
}

/// The data of a write is generated from its number, its first block and its
/// size.
pub proof fn law_data_of_a_write(writes: Seq<(u8, u8)>, i: int)
    requires
        0 <= i < writes.len(),
    ensures
        data_of(writes, i) == generated(
            i as usize,
            Block(writes[i].0 as u64),
            Block(writes[i].1 as u32),
        ),
{
}

/// A device that stores what it is given holds, after the writes, in each byte
/// the data of the last write that took it, and what it held before if none
/// did.
pub proof fn law_device_after_writes(
    v: VdevView,
    writes: Seq<(u8, u8)>,
    k: int,
    i: int,
    p: int,
)
    requires
        v.fail_writes == FailureMode::NoFail,
        0 <= k <= writes.len(),
        v.buffer.len() <= u32::MAX,
        forall|j: int|
            0 <= j < k ==> 4096 * (#[trigger] writes[j]).0 + 4096 * writes[j].1 <= v.buffer.len(),
        forall|j: int|
            0 <= j < k ==> (#[trigger] data_of(writes, j)).len() == 4096 * writes[j].1,
        -1 <= i < k,
        0 <= p < v.buffer.len(),
        i >= 0 ==> 4096 * writes[i].0 <= p < 4096 * writes[i].0 + 4096 * writes[i].1,
        forall|j: int|
            i < j < k ==> !(4096 * (#[trigger] writes[j]).0 <= p < 4096 * writes[j].0 + 4096
                * writes[j].1),
    ensures
        written_through(v, writes, k).buffer.len() == v.buffer.len(),
        written_through(v, writes, k).fail_writes == v.fail_writes,
        written_through(v, writes, k).fail_reads == v.fail_reads,
        written_through(v, writes, k).buffer[p] == if i >= 0 {
            data_of(writes, i)[p - 4096 * writes[i].0]
        } else {
            v.buffer[p]
        },
    decreases k,
{
    if k > 0 {
        let before = written_through(v, writes, k - 1);
        let (data, offset) = (data_of(writes, k - 1), Block(writes[k - 1].0 as u64));
        assert(data.len() == 4096 * writes[k - 1].1);
        assert(4096 * writes[k - 1].0 + 4096 * writes[k - 1].1 <= v.buffer.len());
        if i == k - 1 {
            lemma_written_through(v, writes, k - 1);
        } else {
            law_device_after_writes(v, writes, k - 1, i, p);
            assert(!(4096 * writes[k - 1].0 <= p < 4096 * writes[k - 1].0 + 4096 * writes[k - 1].1));
        }
        crate::failing_leaf_vdev::law_bytes_after_a_write(before, data, offset, false);
    }
}

/// A test without a failure means that every write that no later one took a
/// block of is on the device, byte by byte.
pub proof fn law_success_means_that_the_data_is_there<C: Checksum, B: Builder<C>>(
    builder: &B,
    start: VdevView,
    end: VdevView,
    writes: Seq<(u8, u8)>,
    r: Result<(), Failure>,
    i: int,
    x: int,
)
    requires
        concludes::<C, B>(builder, start, end, writes, r),
        r is Ok,
        end.buffer.len() == start.buffer.len(),
        start.buffer.len() % 4096 == 0,
        0 <= i < writes.len(),
        forall|j: int|
            i < j < writes.len() ==> {
                ||| writes[i].1 == 0
                ||| (#[trigger] writes[j]).1 == 0
                ||| writes[i].0 + writes[i].1 <= writes[j].0
                ||| writes[j].0 + writes[j].1 <= writes[i].0
            },
        0 <= x < 4096 * writes[i].1,
    ensures
        end.fail_reads == FailureMode::NoFail,
        4096 * writes[i].0 + 4096 * writes[i].1 <= end.buffer.len(),
        end.buffer[4096 * writes[i].0 + x] == generated(
            i as usize,
            Block(writes[i].0 as u64),
            Block(writes[i].1 as u32),
        )[x],
{
    let ranges = ranges_of(writes);
    lemma_untouched_is_intact(writes, i);
    lemma_reach(ranges, start.buffer.len() as int / 4096, 0);
    assert(in_range(ranges, start.buffer.len() as int / 4096, i));
    assert(passes::<C, B>(builder, end, writes, i));
    assert(held(end, writes, i)[x] == end.buffer[4096 * writes[i].0 + x]);
}

/// All data of untouched writes is there after a test without a failure.
proof fn lemma_all_data_is_there<C: Checksum, B: Builder<C>>(
    builder: &B,
    start: VdevView,
    end: VdevView,
    writes: Seq<(u8, u8)>,
    r: Result<(), Failure>,
)
    requires
        concludes::<C, B>(builder, start, end, writes, r),
        end.buffer.len() == start.buffer.len(),
        start.buffer.len() % 4096 == 0,
    ensures
        r is Ok ==> forall|i: int, x: int|
            #![trigger writes[i], end.buffer[x]]
            {
                &&& 0 <= i < writes.len()
                &&& 4096 * writes[i].0 <= x < 4096 * writes[i].0 + 4096 * writes[i].1
                &&& forall|j: int|
                    i < j < writes.len() ==> {
                        ||| (#[trigger] writes[j]).1 == 0
                        ||| writes[i].0 + writes[i].1 <= writes[j].0
                        ||| writes[j].0 + writes[j].1 <= writes[i].0
                    }
            } ==> end.buffer[x] == generated(
                i as usize,
                Block(writes[i].0 as u64),
                Block(writes[i].1 as u32),
            )[x - 4096 * writes[i].0],
{
    if r is Ok {
        assert forall|i: int, x: int|
            #![trigger writes[i], end.buffer[x]]
            {
                &&& 0 <= i < writes.len()
                &&& 4096 * writes[i].0 <= x < 4096 * writes[i].0 + 4096 * writes[i].1
                &&& forall|j: int|
                    i < j < writes.len() ==> {
                        ||| (#[trigger] writes[j]).1 == 0
                        ||| writes[i].0 + writes[i].1 <= writes[j].0
                        ||| writes[j].0 + writes[j].1 <= writes[i].0
                    }
            } implies end.buffer[x] == generated(
            i as usize,
            Block(writes[i].0 as u64),
            Block(writes[i].1 as u32),
        )[x - 4096 * writes[i].0] by {
            law_success_means_that_the_data_is_there::<C, B>(
                builder,
                start,
                end,
                writes,
                r,
                i,
                x - 4096 * writes[i].0,
            );
        }
    }
}

/// A write that no later one takes a block of is intact.
proof fn lemma_untouched_is_intact(writes: Seq<(u8, u8)>, i: int)
    requires
        0 <= i < writes.len(),
        forall|j: int|
            i < j < writes.len() ==> {
                ||| writes[i].1 == 0
                ||| (#[trigger] writes[j]).1 == 0
                ||| writes[i].0 + writes[i].1 <= writes[j].0
                ||| writes[j].0 + writes[j].1 <= writes[i].0
            },
    ensures
        intact(ranges_of(writes), i),
{
    let ranges = ranges_of(writes);
    assert forall|j: int| i < j < ranges.len() implies {
        ||| ranges[i].size == 0
        ||| (#[trigger] ranges[j]).size == 0
        ||| ranges[i].offset + ranges[i].size <= ranges[j].offset
        ||| ranges[j].offset + ranges[j].size <= ranges[i].offset
    } by {
        assert(writes[j].1 == ranges[j].size);
    }
    law_intact_by_block_numbers(ranges, i);
}

/// A device that does not hold a byte of a write that no later one took a block
/// of, or that cannot be read, does not pass the test.
pub proof fn law_lost_data_is_noticed<C: Checksum, B: Builder<C>>(
    builder: &B,
    start: VdevView,
    end: VdevView,
    writes: Seq<(u8, u8)>,
    r: Result<(), Failure>,
    i: int,
    x: int,
)
    requires
        concludes::<C, B>(builder, start, end, writes, r),
        end.buffer.len() == start.buffer.len(),
        start.buffer.len() % 4096 == 0,
        0 <= i < writes.len(),
        forall|j: int|
            i < j < writes.len() ==> {
                ||| writes[i].1 == 0
                ||| (#[trigger] writes[j]).1 == 0
                ||| writes[i].0 + writes[i].1 <= writes[j].0
                ||| writes[j].0 + writes[j].1 <= writes[i].0
            },
        0 <= x < 4096 * writes[i].1,
        end.fail_reads != FailureMode::NoFail || end.buffer[4096 * writes[i].0 + x] != generated(
            i as usize,
            Block(writes[i].0 as u64),
            Block(writes[i].1 as u32),
        )[x],
    ensures
        r is Err,
{
    if r is Ok {
        law_success_means_that_the_data_is_there::<C, B>(builder, start, end, writes, r, i, x);
    }
}

/// A failure means what it says: the write is out of range, the device was told
/// to fail, a checksum was found to be wrong, or the device holds something
/// else.
pub proof fn law_failures_mean_what_they_say<C: Checksum, B: Builder<C>>(
    builder: &B,
    start: VdevView,
    end: VdevView,
    writes: Seq<(u8, u8)>,
    failure: Failure,
)
    requires
        concludes::<C, B>(builder, start, end, writes, Err(failure)),
        start.buffer.len() % 4096 == 0,
        writes.len() <= usize::MAX,
    ensures
        failure matches Failure::OutOfRange(i) ==> i < writes.len() && 4096 * writes[i as int].0
            + 4096 * writes[i as int].1 > start.buffer.len() && forall|j: int|
            0 <= j < i ==> 4096 * (#[trigger] writes[j]).0 + 4096 * writes[j].1
                <= start.buffer.len(),
        failure matches Failure::WriteFailed(i) ==> i == 0 < writes.len() && start.fail_writes
            == FailureMode::FailOperation,
        failure matches Failure::ReadFailed(i) ==> i < writes.len() && (end.fail_reads
            != FailureMode::NoFail || rejects::<C, B>(
            builder,
            generated(i, Block(writes[i as int].0 as u64), Block(writes[i as int].1 as u32)),
            end.buffer.subrange(
                4096 * writes[i as int].0,
                4096 * writes[i as int].0 + 4096 * writes[i as int].1,
            ),
        )),
        failure matches Failure::WrongChecksum(i) ==> {
            let data = generated(
                i,
                Block(writes[i as int].0 as u64),
                Block(writes[i as int].1 as u32),
            );
            let found = end.buffer.subrange(
                4096 * writes[i as int].0,
                4096 * writes[i as int].0 + 4096 * writes[i as int].1,
            );
            &&& i < writes.len()
            &&& end.fail_reads == FailureMode::NoFail
            &&& rejects::<C, B>(builder, data, found) || rejects::<C, B>(builder, data, data)
        },
        failure matches Failure::WrongData(i) ==> {
            let data = generated(
                i,
                Block(writes[i as int].0 as u64),
                Block(writes[i as int].1 as u32),
            );
            let found = end.buffer.subrange(
                4096 * writes[i as int].0,
                4096 * writes[i as int].0 + 4096 * writes[i as int].1,
            );
            &&& i < writes.len()
            &&& end.fail_reads == FailureMode::NoFail
            &&& found != data
            &&& accepts::<C, B>(builder, data, found)
            &&& accepts::<C, B>(builder, data, data)
        },
{
    let (ranges, blocks) = (ranges_of(writes), start.buffer.len() as int / 4096);
    lemma_reach(ranges, blocks, 0);
    if let Failure::OutOfRange(i) = failure {
        assert forall|j: int| 0 <= j < i implies 4096 * (#[trigger] writes[j]).0 + 4096
            * writes[j].1 <= start.buffer.len() by {
            assert(in_range(ranges, blocks, j));
        }
    }
}

/// A verdict was given on some data exactly if a checksum was asked about a slice
/// with that data.
pub proof fn law_verdicts_are_given_on_data<C: Checksum, B: Builder<C>>(
    builder: &B,
    checksum: C,
    slice: &[u8],
    verdict: Result<(), ChecksumError>,
)
    ensures
        call_ensures(C::verify, (&checksum, slice), verdict) ==> gives(checksum, slice@, verdict),
        call_ensures(B::checksum, (builder, slice), checksum) ==> is_checksum_of(
            builder,
            checksum,
            slice@,
        ),
{
}

/// A test reads the first write back, of those that are left, that no later one
/// took a block of, and is over if there is none.
pub proof fn law_next_read_is_the_first_untouched_write(ranges: Seq<Range>, from: int, m: int)
    requires
        0 <= from <= m < ranges.len() <= usize::MAX,
        forall|j: int|
            m < j < ranges.len() ==> {
                ||| ranges[m].size == 0
                ||| (#[trigger] ranges[j]).size == 0
                ||| ranges[m].offset + ranges[m].size <= ranges[j].offset
                ||| ranges[j].offset + ranges[j].size <= ranges[m].offset
            },
    ensures
        reading_phase(ranges, from) matches TestPhase::Reading(k) && from <= k <= m && forall|
            j: int,
        |
            k < j < ranges.len() ==> {
                ||| ranges[k as int].size == 0
                ||| (#[trigger] ranges[j]).size == 0
                ||| ranges[k as int].offset + ranges[k as int].size <= ranges[j].offset
                ||| ranges[j].offset + ranges[j].size <= ranges[k as int].offset
            },
{
    law_intact_by_block_numbers(ranges, m);
    lemma_next_intact(ranges, from);
    if next_intact(ranges, from) > m {
        assert(!intact(ranges, m));
    }
    law_intact_by_block_numbers(ranges, next_intact(ranges, from));
}

/// The reading is over exactly when no untouched write is left.
pub proof fn law_reading_is_over_when_nothing_is_left(ranges: Seq<Range>, from: int, m: int)
    requires
        0 <= from,
        ranges.len() <= usize::MAX,
        reading_phase(ranges, from) is Done,
        from <= m < ranges.len(),
    ensures
        exists|j: int|
            m < j < ranges.len() && ranges[m].size > 0 && (#[trigger] ranges[j]).size > 0
                && ranges[m].offset < ranges[j].offset + ranges[j].size && ranges[j].offset
                < ranges[m].offset + ranges[m].size,
{
    lemma_next_intact(ranges, from);
    assert(!intact(ranges, m));
    let (j, block) = law_skipped_writes_are_overwritten(ranges, m);
    assert(ranges[j].size > 0);
}

/// Every write in range is performed, in its order; the first one out of range
/// ends the test; and after the last one the reading begins.
pub proof fn law_next_write(ranges: Seq<Range>, blocks: int, i: int)
    requires
        0 <= i,
        ranges.len() <= usize::MAX,
    ensures
        i < ranges.len() && ranges[i].offset + ranges[i].size <= blocks ==> writing_phase(
            ranges,
            blocks,
            i,
        ) == TestPhase::Writing(i as usize),
        i < ranges.len() && ranges[i].offset + ranges[i].size > blocks ==> writing_phase(
            ranges,
            blocks,
            i,
        ) == TestPhase::Refused(i as usize),
        i >= ranges.len() ==> writing_phase(ranges, blocks, i) == reading_phase(ranges, 0),
{
}

/// What a device is asked for is what the write says: its data goes to its
/// blocks, and its blocks are read back with the checksum of its data.
pub proof fn law_requests_are_those_of_the_writes<C>(test: TestView<C>, step: TestStep<C>, i: usize)
    requires
        asks(test, step),
    ensures
        test.phase == TestPhase::Writing(i) ==> (step matches TestStep::Write(request)
            && request.idx == i && request.offset.0 == test.writes[i as int].0 && request.data@
            == generated(
            i,
            Block(test.writes[i as int].0 as u64),
            Block(test.writes[i as int].1 as u32),
        )),
        test.phase == TestPhase::Reading(i) ==> (step matches TestStep::Read(request)
            && request.idx == i && request.offset.0 == test.writes[i as int].0 && request.size.0
            == test.writes[i as int].1 && request.checksum == test.checksums[i as int]),
        test.phase == TestPhase::Refused(i) ==> step == TestStep::<C>::Done(
            Err(Failure::OutOfRange(i)),
        ),
        test.phase is Done ==> step == TestStep::<C>::Done(Ok(())),
{
}

/// A new checksum is one of the data of the write that is asked for, and comes
/// after all others.
pub proof fn law_checksums_are_those_of_the_writes<C: Checksum, B: Builder<C>>(
    builder: &B,
    before: TestView<C>,
    after: TestView<C>,
    i: usize,
    k: int,
)
    requires
        checksums_follow(builder, before, after),
    ensures
        after.phase == TestPhase::Writing(i) ==> after.checksums.len() == before.checksums.len() + 1
            && is_checksum_of(
            builder,
            after.checksums[before.checksums.len() as int],
            generated(
                i,
                Block(after.writes[i as int].0 as u64),
                Block(after.writes[i as int].1 as u32),
            ),
        ),
        0 <= k < before.checksums.len() ==> after.checksums[k] == before.checksums[k],
        !(after.phase is Writing) ==> after.checksums.len() == before.checksums.len(),
{
    if after.phase is Writing && 0 <= k < before.checksums.len() {
        assert(after.checksums.drop_last()[k] == before.checksums[k]);
    }
}

/// Data passes exactly if both verdicts are good and it is what was written.
pub proof fn law_judgements(
    idx: usize,
    data: Seq<u8>,
    written: Seq<u8>,
    data_verdict: Result<(), ChecksumError>,
    written_verdict: Result<(), ChecksumError>,
)
    ensures
        ({
            let r = judged(idx, data, written, data_verdict, written_verdict);
            &&& data_verdict is Ok && written_verdict is Ok && data == written ==> r == Ok::<
                (),
                Failure,
            >(())
            &&& data_verdict is Err || written_verdict is Err ==> r == Err::<(), Failure>(
                Failure::WrongChecksum(idx),
            )
            &&& data_verdict is Ok && written_verdict is Ok && data != written ==> r == Err::<
                (),
                Failure,
            >(Failure::WrongData(idx))
        }),
{
}

/// A test is told what it waits for: a start, the answer to a write, or the
/// answer to a read.
pub proof fn law_events_fit(event: Event, i: usize)
    ensures
        event is Start ==> fits(TestPhase::Starting, event),
        event is Written ==> fits(TestPhase::Writing(i), event),
        event is ReadBack ==> fits(TestPhase::Reading(i), event),
{
}

/// Data that is found to be right or wrong was judged by a checksum that was
/// computed of the other data.
pub proof fn law_judges_are_the_computed_checksums<C: Checksum, B: Builder<C>>(
    builder: &B,
    of: Seq<u8>,
    data: Seq<u8>,
)
    ensures
        rejects::<C, B>(builder, of, data) ==> exists|
            source: &[u8],
            slice: &[u8],
            checksum: C,
            verdict: Result<(), ChecksumError>,
        |
            {
                &&& source@ == of
                &&& slice@ == data
                &&& #[trigger] call_ensures(B::checksum, (builder, source), checksum)
                &&& #[trigger] call_ensures(C::verify, (&checksum, slice), verdict)
                &&& verdict is Err
            },
        accepts::<C, B>(builder, of, data) ==> exists|
            source: &[u8],
            slice: &[u8],
            checksum: C,
            verdict: Result<(), ChecksumError>,
        |
            {
                &&& source@ == of
                &&& slice@ == data
                &&& #[trigger] call_ensures(B::checksum, (builder, source), checksum)
                &&& #[trigger] call_ensures(C::verify, (&checksum, slice), verdict)
                &&& verdict is Ok
            },
{
    if rejects::<C, B>(builder, of, data) {
        let (checksum, verdict) = choose|checksum: C, verdict: Result<(), ChecksumError>|
            {
                &&& is_checksum_of(builder, checksum, of)
                &&& #[trigger] gives(checksum, data, verdict)
                &&& verdict is Err
            };
        lemma_asked::<C, B>(builder, of, data, checksum, verdict);
    }
    if accepts::<C, B>(builder, of, data) {
        let (checksum, verdict) = choose|checksum: C, verdict: Result<(), ChecksumError>|
            {
                &&& is_checksum_of(builder, checksum, of)
                &&& #[trigger] gives(checksum, data, verdict)
                &&& verdict is Ok
            };
        lemma_asked::<C, B>(builder, of, data, checksum, verdict);
    }
}

/// The slices that a checksum was computed of and asked about.
proof fn lemma_asked<C: Checksum, B: Builder<C>>(
    builder: &B,
    of: Seq<u8>,
    data: Seq<u8>,
    checksum: C,
    verdict: Result<(), ChecksumError>,
)
    requires
        is_checksum_of(builder, checksum, of),
        gives(checksum, data, verdict),
    ensures
        exists|source: &[u8], slice: &[u8]|
            {
                &&& source@ == of
                &&& slice@ == data
                &&& #[trigger] call_ensures(B::checksum, (builder, source), checksum)
                &&& #[trigger] call_ensures(C::verify, (&checksum, slice), verdict)
            },
{
    let source = choose|source: &[u8]|
        source@ == of && #[trigger] call_ensures(B::checksum, (builder, source), checksum);
    let slice = choose|slice: &[u8]|
        slice@ == data && #[trigger] call_ensures(C::verify, (&checksum, slice), verdict);
    assert(call_ensures(B::checksum, (builder, source), checksum));
    assert(call_ensures(C::verify, (&checksum, slice), verdict));
}

/// Checksums are honest if no data is ever found to have another checksum than
/// the one that was computed of it.
pub proof fn law_honest_checksums<C: Checksum, B: Builder<C>>(builder: &B)
    requires
        forall|
            source: &[u8],
            slice: &[u8],
            checksum: C,
            verdict: Result<(), ChecksumError>,
        |
            #[trigger] call_ensures(B::checksum, (builder, source), checksum)
                && #[trigger] call_ensures(C::verify, (&checksum, slice), verdict) && source@
                == slice@ ==> verdict is Ok,
    ensures
        honest::<C, B>(builder),
{
    assert forall|checksum: C, slice: &[u8], verdict: Result<(), ChecksumError>|
        is_checksum_of(builder, checksum, slice@) && #[trigger] call_ensures(
            C::verify,
            (&checksum, slice),
            verdict,
        ) implies verdict is Ok by {
        let source = choose|source: &[u8]|
            source@ == slice@ && #[trigger] call_ensures(B::checksum, (builder, source), checksum);
        assert(call_ensures(B::checksum, (builder, source), checksum));
    }
}

/// Writes are within a device exactly if it has all of their bytes.
pub proof fn law_within_by_bytes(v: VdevView, writes: Seq<(u8, u8)>, k: int)
    ensures
        within(v, writes, k) <==> forall|i: int|
            0 <= i < k ==> 4096 * (#[trigger] writes[i]).0 + 4096 * writes[i].1 <= v.buffer.len(),
{
    if within(v, writes, k) {
        assert forall|i: int| 0 <= i < k implies 4096 * (#[trigger] writes[i]).0 + 4096
            * writes[i].1 <= v.buffer.len() by {
            assert(bytes(writes[i].0 + writes[i].1) <= v.buffer.len());
        }
    }
}

/// A failure to read back, or to read the right data back, is about a write that
/// no later one took a block of, and the device has been through all writes.
pub proof fn law_failures_are_about_untouched_writes<C: Checksum, B: Builder<C>>(
    builder: &B,
    start: VdevView,
    end: VdevView,
    writes: Seq<(u8, u8)>,
    r: Result<(), Failure>,
    i: usize,
    j: int,
)
    requires
        concludes::<C, B>(builder, start, end, writes, r),
        r == Err::<(), Failure>(Failure::ReadFailed(i)) || r == Err::<(), Failure>(
            Failure::WrongChecksum(i),
        ) || r == Err::<(), Failure>(Failure::WrongData(i)),
        i < j < writes.len(),
    ensures
        writes[i as int].1 == 0 || writes[j].1 == 0 || writes[i as int].0 + writes[i as int].1
            <= writes[j].0 || writes[j].0 + writes[j].1 <= writes[i as int].0,
        end == written_through(start, writes, writes.len() as int),
{
    let ranges = ranges_of(writes);
    law_intact_by_block_numbers(ranges, i as int);
    assert(ranges[j].size == writes[j].1);
}

/// A write out of range is noticed when the writes before it were performed,
/// and a device that cannot be written or read is noticed at the first try.
pub proof fn law_tests_stop_at_the_first_failure<C: Checksum, B: Builder<C>>(
    builder: &B,
    start: VdevView,
    end: VdevView,
    writes: Seq<(u8, u8)>,
    r: Result<(), Failure>,
    i: int,
)
    requires
        concludes::<C, B>(builder, start, end, writes, r),
        start.buffer.len() % 4096 == 0,
        0 < writes.len() <= usize::MAX,
        0 <= i <= writes.len(),
        forall|j: int|
            0 <= j < i ==> 4096 * (#[trigger] writes[j]).0 + 4096 * writes[j].1
                <= start.buffer.len(),
        i < writes.len() ==> 4096 * writes[i].0 + 4096 * writes[i].1 > start.buffer.len(),
    ensures
        i > 0 && start.fail_writes == FailureMode::FailOperation ==> r == Err::<(), Failure>(
            Failure::WriteFailed(0),
        ) && end == written_through(start, writes, 1),
        i < writes.len() && (i == 0 || start.fail_writes != FailureMode::FailOperation) ==> r
            == Err::<(), Failure>(Failure::OutOfRange(i as usize)) && end == written_through(
            start,
            writes,
            i,
        ),
        i == writes.len() && start.fail_writes != FailureMode::FailOperation && end.fail_reads
            != FailureMode::NoFail ==> r matches Err(Failure::ReadFailed(_)),
        i == writes.len() && start.fail_writes != FailureMode::FailOperation ==> end
            == written_through(start, writes, writes.len() as int),
{
    let (ranges, blocks) = (ranges_of(writes), start.buffer.len() as int / 4096);
    lemma_reach(ranges, blocks, 0);
    let count = reach(ranges, blocks, 0);
    if count < i {
        assert(4096 * writes[count].0 + 4096 * writes[count].1 <= start.buffer.len());
    }
    if count > i {
        assert(in_range(ranges, blocks, i));
    }
    assert(intact(ranges, ranges.len() - 1));
}

/// Writes are performed one after the other, each with its own data at its own
/// blocks.
pub proof fn law_writes_are_performed_in_order(v: VdevView, writes: Seq<(u8, u8)>, k: int)
    requires
        0 <= k < writes.len(),
    ensures
        written_through(v, writes, 0) == v,
        written_through(v, writes, k + 1) == after_write(
            written_through(v, writes, k),
            generated(k as usize, Block(writes[k].0 as u64), Block(writes[k].1 as u32)),
            Block(writes[k].0 as u64),
            false,
        ),
{
}

/// The planned writes are numbered one by one.
pub proof fn law_planned_writes(count: nat, i: int, k: int)
    requires
        0 <= i <= count,
    ensures
        writes_from(count, i).len() == count - i,
        0 <= k < count - i ==> writes_from(count, i)[k] == Planned::Write(i + k),
{
}

} // verus!
