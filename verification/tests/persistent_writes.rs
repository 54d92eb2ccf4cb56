use betree::block::Block;
use betree::failing_leaf_vdev::{generate_data, FailingLeafVdev, FailureMode};
use betree::persistence::{
    judge, test_writes_are_persistent, Event, Failure, PersistenceCheck, TestStep, WriteTest,
};
use betree::vdev::{Builder, Checksum, ChecksumError, VdevError};

#[derive(Clone, Copy)]
struct Sum(u64);

impl Checksum for Sum {
    fn verify(&self, data: &[u8]) -> Result<(), ChecksumError> {
        if data.iter().map(|&x| x as u64).sum::<u64>() == self.0 {
            Ok(())
        } else {
            Err(ChecksumError)
        }
    }
}

struct Summing;

impl Builder<Sum> for Summing {
    fn checksum(&self, data: &[u8]) -> Sum {
        Sum(data.iter().map(|&x| x as u64).sum())
    }
}

/// Accepts all data.
#[derive(Clone, Copy)]
struct Blind;

impl Checksum for Blind {
    fn verify(&self, _data: &[u8]) -> Result<(), ChecksumError> {
        Ok(())
    }
}

struct Blindly;

impl Builder<Blind> for Blindly {
    fn checksum(&self, _data: &[u8]) -> Blind {
        Blind
    }
}

fn device(blocks: u32) -> FailingLeafVdev {
    FailingLeafVdev::new(Block(blocks), "disk".to_string())
}

#[test]
fn overwritten_writes_are_not_intact() {
    let mut check = PersistenceCheck::new(Block(8));
    assert_eq!(check.write(0, 2, Block(2)), generate_data(0, Block(0), Block(2)));
    assert_eq!(check.write(4, 1, Block(1)), generate_data(1, Block(4), Block(1)));
    assert!(check.is_intact(0));
    check.write(1, 2, Block(2));
    check.write(7, 0, Block(0));
    assert!(!check.is_intact(0));
    assert!(check.is_intact(1));
    assert!(check.is_intact(2));
    assert!(check.is_intact(3));
}

#[test]
fn device_keeps_what_was_written() {
    let mut vdev = device(8);
    let writes = [(0, 2), (4, 1), (1, 2), (5, 3), (4, 2), (8, 0)];
    assert_eq!(test_writes_are_persistent(&writes, &mut vdev, &Summing), Ok(()));
    let data = vdev.handle_read(Block(2), Block(1)).unwrap();
    assert_eq!(data, generate_data(2, Block(1), Block(2)));
    assert_eq!(test_writes_are_persistent(&[], &mut vdev, &Summing), Ok(()));
}

#[test]
fn failing_device_is_noticed() {
    let mut vdev = device(8);
    vdev.fail_writes(FailureMode::FailOperation);
    assert_eq!(
        test_writes_are_persistent(&[(0, 1), (2, 1)], &mut vdev, &Summing),
        Err(Failure::WriteFailed(0))
    );
    vdev.fail_writes(FailureMode::NoFail);
    vdev.fail_reads(FailureMode::BadData);
    assert_eq!(
        test_writes_are_persistent(&[(0, 1), (0, 2)], &mut vdev, &Summing),
        Err(Failure::ReadFailed(1))
    );
}

#[test]
fn bad_data_is_noticed() {
    let mut vdev = device(8);
    vdev.fail_writes(FailureMode::BadData);
    assert_eq!(
        test_writes_are_persistent(&[(1, 1)], &mut vdev, &Summing),
        Err(Failure::ReadFailed(0))
    );
    assert_eq!(
        test_writes_are_persistent(&[(1, 1)], &mut vdev, &Blindly),
        Err(Failure::WrongData(0))
    );
}

#[test]
fn verdicts() {
    let a = vec![1];
    let b = vec![2];
    assert_eq!(judge(3, &a, &a, Ok(()), Ok(())), Ok(()));
    assert_eq!(judge(3, &a, &b, Ok(()), Ok(())), Err(Failure::WrongData(3)));
    assert_eq!(judge(3, &a, &a, Err(ChecksumError), Ok(())), Err(Failure::WrongChecksum(3)));
    assert_eq!(judge(3, &a, &b, Ok(()), Err(ChecksumError)), Err(Failure::WrongChecksum(3)));
}

/// Gives this verdict on all data.
#[derive(Clone, Copy)]
struct Fixed(Result<(), ChecksumError>);

impl Checksum for Fixed {
    fn verify(&self, _data: &[u8]) -> Result<(), ChecksumError> {
        self.0
    }
}

impl Builder<Fixed> for Fixed {
    fn checksum(&self, _data: &[u8]) -> Fixed {
        *self
    }
}

fn sizes(writes: &[(u8, u8)]) -> Vec<Block<u32>> {
    writes.iter().map(|&(_, size)| Block(size as u32)).collect()
}

#[test]
fn plan_is_followed() {
    let writes = [(0, 2), (4, 1), (1, 2), (6, 1)];
    let mut test = WriteTest::new(&writes, sizes(&writes), Block(8));
    let mut event = Event::Start;
    let mut asked = Vec::new();
    loop {
        event = match test.turn(&Summing, event) {
            TestStep::Write(request) => {
                asked.push(("write", request.idx));
                assert_eq!(request.offset, Block(writes[request.idx].0 as u64));
                let size = Block(writes[request.idx].1 as u32);
                assert_eq!(request.data, generate_data(request.idx, request.offset, size));
                Event::Written(Ok(()))
            }
            TestStep::Read(request) => {
                asked.push(("read", request.idx));
                assert_eq!(request.size, Block(writes[request.idx].1 as u32));
                let data = generate_data(request.idx, request.offset, request.size);
                assert!(request.checksum.verify(&data).is_ok());
                Event::ReadBack(Ok(data))
            }
            TestStep::Done(result) => {
                assert_eq!(result, Ok(()));
                break;
            }
        };
    }
    assert_eq!(
        asked,
        vec![
            ("write", 0),
            ("write", 1),
            ("write", 2),
            ("write", 3),
            ("read", 1),
            ("read", 2),
            ("read", 3)
        ]
    );
}

#[test]
fn actual_sizes_decide_what_is_overwritten() {
    let writes = [(0, 1), (1, 1)];
    let mut test = WriteTest::new(&writes, vec![Block(2), Block(2)], Block(3));
    assert!(matches!(test.turn(&Summing, Event::Start), TestStep::Write(_)));
    assert!(matches!(test.turn(&Summing, Event::Written(Ok(()))), TestStep::Write(_)));
    match test.turn(&Summing, Event::Written(Ok(()))) {
        TestStep::Read(request) => assert_eq!(request.idx, 1),
        _ => panic!("the second write is intact"),
    }
}

#[test]
fn failures_end_the_test() {
    let writes = [(0, 1), (1, 1)];
    let begin = || {
        let mut test = WriteTest::new(&writes, sizes(&writes), Block(2));
        assert!(matches!(test.turn(&Summing, Event::Start), TestStep::Write(_)));
        test
    };
    let error = || VdevError::ReadError(String::new());
    let mut test = begin();
    assert!(matches!(test.turn(&Summing, Event::Written(Ok(()))), TestStep::Write(_)));
    match test.turn(&Summing, Event::Written(Err(error()))) {
        TestStep::Done(result) => assert_eq!(result, Err(Failure::WriteFailed(1))),
        _ => panic!("the write failed"),
    }
    let mut test = begin();
    let _ = test.turn(&Summing, Event::Written(Ok(())));
    let _ = test.turn(&Summing, Event::Written(Ok(())));
    match test.turn(&Summing, Event::ReadBack(Err(error()))) {
        TestStep::Done(result) => assert_eq!(result, Err(Failure::ReadFailed(0))),
        _ => panic!("the read failed"),
    }
}

#[test]
fn verdicts_are_asked_for() {
    let writes = [(0, 1)];
    for (verdict, expected) in [
        (Ok(()), Ok(())),
        (Err(ChecksumError), Err(Failure::WrongChecksum(0))),
    ] {
        let builder = Fixed(verdict);
        let mut test = WriteTest::new(&writes, sizes(&writes), Block(1));
        let _ = test.turn(&builder, Event::Start);
        let _ = test.turn(&builder, Event::Written(Ok(())));
        let data = generate_data(0, Block(0), Block(1));
        match test.turn(&builder, Event::ReadBack(Ok(data))) {
            TestStep::Done(result) => assert_eq!(result, expected),
            _ => panic!("nothing is left to do"),
        }
    }
}

#[test]
fn nothing_to_test() {
    let mut test = WriteTest::new(&[], vec![], Block(1));
    match test.turn(&Summing, Event::Start) {
        TestStep::Done(result) => assert_eq!(result, Ok(())),
        _ => panic!("there is no write"),
    }
}

#[test]
fn writes_before_one_out_of_range_are_asked_for() {
    let writes = [(0, 2), (1, 2), (2, 1)];
    let mut test = WriteTest::new(&writes, sizes(&writes), Block(2));
    match test.turn(&Summing, Event::Start) {
        TestStep::Write(request) => assert_eq!(request.idx, 0),
        _ => panic!("the first write is in range"),
    }
    match test.turn(&Summing, Event::Written(Ok(()))) {
        TestStep::Done(result) => assert_eq!(result, Err(Failure::OutOfRange(1))),
        _ => panic!("the second write is out of range"),
    }
    let mut vdev = device(2);
    assert_eq!(
        test_writes_are_persistent(&writes, &mut vdev, &Summing),
        Err(Failure::OutOfRange(1))
    );
    let data = vdev.handle_read(Block(2), Block(0)).unwrap();
    assert_eq!(data, generate_data(0, Block(0), Block(2)));
    vdev.fail_writes(FailureMode::FailOperation);
    assert_eq!(
        test_writes_are_persistent(&writes, &mut vdev, &Summing),
        Err(Failure::WriteFailed(0))
    );
    assert_eq!(
        test_writes_are_persistent(&[(2, 1)], &mut vdev, &Summing),
        Err(Failure::OutOfRange(0))
    );
}
