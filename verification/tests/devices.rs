use betree::block::{Block, BLOCK_SIZE};
use betree::failing_leaf_vdev::{
    conclude_read, generate_data, select_nonzero, FailingLeafVdev, FailureMode, NonZeroU8,
};
use betree::vdev::{Checksum, ChecksumError, Vdev, VdevError};

struct Sum(u64);

impl Checksum for Sum {
    fn verify(&self, data: &[u8]) -> Result<(), ChecksumError> {
        if data.iter().map(|&x| x as u64).sum::<u64>() == self.0 {
            Ok(())
        } else {
            Err(ChecksumError)
        }
    }
}

fn device(blocks: u32) -> FailingLeafVdev {
    FailingLeafVdev::new(Block(blocks), "disk".to_string())
}

fn is_read_error<T>(r: Result<T, VdevError>) -> bool {
    match r {
        Err(VdevError::ReadError(id)) => id == "disk",
        _ => false,
    }
}

fn is_write_error<T>(r: Result<T, VdevError>) -> bool {
    match r {
        Err(VdevError::WriteError(id)) => id == "disk",
        _ => false,
    }
}

#[test]
fn blocks_and_bytes() {
    assert_eq!(BLOCK_SIZE, 4096);
    assert_eq!(Block::<u32>::from_bytes(8192), Block(2u32));
    assert_eq!(Block(3u32).to_bytes(), 12288);
    assert_eq!(Block(3u32).as_u32(), 3);
    assert_eq!(Block(3u32).as_u64(), 3);
    assert_eq!(Block::<u64>::from_bytes(1 << 40), Block(1u64 << 28));
    assert_eq!(Block(1u64 << 28).to_bytes(), 1 << 40);
    assert_eq!(Block(5u64).as_u64(), 5);
}

#[test]
fn new_device_is_zero() {
    let vdev = device(3);
    assert_eq!(vdev.size(), Block(3));
    assert_eq!(vdev.actual_size(Block(2)), Block(2));
    assert_eq!(vdev.effective_free_size(Block(2)), Block(2));
    assert_eq!(vdev.id(), "disk");
    assert_eq!(vdev.num_disks(), 1);
    assert_eq!(vdev.stats().read, Block(0));
    assert_eq!(vdev.stats().written, Block(0));
    let data = vdev.handle_read(Block(3), Block(0)).unwrap();
    assert_eq!(data, vec![0; 3 * 4096]);
}

#[test]
fn read_gives_back_what_was_written() {
    let mut vdev = device(4);
    let data = vec![9; 4096];
    vdev.write_raw(&data, Block(2), false).unwrap();
    assert_eq!(vdev.handle_read(Block(1), Block(2)).unwrap(), data);
    assert_eq!(vdev.read(Block(1), Block(2), Sum(9 * 4096)).unwrap(), data);
    assert_eq!(vdev.read_raw(Block(1), Block(2)).unwrap(), vec![data.clone()]);
    assert_eq!(vdev.read_raw_into(vec![0; 4096], Block(2)).unwrap(), data);
    let found = vdev.scrub(Block(1), Block(2), Sum(9 * 4096)).unwrap();
    assert_eq!(found.data, data);
    assert_eq!(found.faulted, Block(0));
    assert_eq!(found.repaired, Block(0));
    // The rest is as it was.
    assert_eq!(vdev.handle_read(Block(2), Block(0)).unwrap(), vec![0; 8192]);
    assert_eq!(vdev.handle_read(Block(1), Block(3)).unwrap(), vec![0; 4096]);
    assert_eq!(vdev.stats().written, Block(1));
    assert_eq!(vdev.stats().read, Block(1));
    assert_eq!(vdev.stats().repaired, Block(0));
}

#[test]
fn last_write_counts() {
    let mut vdev = device(2);
    vdev.write_raw(&[1; 8192], Block(0), false).unwrap();
    vdev.write_raw(&[2; 4096], Block(1), false).unwrap();
    let data = vdev.handle_read(Block(2), Block(0)).unwrap();
    assert_eq!(data[4095], 1);
    assert_eq!(data[4096], 2);
    assert_eq!(vdev.stats().written, Block(3));
}

#[test]
fn wrong_checksum_is_a_read_error() {
    let vdev = device(1);
    assert!(is_read_error(vdev.read(Block(1), Block(0), Sum(1))));
    assert!(is_read_error(vdev.scrub(Block(1), Block(0), Sum(1))));
    let id = "disk".to_string();
    assert!(is_read_error(conclude_read(vec![1], Err(ChecksumError), &id)));
    assert_eq!(conclude_read(vec![1], Ok(()), &id).unwrap(), vec![1]);
}

#[test]
fn failing_reads() {
    let mut vdev = device(2);
    vdev.fail_reads(FailureMode::FailOperation);
    assert!(is_read_error(vdev.handle_read(Block(1), Block(0))));
    assert!(is_read_error(vdev.read(Block(1), Block(0), Sum(0))));
    assert!(is_read_error(vdev.read_raw(Block(1), Block(0))));
    assert!(is_read_error(vdev.read_raw_into(vec![0; 8192], Block(0))));
    assert_eq!(vdev.stats().read, Block(2));
    assert_eq!(vdev.stats().failed_reads, Block(2));
    vdev.fail_reads(FailureMode::NoFail);
    assert!(vdev.handle_read(Block(1), Block(0)).is_ok());
}

#[test]
fn bad_reads() {
    let mut vdev = device(2);
    vdev.fail_reads(FailureMode::BadData);
    assert!(is_read_error(vdev.handle_read(Block(1), Block(0))));
    let data = vdev.read_raw_into(vec![0; 4096], Block(1)).unwrap();
    for x in 0..4096 {
        assert_eq!(data[x], (3 * x + 4096) as u8);
    }
    assert_eq!(data[100], 44);
    assert_eq!(vdev.stats().failed_reads, Block(0));
}

#[test]
fn failing_writes() {
    let mut vdev = device(2);
    vdev.fail_writes(FailureMode::FailOperation);
    assert!(is_write_error(vdev.write_raw(&[1; 4096], Block(0), true)));
    assert_eq!(vdev.handle_read(Block(2), Block(0)).unwrap(), vec![0; 8192]);
    assert_eq!(vdev.stats().written, Block(1));
    assert_eq!(vdev.stats().failed_writes, Block(1));
    assert_eq!(vdev.stats().repaired, Block(0));
}

#[test]
fn bad_writes() {
    let mut vdev = device(2);
    vdev.fail_writes(FailureMode::BadData);
    vdev.write_raw(&[1; 4096], Block(1), true).unwrap();
    let data = vdev.handle_read(Block(1), Block(1)).unwrap();
    for x in 0..4096 {
        assert_eq!(data[x], (7 * x + 4096) as u8);
    }
    assert_eq!(data[100], 188);
    assert_eq!(vdev.stats().repaired, Block(1));
    assert_eq!(vdev.stats().failed_writes, Block(0));
}

#[test]
fn flush_succeeds() {
    assert!(device(1).flush().is_ok());
}

#[test]
fn checksum_errors_are_counted() {
    let mut vdev = device(1);
    vdev.checksum_error_occurred(Block(3));
    vdev.checksum_error_occurred(Block(4));
    assert_eq!(vdev.stats().checksum_errors, Block(7));
}

#[test]
fn generated_data() {
    let data = generate_data(1, Block(2), Block(1));
    assert_eq!(data.len(), 4096);
    assert_eq!(data[..16], [18, 16, 0, 0, 27, 24, 0, 0, 9, 8, 0, 0, 9, 8, 0, 0]);
    assert_eq!(data[4088..], [48, 123, 48, 63, 15, 86, 132, 194]);
    let data = generate_data(0, Block((1 << 32) + 5), Block(1));
    assert_eq!(data[..16], [19, 16, 0, 0, 19, 16, 0, 0, 62, 56, 0, 0, 55, 48, 0, 0]);
    assert!(generate_data(3, Block(1), Block(0)).is_empty());
}

#[test]
fn arbitrary_modes_never_panic() {
    assert_eq!(FailureMode::arbitrary(0), FailureMode::NoFail);
    assert_eq!(FailureMode::arbitrary(1), FailureMode::FailOperation);
    assert_eq!(FailureMode::arbitrary(2), FailureMode::BadData);
}

fn numbers(v: Vec<NonZeroU8>) -> Vec<u8> {
    v.iter().map(|x| x.get()).collect()
}

#[test]
fn nonzero_numbers_shrink_to_nonzero_numbers() {
    assert_eq!(numbers(NonZeroU8::arbitrary(10).shrink()), vec![5, 8, 9]);
    assert_eq!(numbers(NonZeroU8::arbitrary(1).shrink()), Vec::<u8>::new());
    assert_eq!(NonZeroU8::arbitrary(254).get(), 254);
}

#[test]
fn zeros_are_left_out() {
    assert_eq!(numbers(select_nonzero(&vec![0, 3, 0, 0, 1, 3])), vec![3, 1, 3]);
    assert_eq!(numbers(select_nonzero(&vec![0])), Vec::<u8>::new());
}

#[test]
fn blocks_are_counted() {
    let mut vdev = device(1);
    vdev.count_read(Block(3));
    vdev.count_written(Block(4));
    vdev.write_raw(&[1; 4096], Block(0), false).unwrap();
    assert_eq!(vdev.stats().read, Block(3));
    assert_eq!(vdev.stats().written, Block(5));
}
