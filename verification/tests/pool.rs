use betree::block::Block;
use betree::failing_leaf_vdev::FailingLeafVdev;
use betree::storage_pool::{
    join_outcome, DiskOffset, FlushStep, PoolFlush, RawReadStep, ReadStep, StoragePoolConfiguration,
    StoragePoolUnit, WriteStep, MAX_STORAGE_CLASSES,
};
use betree::vdev::{TaskFailure, Vdev, VdevError};

fn disk(blocks: u32, id: &str) -> FailingLeafVdev {
    FailingLeafVdev::new(Block(blocks), id.to_string())
}

fn pool() -> StoragePoolUnit<FailingLeafVdev> {
    let configuration = StoragePoolConfiguration {
        queue_depth_soft_limit: 1,
        queue_depth_hard_limit: 1,
        thread_pool_size: None,
    };
    let tiers = vec![vec![disk(1, "a"), disk(2, "b")], vec![], vec![disk(3, "c")]];
    StoragePoolUnit::new(&configuration, tiers)
}

fn at(storage_class: u8, disk_id: u16, block: u64) -> DiskOffset {
    DiskOffset { storage_class, disk_id, block_offset: Block(block) }
}

fn write(pool: &mut StoragePoolUnit<FailingLeafVdev>, who: u64, offset: DiskOffset, write: u64) {
    let mut op = pool.begin_write(who, offset, write);
    let turn = pool.continue_write(&mut op, None);
    assert!(matches!(turn.step, WriteStep::Release(Ok(()))));
    assert!(turn.notify);
}

#[test]
fn tiers_are_padded() {
    let pool = pool();
    assert_eq!(MAX_STORAGE_CLASSES, 4);
    assert_eq!(pool.storage_class_count(), 4);
    assert_eq!(pool.disk_count(0), 2);
    assert_eq!(pool.disk_count(1), 0);
    assert_eq!(pool.disk_count(2), 1);
    assert_eq!(pool.disk_count(3), 0);
    assert_eq!(pool.places(), vec![(0, 0), (0, 1), (2, 0)]);
}

#[test]
fn disks_are_found() {
    let pool = pool();
    assert_eq!(pool.by_offset(at(0, 1, 9)).id(), "b");
    assert_eq!(pool.size_in_blocks(0, 0), Block(1));
    assert_eq!(pool.size_in_blocks(2, 0), Block(3));
    assert_eq!(pool.actual_size(0, 1, Block(5)), Block(5));
    assert_eq!(pool.num_disks(2, 0), 1);
    assert_eq!(pool.effective_free_size(0, 0, Block(6)), Block(6));
}

#[test]
fn devices_are_found_by_their_places() {
    let pool = pool();
    assert_eq!(pool.device((0, 1)).unwrap().id(), "b");
    assert_eq!(pool.device((2, 0)).unwrap().id(), "c");
    assert!(pool.device((0, 2)).is_none());
    assert!(pool.device((1, 0)).is_none());
    assert!(pool.device((4, 0)).is_none());
}

#[test]
fn keys_tell_places_apart() {
    assert_eq!(at(1, 2, 3).key(), (1, 2, 3));
    assert_ne!(at(1, 2, 3).key(), at(1, 3, 3).key());
}

#[test]
fn read_waits_for_the_pending_write() {
    let mut pool = pool();
    write(&mut pool, 1, at(0, 1, 0), 20);
    let mut op = pool.read_async(Block(1), at(0, 1, 0), 77u32);
    let turn = pool.continue_read(&mut op, None);
    assert!(matches!(turn.step, ReadStep::Await(20)));
    let turn = pool.continue_read(&mut op, Some(Ok(())));
    assert!(turn.notify);
    match turn.step {
        ReadStep::Read(request) => {
            assert_eq!(request.size, Block(1));
            assert_eq!(request.offset, at(0, 1, 0));
            assert_eq!(request.checksum, 77);
        }
        _ => panic!("the write is over"),
    }
}

#[test]
fn read_waits_for_the_last_write() {
    let mut pool = pool();
    write(&mut pool, 1, at(0, 1, 0), 20);
    write(&mut pool, 2, at(0, 0, 0), 21);
    let _ = pool.read_async(Block(1), at(0, 0, 0), 77u32);
    let mut op = pool.read_async(Block(1), at(0, 1, 0), 77u32);
    assert!(matches!(pool.continue_read(&mut op, None).step, ReadStep::Await(20)));
}

#[test]
fn read_fails_with_the_pending_write() {
    let mut pool = pool();
    write(&mut pool, 1, at(0, 1, 0), 20);
    let mut op = pool.read_async(Block(1), at(0, 1, 0), 77u32);
    let _ = pool.continue_read(&mut op, None);
    let turn = pool.continue_read(&mut op, Some(Err(VdevError::WriteError("b".to_string()))));
    match turn.step {
        ReadStep::Fail(VdevError::WriteError(id)) => assert_eq!(id, "b"),
        _ => panic!("the write failed"),
    }
}

#[test]
fn read_of_another_place_does_not_wait() {
    let mut pool = pool();
    write(&mut pool, 1, at(0, 1, 0), 20);
    let mut op = pool.read_async(Block(1), at(0, 0, 0), 77u32);
    let turn = pool.continue_read(&mut op, None);
    assert!(matches!(turn.step, ReadStep::Read(_)));
    assert!(!turn.notify);
}

#[test]
fn latch_is_opened_even_if_the_write_is_not_enqueued() {
    let mut pool = pool();
    write(&mut pool, 1, at(0, 1, 0), 20);
    let mut op = pool.begin_write(2, at(0, 1, 0), 21);
    let turn = pool.continue_write(&mut op, None);
    assert!(matches!(turn.step, WriteStep::Await(20)));
    let turn = pool.continue_write(&mut op, Some(Err(VdevError::WriteError("b".to_string()))));
    match turn.step {
        WriteStep::Release(Err(VdevError::WriteError(id))) => assert_eq!(id, "b"),
        _ => panic!("the earlier write failed"),
    }
    let mut op = pool.read_async(Block(1), at(0, 1, 0), 77u32);
    assert!(matches!(pool.continue_read(&mut op, None).step, ReadStep::Read(_)));
}

#[test]
fn write_sleeps_while_the_queue_is_full() {
    let mut pool = pool();
    write(&mut pool, 1, at(0, 0, 0), 20);
    write(&mut pool, 2, at(0, 1, 0), 21);
    let mut op = pool.begin_write(3, at(2, 0, 0), 22);
    let turn = pool.continue_write(&mut op, None);
    assert!(matches!(turn.step, WriteStep::Sleep));
    let mut read = pool.read_async(Block(1), at(0, 0, 0), 77u32);
    let _ = pool.continue_read(&mut read, None);
    let _ = pool.continue_read(&mut read, Some(Ok(())));
    let turn = pool.continue_write(&mut op, None);
    assert!(matches!(turn.step, WriteStep::Release(Ok(()))));
}

fn flushed(pool: &mut StoragePoolUnit<FailingLeafVdev>, op: &mut PoolFlush, outcome: Option<Result<(), VdevError>>) -> FlushStep {
    pool.continue_flush(op, outcome).step
}

#[test]
fn flush_waits_for_the_queue_and_then_flushes_all_devices() {
    let mut pool = pool();
    write(&mut pool, 1, at(0, 1, 0), 20);
    let mut op = pool.flush(2);
    assert!(matches!(flushed(&mut pool, &mut op, None), FlushStep::Sleep));
    let mut read = pool.read_async(Block(1), at(0, 1, 0), 77u32);
    let _ = pool.continue_read(&mut read, None);
    let _ = pool.continue_read(&mut read, Some(Ok(())));
    assert!(matches!(flushed(&mut pool, &mut op, None), FlushStep::Flush((0, 0))));
    assert!(matches!(flushed(&mut pool, &mut op, Some(Ok(()))), FlushStep::Flush((0, 1))));
    assert!(matches!(flushed(&mut pool, &mut op, Some(Ok(()))), FlushStep::Flush((2, 0))));
    assert!(matches!(flushed(&mut pool, &mut op, Some(Ok(()))), FlushStep::Return(Ok(()))));
}

#[test]
fn pool_flush_stops_at_the_first_error() {
    let mut pool = pool();
    let mut op = pool.flush(1);
    assert!(matches!(flushed(&mut pool, &mut op, None), FlushStep::Flush((0, 0))));
    let error = VdevError::WriteError("a".to_string());
    assert!(matches!(
        flushed(&mut pool, &mut op, Some(Err(error))),
        FlushStep::Return(Err(VdevError::WriteError(_)))
    ));
}

#[test]
fn raw_write_succeeds_after_the_last_device() {
    let pool = pool();
    let (places, mut op) = pool.write_raw(Block(5));
    assert_eq!(places, vec![(0, 0), (0, 1), (2, 0)]);
    assert_eq!(op.offset, Block(5));
    assert!(op.start().is_none());
    assert!(op.turn(Ok(())).is_none());
    assert!(op.turn(Ok(())).is_none());
    assert!(matches!(op.turn(Ok(())), Some(Ok(()))));
}

#[test]
fn raw_write_fails_with_the_first_error() {
    let pool = pool();
    let (_, mut op) = pool.write_raw(Block(0));
    assert!(op.turn(Ok(())).is_none());
    let error = VdevError::TaskError(TaskFailure::Panicked);
    assert!(matches!(
        op.turn(Err(error)),
        Some(Err(VdevError::TaskError(TaskFailure::Panicked)))
    ));
}

#[test]
fn pool_without_devices() {
    let configuration = StoragePoolConfiguration {
        queue_depth_soft_limit: 1,
        queue_depth_hard_limit: 1,
        thread_pool_size: Some(2),
    };
    let mut pool: StoragePoolUnit<FailingLeafVdev> = StoragePoolUnit::new(&configuration, vec![]);
    assert_eq!(pool.storage_class_count(), 4);
    assert!(matches!(pool.write_raw(Block(0)).1.start(), Some(Ok(()))));
    match pool.read_raw(Block(1), Block(0)).turn(None) {
        RawReadStep::Return(Ok(copies)) => assert!(copies.is_empty()),
        _ => panic!("there is no device"),
    }
    let mut op = pool.flush(1);
    assert!(matches!(flushed(&mut pool, &mut op, None), FlushStep::Return(Ok(()))));
}

#[test]
fn raw_read_collects_in_order() {
    let pool = pool();
    let mut op = pool.read_raw(Block(1), Block(2));
    let mut step = op.turn(None);
    let mut seen = Vec::new();
    let copies = loop {
        match step {
            RawReadStep::Read(request) => {
                assert_eq!(request.size, Block(1));
                assert_eq!(request.offset, Block(2));
                seen.push(request.place);
                let number = seen.len() as u8;
                step = op.turn(Some(Ok(vec![vec![number], vec![number; 2]])));
            }
            RawReadStep::Return(result) => break result.unwrap(),
        }
    };
    assert_eq!(seen, pool.places());
    assert_eq!(
        copies,
        vec![vec![1], vec![1; 2], vec![2], vec![2; 2], vec![3], vec![3; 2]]
    );
}

#[test]
fn raw_read_stops_at_the_first_error() {
    let pool = pool();
    let mut op = pool.read_raw(Block(1), Block(0));
    let _ = op.turn(None);
    let step = op.turn(Some(Err(VdevError::ReadError("a".to_string()))));
    assert!(matches!(step, RawReadStep::Return(Err(VdevError::ReadError(_)))));
}

#[test]
fn outcome_of_a_task() {
    assert_eq!(join_outcome(Ok(Ok(3))).unwrap(), 3);
    assert!(matches!(
        join_outcome::<u8>(Ok(Err(VdevError::ReadError(String::new())))),
        Err(VdevError::ReadError(_))
    ));
    assert!(matches!(
        join_outcome::<u8>(Err(TaskFailure::Cancelled)),
        Err(VdevError::TaskError(TaskFailure::Cancelled))
    ));
}
