use betree::bounded_unshared_index_future_queue::{
    BoundedFutureQueue, Drain, DrainPhase, Enqueue, EnqueuePhase, Flush, FlushPhase, HelpStep,
    WaitPhase,
};
use betree::step::{Step, Turn};

type Outcome = Option<Result<(), &'static str>>;

const A: (u8, u16, u64) = (0, 0, 7);
const B: (u8, u16, u64) = (0, 1, 7);
const C: (u8, u16, u64) = (0, 1, 8);

fn put(queue: &mut BoundedFutureQueue, who: u64, key: (u8, u16, u64), future: u64) {
    let mut op = Enqueue::new(who, key, future);
    let turn: Turn<&str> = queue.enqueue(&mut op, None);
    assert!(matches!(turn.step, Step::Return(Ok(()))));
    assert!(matches!(op.phase, EnqueuePhase::Done));
}

#[test]
fn entries_are_counted() {
    let mut queue = BoundedFutureQueue::new(2, 5);
    assert_eq!(queue.len(), 0);
    put(&mut queue, 1, A, 10);
    put(&mut queue, 2, B, 11);
    assert_eq!(queue.len(), 2);
}

#[test]
fn waiting_ends_only_when_the_future_is_completed() {
    let mut queue = BoundedFutureQueue::new(2, 5);
    put(&mut queue, 1, A, 10);
    let mut op = queue.wait_async(A);
    let turn = queue.wait(&mut op, None as Outcome);
    assert!(matches!(turn.step, Step::Await(10)));
    assert!(matches!(op.phase, WaitPhase::Waiting(10)));
    assert_eq!(queue.len(), 1);
    // The future is not handed out twice, and nobody is told that it is done.
    let mut second = queue.wait_async(A);
    let turn = queue.wait(&mut second, None as Outcome);
    assert!(matches!(turn.step, Step::Sleep));
    assert!(matches!(second.phase, WaitPhase::Starting));
    let turn = queue.wait(&mut op, Some(Err("broken")));
    assert!(matches!(turn.step, Step::Return(Err("broken"))));
    assert!(turn.notify);
    assert!(matches!(op.phase, WaitPhase::Done));
    assert_eq!(queue.len(), 0);
    let turn = queue.wait(&mut second, None as Outcome);
    assert!(matches!(turn.step, Step::Return(Ok(()))));
}

#[test]
fn enqueue_does_not_replace_a_future_in_flight() {
    let mut queue = BoundedFutureQueue::new(2, 5);
    put(&mut queue, 1, A, 10);
    let mut wait = queue.wait_async(A);
    let _ = queue.wait(&mut wait, None as Outcome);
    let mut op = Enqueue::new(2, A, 11);
    let turn = queue.enqueue(&mut op, None as Outcome);
    assert!(matches!(turn.step, Step::Sleep));
    assert!(matches!(op.phase, EnqueuePhase::Locking));
    let turn = queue.wait(&mut wait, Some(Ok(())) as Outcome);
    assert!(turn.notify);
    let turn = queue.enqueue(&mut op, None as Outcome);
    assert!(matches!(turn.step, Step::Return(Ok(()))));
    // The flush runs the second future.
    let mut flush = Flush::new(3);
    let turn = queue.flush(&mut flush, None as Outcome);
    assert!(matches!(turn.step, Step::Await(11)));
    let turn = queue.flush(&mut flush, Some(Ok(())) as Outcome);
    assert!(matches!(turn.step, Step::Return(Ok(()))));
    assert_eq!(queue.len(), 0);
}

#[test]
fn late_worker_leaves_a_later_future_alone() {
    let mut queue = BoundedFutureQueue::new(2, 5);
    put(&mut queue, 1, A, 10);
    let mut wait = queue.wait_async(A);
    let _ = queue.wait(&mut wait, None as Outcome);
    let (done, _) = queue.mark_completed(A);
    assert!(done.notify);
    assert_eq!(done.taken, None);
    put(&mut queue, 2, A, 11);
    let turn = queue.wait(&mut wait, Some(Ok(())) as Outcome);
    assert!(matches!(turn.step, Step::Return(Ok(()))));
    assert_eq!(queue.len(), 1);
    let mut second = queue.wait_async(A);
    let turn = queue.wait(&mut second, None as Outcome);
    assert!(matches!(turn.step, Step::Await(11)));
}

#[test]
fn worker_without_entries_has_nothing_to_do() {
    let mut queue = BoundedFutureQueue::new(1, 2);
    put(&mut queue, 1, A, 10);
    put(&mut queue, 2, B, 11);
    let mut first = queue.mark_completed(C).1;
    let turn = queue.help(&mut first, None as Outcome);
    assert!(matches!(turn.step, HelpStep::Await(10)));
    let mut second = queue.wait_async(B);
    let _ = queue.wait(&mut second, None as Outcome);
    let mut third = queue.mark_completed(C).1;
    let turn = queue.help(&mut third, None as Outcome);
    assert!(matches!(turn.step, HelpStep::Retry));
    assert!(matches!(third.drain.phase, DrainPhase::Picking));
    queue.mark_completed(A);
    queue.mark_completed(B);
    assert_eq!(queue.len(), 0);
    let turn = queue.help(&mut third, None as Outcome);
    assert!(matches!(turn.step, HelpStep::Done));
    assert!(matches!(third.drain.phase, DrainPhase::Done));
}

#[test]
fn failed_help_ends_in_a_panic() {
    let mut queue = BoundedFutureQueue::new(0, 9);
    put(&mut queue, 1, A, 10);
    put(&mut queue, 2, B, 11);
    let (done, mut help) = queue.mark_completed(A);
    assert_eq!(done.taken, Some(10));
    let turn = queue.help(&mut help, None as Outcome);
    assert!(matches!(turn.step, HelpStep::Await(11)));
    let turn = queue.help(&mut help, Some(Err("broken")));
    assert!(matches!(turn.step, HelpStep::Panic));
    assert!(turn.notify);
    assert_eq!(queue.len(), 0);
}

#[test]
fn worker_has_a_limit_of_its_own() {
    let mut queue = BoundedFutureQueue::new(0, 9);
    put(&mut queue, 1, A, 10);
    put(&mut queue, 2, B, 11);
    let mut worker = Drain { limit: 1, phase: DrainPhase::Checking };
    let turn = queue.drain_while_above_limit(&mut worker, None as Outcome);
    assert!(matches!(turn.step, Step::Await(10)));
    let turn = queue.drain_while_above_limit(&mut worker, Some(Ok(())) as Outcome);
    assert!(matches!(turn.step, Step::Return(Ok(()))));
    assert_eq!(queue.len(), 1);
    let mut worker = Drain { limit: 0, phase: DrainPhase::Checking };
    let _ = queue.drain_while_above_limit(&mut worker, None as Outcome);
    let turn = queue.drain_while_above_limit(&mut worker, Some(Err("broken")));
    assert!(matches!(turn.step, Step::Return(Err("broken"))));
}

#[test]
fn no_entry_to_wait_for() {
    let mut queue = BoundedFutureQueue::new(2, 5);
    let mut op = queue.wait_async(A);
    let turn = queue.wait(&mut op, None as Outcome);
    assert!(matches!(turn.step, Step::Return(Ok(()))));
    assert_eq!(queue.len(), 0);
}

#[test]
fn same_key_waits_for_the_earlier_future() {
    let mut queue = BoundedFutureQueue::new(2, 5);
    put(&mut queue, 1, A, 10);
    let mut op = Enqueue::new(2, A, 11);
    let turn = queue.enqueue(&mut op, None as Outcome);
    assert!(matches!(turn.step, Step::Await(10)));
    assert!(matches!(op.phase, EnqueuePhase::Waiting(10)));
    let mut other = Enqueue::new(3, B, 12);
    let turn = queue.enqueue(&mut other, None as Outcome);
    assert!(matches!(turn.step, Step::Sleep));
    let turn = queue.enqueue(&mut op, Some(Ok(())) as Outcome);
    assert!(matches!(turn.step, Step::Return(Ok(()))));
    assert!(turn.notify);
    assert_eq!(queue.len(), 1);
    let mut wait = queue.wait_async(A);
    let turn = queue.wait(&mut wait, None as Outcome);
    assert!(matches!(turn.step, Step::Await(11)));
}

#[test]
fn error_of_the_earlier_future_is_passed_on() {
    let mut queue = BoundedFutureQueue::new(2, 5);
    put(&mut queue, 1, A, 10);
    let mut op = Enqueue::new(2, A, 11);
    let _ = queue.enqueue(&mut op, None as Outcome);
    let turn = queue.enqueue(&mut op, Some(Err("broken")));
    assert!(matches!(turn.step, Step::Return(Err("broken"))));
    assert!(turn.notify);
    assert_eq!(queue.len(), 0);
    put(&mut queue, 3, B, 12);
}

#[test]
fn whoever_fills_the_queue_has_to_help() {
    let mut queue = BoundedFutureQueue::new(0, 2);
    put(&mut queue, 1, A, 10);
    put(&mut queue, 2, B, 11);
    let mut op = Enqueue::new(3, C, 12);
    let turn = queue.enqueue(&mut op, None as Outcome);
    assert!(matches!(turn.step, Step::Await(10)));
    assert!(matches!(op.phase, EnqueuePhase::Draining(DrainPhase::Waiting(A, 10))));
    assert_eq!(queue.len(), 3);
    let turn = queue.enqueue(&mut op, Some(Ok(())) as Outcome);
    assert!(matches!(turn.step, Step::Return(Ok(()))));
    assert_eq!(queue.len(), 2);
}

#[test]
fn workers_look_at_one_entry_after_the_other() {
    let mut queue = BoundedFutureQueue::new(1, 5);
    put(&mut queue, 1, A, 10);
    put(&mut queue, 2, B, 11);
    put(&mut queue, 3, C, 12);
    // A is completed; three entries were there, two are left.
    let (done, mut worker) = queue.mark_completed(A);
    assert_eq!(done.taken, Some(10));
    assert!(done.notify);
    assert_eq!(worker.drain.limit, 1);
    assert_eq!(queue.len(), 2);
    let turn = queue.help(&mut worker, None as Outcome);
    assert!(matches!(turn.step, HelpStep::Await(11)));
    // The next worker looks at C.
    let (done, mut second) = queue.mark_completed(A);
    assert_eq!(done.taken, None);
    let turn = queue.help(&mut second, None as Outcome);
    assert!(matches!(turn.step, HelpStep::Await(12)));
    // For a third one both futures are taken.
    let (_, mut third) = queue.mark_completed(A);
    let turn = queue.help(&mut third, None as Outcome);
    assert!(matches!(turn.step, HelpStep::Retry));
    let turn = queue.help(&mut worker, Some(Ok(())) as Outcome);
    assert!(matches!(turn.step, HelpStep::Done));
    assert_eq!(queue.len(), 1);
    let turn = queue.help(&mut second, Some(Ok(())) as Outcome);
    assert!(matches!(turn.step, HelpStep::Done));
    assert_eq!(queue.len(), 0);
}

#[test]
fn flush_empties_the_queue() {
    let mut queue = BoundedFutureQueue::new(5, 5);
    put(&mut queue, 1, A, 10);
    put(&mut queue, 2, B, 11);
    let mut flush = Flush::new(3);
    let turn = queue.flush(&mut flush, None as Outcome);
    assert!(matches!(turn.step, Step::Await(10)));
    // No further futures can be enqueued.
    let mut op = Enqueue::new(4, C, 12);
    let turn = queue.enqueue(&mut op, None as Outcome);
    assert!(matches!(turn.step, Step::Sleep));
    let mut second = Flush::new(5);
    let turn = queue.flush(&mut second, None as Outcome);
    assert!(matches!(turn.step, Step::Sleep));
    let turn = queue.flush(&mut flush, Some(Ok(())) as Outcome);
    assert!(matches!(turn.step, Step::Await(11)));
    assert!(turn.notify);
    let turn = queue.flush(&mut flush, Some(Ok(())) as Outcome);
    assert!(matches!(turn.step, Step::Return(Ok(()))));
    assert!(turn.notify);
    assert!(matches!(flush.phase, FlushPhase::Done));
    assert_eq!(queue.len(), 0);
    let turn = queue.enqueue(&mut op, None as Outcome);
    assert!(matches!(turn.step, Step::Return(Ok(()))));
}

#[test]
fn flush_stops_at_the_first_error() {
    let mut queue = BoundedFutureQueue::new(5, 5);
    put(&mut queue, 1, A, 10);
    put(&mut queue, 2, B, 11);
    let mut flush = Flush::new(3);
    let _ = queue.flush(&mut flush, None as Outcome);
    let turn = queue.flush(&mut flush, Some(Err("broken")));
    assert!(matches!(turn.step, Step::Return(Err("broken"))));
    assert!(turn.notify);
    assert_eq!(queue.len(), 1);
    put(&mut queue, 4, C, 12);
}
