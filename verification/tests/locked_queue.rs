use betree::bounded_locked_dashmap_future_queue::{
    BoundedFutureQueue, DrainPhase, Enqueue, EnqueuePhase, Flush, FlushPhase, WaitPhase,
};
use betree::step::{Step, Turn};

type Outcome = Option<Result<(), &'static str>>;

const A: (u8, u16, u64) = (0, 0, 7);
const B: (u8, u16, u64) = (0, 1, 7);

fn put(queue: &mut BoundedFutureQueue, who: u64, key: (u8, u16, u64), future: u64) {
    let mut op = Enqueue::new(who, key, future);
    let turn: Turn<&str> = queue.enqueue(&mut op, None);
    assert!(matches!(turn.step, Step::Return(Ok(()))));
    assert!(turn.notify);
    assert!(matches!(op.phase, EnqueuePhase::Done));
}

#[test]
fn enqueued_future_is_in_the_queue() {
    let mut queue = BoundedFutureQueue::new(2, 5);
    assert!(!queue.contains_key(A));
    put(&mut queue, 1, A, 10);
    assert!(queue.contains_key(A));
    assert!(!queue.contains_key(B));
    assert_eq!(queue.pending(), 1);
}

#[test]
fn wait_reports_the_result() {
    let mut queue = BoundedFutureQueue::new(2, 5);
    put(&mut queue, 1, A, 10);
    let mut op = queue.wait_async(A);
    assert!(!queue.contains_key(A));
    assert!(matches!(op.phase, WaitPhase::Waiting(10)));
    let turn = queue.wait(&mut op, None as Outcome);
    assert!(matches!(turn.step, Step::Await(10)));
    assert!(!turn.notify);
    assert_eq!(queue.pending(), 1);
    let turn = queue.wait(&mut op, Some(Err("broken")));
    assert!(matches!(turn.step, Step::Return(Err("broken"))));
    assert!(turn.notify);
    assert_eq!(queue.pending(), 0);
    assert!(matches!(op.phase, WaitPhase::Done));
}

#[test]
fn nothing_to_wait_for() {
    let mut queue = BoundedFutureQueue::new(2, 5);
    put(&mut queue, 1, A, 10);
    let mut op = queue.wait_async(B);
    let turn = queue.wait(&mut op, None as Outcome);
    assert!(matches!(turn.step, Step::Return(Ok(()))));
    assert!(!turn.notify);
    assert!(queue.contains_key(A));
    assert_eq!(queue.pending(), 1);
}

#[test]
fn second_future_of_a_key_comes_after_the_first() {
    let mut queue = BoundedFutureQueue::new(2, 5);
    put(&mut queue, 1, A, 10);
    let mut op = Enqueue::new(2, A, 11);
    let turn = queue.enqueue(&mut op, None as Outcome);
    assert!(matches!(turn.step, Step::Await(10)));
    // Others cannot enqueue meanwhile.
    let mut other = Enqueue::new(3, B, 12);
    let turn = queue.enqueue(&mut other, None as Outcome);
    assert!(matches!(turn.step, Step::Sleep));
    let turn = queue.enqueue(&mut op, Some(Ok(())) as Outcome);
    assert!(matches!(turn.step, Step::Return(Ok(()))));
    assert_eq!(queue.pending(), 1);
    let turn = queue.enqueue(&mut other, None as Outcome);
    assert!(matches!(turn.step, Step::Return(Ok(()))));
    assert_eq!(queue.pending(), 2);
    let op = queue.wait_async(A);
    assert!(matches!(op.phase, WaitPhase::Waiting(11)));
}

#[test]
fn enqueue_fails_with_the_earlier_future() {
    let mut queue = BoundedFutureQueue::new(2, 5);
    put(&mut queue, 1, A, 10);
    let mut op = Enqueue::new(2, A, 11);
    let turn = queue.enqueue(&mut op, None as Outcome);
    assert!(matches!(turn.step, Step::Await(10)));
    let turn = queue.enqueue(&mut op, Some(Err("broken")));
    assert!(matches!(turn.step, Step::Return(Err("broken"))));
    assert!(turn.notify);
    assert!(!queue.contains_key(A));
    assert_eq!(queue.pending(), 0);
    put(&mut queue, 3, A, 12);
}

#[test]
fn full_queue_makes_enqueue_sleep() {
    let mut queue = BoundedFutureQueue::new(0, 1);
    put(&mut queue, 1, A, 10);
    // One more than the hard limit is let in.
    put(&mut queue, 2, B, 11);
    let mut op = Enqueue::new(3, (1, 0, 0), 12);
    let turn = queue.enqueue(&mut op, None as Outcome);
    assert!(matches!(turn.step, Step::Sleep));
    assert!(matches!(op.phase, EnqueuePhase::Admitting));
    let turn = queue.enqueue(&mut op, None as Outcome);
    assert!(matches!(turn.step, Step::Sleep));
    let done = queue.mark_completed(A);
    assert_eq!(done.taken, Some(10));
    assert!(done.notify);
    assert_eq!(queue.pending(), 1);
    let turn = queue.enqueue(&mut op, None as Outcome);
    assert!(matches!(turn.step, Step::Return(Ok(()))));
    assert_eq!(queue.pending(), 2);
}

#[test]
fn completion_is_counted_even_if_the_future_was_taken() {
    let mut queue = BoundedFutureQueue::new(0, 5);
    put(&mut queue, 1, A, 10);
    let _op = queue.wait_async(A);
    let done = queue.mark_completed(A);
    assert_eq!(done.taken, None);
    assert!(done.notify);
    assert_eq!(queue.pending(), 0);
}

#[test]
fn flush_waits_until_nothing_is_pending() {
    let mut queue = BoundedFutureQueue::new(2, 5);
    put(&mut queue, 1, A, 10);
    let mut flush = Flush::new(2);
    let turn: Turn<&str> = queue.flush(&mut flush);
    assert!(matches!(turn.step, Step::Sleep));
    assert!(matches!(flush.phase, FlushPhase::Emptying));
    // No further futures can be enqueued, and a second flush waits too.
    let mut op = Enqueue::new(3, B, 11);
    let turn = queue.enqueue(&mut op, None as Outcome);
    assert!(matches!(turn.step, Step::Sleep));
    let mut second = Flush::new(4);
    let turn: Turn<&str> = queue.flush(&mut second);
    assert!(matches!(turn.step, Step::Sleep));
    assert!(matches!(second.phase, FlushPhase::Locking));
    let mut wait = queue.wait_async(A);
    let turn = queue.wait(&mut wait, Some(Ok(())) as Outcome);
    assert!(turn.notify);
    let turn: Turn<&str> = queue.flush(&mut flush);
    assert!(matches!(turn.step, Step::Return(Ok(()))));
    assert!(turn.notify);
    let turn = queue.enqueue(&mut op, None as Outcome);
    assert!(matches!(turn.step, Step::Return(Ok(()))));
}

#[test]
fn empty_queue_is_flushed_at_once() {
    let mut queue = BoundedFutureQueue::new(2, 5);
    let mut flush = Flush::new(1);
    let turn: Turn<&str> = queue.flush(&mut flush);
    assert!(matches!(turn.step, Step::Return(Ok(()))));
    assert!(!turn.notify);
}

#[test]
fn worker_respects_the_soft_limit() {
    let mut queue = BoundedFutureQueue::new(1, 5);
    put(&mut queue, 1, A, 10);
    let mut op = queue.help_if_necessary();
    assert_eq!(op.limit, 1);
    let turn = queue.drain_while_above_limit(&mut op, None as Outcome);
    assert!(matches!(turn.step, Step::Return(Ok(()))));

    put(&mut queue, 2, B, 11);
    let mut op = queue.help_if_necessary();
    let turn = queue.drain_while_above_limit(&mut op, None as Outcome);
    let taken = match turn.step {
        Step::Await(future) => future,
        _ => panic!("the queue holds more than the limit"),
    };
    assert!(taken == 10 || taken == 11);
    assert_eq!(queue.contains_key(A), taken != 10);
    assert_eq!(queue.contains_key(B), taken != 11);
    assert!(matches!(op.phase, DrainPhase::Waiting(_)));
    let turn = queue.drain_while_above_limit(&mut op, Some(Ok(())) as Outcome);
    assert!(matches!(turn.step, Step::Return(Ok(()))));
    assert!(turn.notify);
    assert_eq!(queue.pending(), 1);
}

#[test]
fn worker_stops_at_the_first_error() {
    let mut queue = BoundedFutureQueue::new(0, 5);
    put(&mut queue, 1, A, 10);
    put(&mut queue, 2, B, 11);
    let mut op = queue.help_if_necessary();
    let turn = queue.drain_while_above_limit(&mut op, None as Outcome);
    assert!(matches!(turn.step, Step::Await(_)));
    let turn = queue.drain_while_above_limit(&mut op, Some(Err("broken")));
    assert!(matches!(turn.step, Step::Return(Err("broken"))));
    assert_eq!(queue.pending(), 1);
}

#[test]
fn stored_keys_are_the_last_enqueued() {
    let mut queue = BoundedFutureQueue::new(0, 5);
    put(&mut queue, 1, A, 10);
    assert!(queue.contains_key(A));
    let mut wait = queue.wait_async(A);
    assert!(!queue.contains_key(A));
    let _ = queue.wait(&mut wait, Some(Ok(())) as Outcome);
    put(&mut queue, 2, A, 11);
    assert!(queue.contains_key(A));
    let _ = queue.mark_completed(A);
    assert!(!queue.contains_key(A));
    put(&mut queue, 3, A, 12);
    let mut worker = queue.help_if_necessary();
    let _ = queue.drain_while_above_limit(&mut worker, None as Outcome);
    assert!(!queue.contains_key(A));
}
