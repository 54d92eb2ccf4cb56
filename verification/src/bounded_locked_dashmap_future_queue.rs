//! This module provides a bounded queue of futures which are identified by a
//! key, and which counts the futures that are not yet completed.

use crate::dash_map::{dash_contains_key, dash_first_key, dash_insert, dash_len, dash_new, dash_remove};
use crate::step::{Completion, Key, Step, Turn};
use dashmap::DashMap;
use vstd::prelude::*;

verus! {

/// A bounded queue of futures which are identified by a key.
pub struct BoundedFutureQueue {
    futures: DashMap<(u8, u16, u64), u64>,
    soft_limit: u64,
    hard_limit: u64,
    flush_lock: Option<u64>,
    pending: u64,
}

/// The state of a queue.
#[verifier::ext_equal]
pub struct QueueView {
    /// The futures that nobody awaits yet.
    pub futures: Map<Key, u64>,
    /// From how many futures on workers are asked to help.
    pub soft_limit: u64,
    /// From how many pending futures on no further one is admitted.
    pub hard_limit: u64,
    /// The operation that keeps others from adding futures.
    pub flush_lock: Option<u64>,
    /// How many futures were admitted and are not completed.
    pub pending: int,
}

impl QueueView {
    /// The queue without the future of `key`.
    pub open spec fn take(self, key: Key) -> QueueView {
        QueueView { futures: self.futures.remove(key), ..self }
    }

    /// The queue after one future was completed.
    pub open spec fn settle(self) -> QueueView {
        QueueView { pending: self.pending - 1, ..self }
    }

    /// The future of `key`, if the queue holds one.
    pub open spec fn stored(self, key: Key) -> Option<u64> {
        if self.futures.contains_key(key) {
            Some(self.futures[key])
        } else {
            None
        }
    }

    /// The queue after the task of `key` was reported to be completed.
    pub open spec fn completed(self, key: Key) -> QueueView {
        self.take(key).settle()
    }

    /// What is returned when the task of `key` is reported to be completed.
    pub open spec fn completion(self, key: Key) -> Completion {
        Completion { taken: self.stored(key), notify: true }
    }

    /// The queue with one more future.
    pub open spec fn with_future(self, key: Key, future: u64) -> QueueView {
        QueueView {
            futures: self.futures.insert(key, future),
            pending: self.pending + 1,
            ..self
        }
    }

    /// The queue with the flush lock in the hands of `who`.
    pub open spec fn lock(self, who: u64) -> QueueView {
        QueueView { flush_lock: Some(who), ..self }
    }

    /// The queue with a free flush lock.
    pub open spec fn unlock(self) -> QueueView {
        QueueView { flush_lock: None, ..self }
    }
}

/// How far an [`Enqueue`] has come.
pub enum EnqueuePhase {
    /// It has no lock yet.
    Locking,
    /// It holds the lock and awaits this earlier future of its key.
    Waiting(u64),
    /// It holds the lock and waits for room.
    Admitting,
    /// It is over.
    Done,
}

/// A future on its way into the queue.
pub struct Enqueue {
    /// Names the operation; no two unfinished operations share it.
    pub who: u64,
    /// The key of the future.
    pub key: Key,
    /// The future.
    pub future: u64,
    /// How far the operation has come.
    pub phase: EnqueuePhase,
}

/// How far a [`Wait`] has come.
pub enum WaitPhase {
    /// This future is taken and not completed.
    Waiting(u64),
    /// There is nothing to wait for.
    Ready,
    /// It is over.
    Done,
}

/// Somebody who waits for the future of a key.
pub struct Wait {
    /// How far the operation has come.
    pub phase: WaitPhase,
}

/// How far a [`Flush`] has come.
pub enum FlushPhase {
    /// It has no lock yet.
    Locking,
    /// It holds the lock and waits for the last future to be completed.
    Emptying,
    /// It is over.
    Done,
}

/// Somebody who waits until nothing is pending.
pub struct Flush {
    /// Names the operation; no two unfinished operations share it.
    pub who: u64,
    /// How far the operation has come.
    pub phase: FlushPhase,
}

/// How far a [`Drain`] has come.
pub enum DrainPhase {
    /// It looks whether there is too much in the queue.
    Checking,
    /// It awaits this future.
    Waiting(u64),
    /// It is over.
    Done,
}

/// A worker that completes futures while there are more than `limit`.
pub struct Drain {
    /// How many futures may stay.
    pub limit: u64,
    /// How far the operation has come.
    pub phase: DrainPhase,
}

/// The queue, the phase of an operation and the step it asks for, at the end
/// of a turn.
pub struct Outcome<P, E> {
    pub queue: QueueView,
    pub phase: P,
    pub turn: Turn<E>,
}

/// The end of a turn in which an operation that holds the lock tries to add
/// its future: it goes in, and the lock becomes free, unless more than
/// `hard_limit` futures are pending.
pub open spec fn admission<E>(q: QueueView, op: Enqueue, notify: bool) -> Outcome<EnqueuePhase, E> {
    if q.pending <= q.hard_limit {
        Outcome {
            queue: q.with_future(op.key, op.future).unlock(),
            phase: EnqueuePhase::Done,
            turn: Turn { step: Step::Return(Ok(())), notify: true },
        }
    } else {
        Outcome { queue: q, phase: EnqueuePhase::Admitting, turn: Turn { step: Step::Sleep, notify } }
    }
}

/// A turn of an [`Enqueue`]: take the lock, wait for an earlier future with
/// the same key, and add the new one when there is room. The result of the
/// earlier future is passed on if it is an error.
pub open spec fn enqueue_turn<E>(
    q: QueueView,
    op: Enqueue,
    outcome: Option<Result<(), E>>,
) -> Outcome<EnqueuePhase, E> {
    match op.phase {
        EnqueuePhase::Locking => if q.flush_lock is Some {
            Outcome { queue: q, phase: op.phase, turn: Turn { step: Step::Sleep, notify: false } }
        } else if q.futures.contains_key(op.key) {
            Outcome {
                queue: q.lock(op.who).take(op.key),
                phase: EnqueuePhase::Waiting(q.futures[op.key]),
                turn: Turn { step: Step::Await(q.futures[op.key]), notify: false },
            }
        } else {
            admission(q.lock(op.who), op, false)
        },
        EnqueuePhase::Waiting(_) => match outcome {
            Some(Err(e)) => Outcome {
                queue: q.settle().unlock(),
                phase: EnqueuePhase::Done,
                turn: Turn { step: Step::Return(Err(e)), notify: true },
            },
            _ => admission(q.settle(), op, true),
        },
        _ => admission(q, op, false),
    }
}

/// A turn of a [`Wait`].
pub open spec fn wait_turn<E>(q: QueueView, op: Wait, outcome: Option<Result<(), E>>) -> Outcome<
    WaitPhase,
    E,
> {
    match (op.phase, outcome) {
        (WaitPhase::Waiting(future), None) => Outcome {
            queue: q,
            phase: op.phase,
            turn: Turn { step: Step::Await(future), notify: false },
        },
        (WaitPhase::Waiting(_), Some(result)) => Outcome {
            queue: q.settle(),
            phase: WaitPhase::Done,
            turn: Turn { step: Step::Return(result), notify: true },
        },
        _ => Outcome {
            queue: q,
            phase: WaitPhase::Done,
            turn: Turn { step: Step::Return(Ok(())), notify: false },
        },
    }
}

/// A turn of a [`Flush`]: take the lock and keep it until nothing is pending.
pub open spec fn flush_turn<E>(q: QueueView, op: Flush) -> Outcome<FlushPhase, E> {
    if op.phase is Locking && q.flush_lock is Some {
        Outcome { queue: q, phase: op.phase, turn: Turn { step: Step::Sleep, notify: false } }
    } else if q.pending == 0 {
        Outcome {
            queue: q.unlock(),
            phase: FlushPhase::Done,
            turn: Turn { step: Step::Return(Ok(())), notify: op.phase is Emptying },
        }
    } else {
        Outcome {
            queue: q.lock(op.who),
            phase: FlushPhase::Emptying,
            turn: Turn { step: Step::Sleep, notify: false },
        }
    }
}

/// The end of a turn in which a worker looks whether it has to help: it takes
/// some future out of the queue if there are more than its limit.
pub open spec fn checked<E>(q: QueueView, op: Drain, notify: bool, end: Outcome<DrainPhase, E>) -> bool {
    if q.futures.dom().len() > op.limit {
        exists|key: Key|
            {
                &&& #[trigger] q.futures.contains_key(key)
                &&& end == Outcome {
                    queue: q.take(key),
                    phase: DrainPhase::Waiting(q.futures[key]),
                    turn: Turn { step: Step::<E>::Await(q.futures[key]), notify },
                }
            }
    } else {
        end == Outcome {
            queue: q,
            phase: DrainPhase::Done,
            turn: Turn { step: Step::<E>::Return(Ok(())), notify },
        }
    }
}

/// What a turn of a [`Drain`] may lead to. The first error ends it.
pub open spec fn drain_turn<E>(
    q: QueueView,
    op: Drain,
    outcome: Option<Result<(), E>>,
    end: Outcome<DrainPhase, E>,
) -> bool {
    match (op.phase, outcome) {
        (DrainPhase::Waiting(_), Some(Err(e))) => end == Outcome {
            queue: q.settle(),
            phase: DrainPhase::Done,
            turn: Turn { step: Step::Return(Err(e)), notify: true },
        },
        (DrainPhase::Waiting(_), _) => checked(q.settle(), op, true, end),
        _ => checked(q, op, false, end),
    }
}

impl Enqueue {
    /// A future that is to be added to a queue.
    pub fn new(who: u64, key: Key, future: u64) -> (op: Enqueue)
        ensures
            op == (Enqueue { who, key, future, phase: EnqueuePhase::Locking }),
    {
        Enqueue { who, key, future, phase: EnqueuePhase::Locking }
    }

    /// The operation has the lock when its phase says so.
    pub open spec fn wf(&self, q: QueueView) -> bool {
        self.phase is Waiting || self.phase is Admitting ==> q.flush_lock == Some(self.who)
    }

    /// The next turn tries to add the future, and no future is completed in it.
    pub open spec fn arrives(&self, q: QueueView) -> bool {
        ||| self.phase is Admitting
        ||| self.phase is Locking && q.flush_lock is None && !q.futures.contains_key(self.key)
    }
}

impl Flush {
    /// A flush that has not begun.
    pub fn new(who: u64) -> (op: Flush)
        ensures
            op == (Flush { who, phase: FlushPhase::Locking }),
    {
        Flush { who, phase: FlushPhase::Locking }
    }

    /// The operation has the lock when its phase says so.
    pub open spec fn wf(&self, q: QueueView) -> bool {
        self.phase is Emptying ==> q.flush_lock == Some(self.who)
    }
}

impl BoundedFutureQueue {
    /// The state of the queue.
    pub closed spec fn view(&self) -> QueueView {
        QueueView {
            futures: crate::dash_map::dash_entries(self.futures),
            soft_limit: self.soft_limit,
            hard_limit: self.hard_limit,
            flush_lock: self.flush_lock,
            pending: self.pending as int,
        }
    }

    /// The queue holds finitely many futures.
    pub open spec fn inv(&self) -> bool {
        &&& self@.futures.dom().finite()
        &&& 0 <= self@.pending <= u64::MAX
    }

    /// Creates a new queue with the given limits.
    pub fn new(soft_limit: usize, hard_limit: usize) -> (queue: Self)
        ensures
            queue.inv(),
            queue@ == (QueueView {
                futures: Map::empty(),
                soft_limit: soft_limit as u64,
                hard_limit: hard_limit as u64,
                flush_lock: None,
                pending: 0,
            }),
    {
        BoundedFutureQueue {
            futures: dash_new(),
            soft_limit: soft_limit as u64,
            hard_limit: hard_limit as u64,
            flush_lock: None,
            pending: 0,
        }
    }

    /// How many futures were admitted and are not completed.
    pub fn pending(&self) -> (pending: u64)
        ensures
            pending == self@.pending,
    {
        self.pending
    }

    /// Gives an operation that enqueues a future its next turn. It sleeps
    /// while the queue is full.
    pub fn enqueue<E>(&mut self, op: &mut Enqueue, outcome: Option<Result<(), E>>) -> (turn: Turn<E>)
        requires
            old(self).inv(),
            old(op).wf(old(self)@),
            !(old(op).phase is Done),
            outcome is Some <==> old(op).phase is Waiting,
            old(op).phase is Waiting ==> old(self)@.pending > 0,
            old(op).arrives(old(self)@) && old(self)@.pending <= old(self)@.hard_limit
                ==> old(self)@.pending < u64::MAX,
        ensures
            final(self).inv(),
            final(op).wf(final(self)@),
            final(op).who == old(op).who,
            final(op).key == old(op).key,
            final(op).future == old(op).future,
            (Outcome { queue: final(self)@, phase: final(op).phase, turn }) == enqueue_turn(
                old(self)@,
                *old(op),
                outcome,
            ),
    {
        let mut notify: bool = false;
        match op.phase {
            EnqueuePhase::Locking => {
                if self.flush_lock.is_some() {
                    return Turn { step: Step::Sleep, notify: false };
                }
                self.flush_lock = Some(op.who);
                match dash_remove(&mut self.futures, op.key) {
                    Some((_key, future)) => {
                        op.phase = EnqueuePhase::Waiting(future);
                        return Turn { step: Step::Await(future), notify: false };
                    },
                    None => {
                        assert(self@ =~= old(self)@.lock(op.who));
                    },
                }
            },
            EnqueuePhase::Waiting(_) => {
                self.pending = self.pending - 1;
                notify = true;
                if let Some(Err(e)) = outcome {
                    self.flush_lock = None;
                    op.phase = EnqueuePhase::Done;
                    return Turn { step: Step::Return(Err(e)), notify: true };
                }
            },
            _ => {},
        }
        if self.pending <= self.hard_limit {
            self.pending = self.pending + 1;
            let _ = dash_insert(&mut self.futures, op.key, op.future);
            self.flush_lock = None;
            op.phase = EnqueuePhase::Done;
            Turn { step: Step::Return(Ok(())), notify: true }
        } else {
            op.phase = EnqueuePhase::Admitting;
            Turn { step: Step::Sleep, notify }
        }
    }

    /// Takes the future of a key out, if it is there, and counts it as
    /// completed in any case: somebody else may have taken it before.
    fn remove_if_present(&mut self, key: Key) -> (taken: Option<u64>)
        requires
            old(self).inv(),
            old(self)@.pending > 0,
        ensures
            final(self).inv(),
            final(self)@ == old(self)@.completed(key),
            taken == old(self)@.stored(key),
    {
        let entry: Option<(Key, u64)> = dash_remove(&mut self.futures, key);
        self.pending = self.pending - 1;
        match entry {
            Some((_key, future)) => Some(future),
            None => None,
        }
    }

    /// Returns false if the queue does not contain `key`.
    pub fn contains_key(&self, key: Key) -> (r: bool)
        ensures
            r == self@.futures.contains_key(key),
    {
        dash_contains_key(&self.futures, key)
    }

    /// Marks a task as completed. The intention is that by removing finished
    /// tasks as soon as possible, the queue will contain mostly actual work.
    pub fn mark_completed(&mut self, key: Key) -> (done: Completion)
        requires
            old(self).inv(),
            old(self)@.pending > 0,
        ensures
            final(self).inv(),
            final(self)@ == old(self)@.completed(key),
            done == old(self)@.completion(key),
            done.notify,
    {
        let taken: Option<u64> = self.remove_if_present(key);
        Completion { taken, notify: true }
    }

    /// A worker that completes futures while there are more than the soft
    /// limit.
    pub fn help_if_necessary(&self) -> (op: Drain)
        ensures
            op == (Drain { limit: self@.soft_limit, phase: DrainPhase::Checking }),
    {
        Drain { limit: self.soft_limit, phase: DrainPhase::Checking }
    }

    /// Takes some future out of the queue.
    fn remove_arbitrary_future(&mut self) -> (future: Option<u64>)
        requires
            old(self).inv(),
        ensures
            final(self).inv(),
            match future {
                Some(f) => exists|key: Key|
                    {
                        &&& #[trigger] old(self)@.futures.contains_key(key)
                        &&& f == old(self)@.futures[key]
                        &&& final(self)@ == old(self)@.take(key)
                    },
                None => old(self)@.futures == Map::<Key, u64>::empty() && final(self)@ == old(
                    self,
                )@,
            },
    {
        match dash_first_key(&self.futures) {
            Some(key) => {
                assert(old(self)@.futures.contains_key(key));
                let taken = dash_remove(&mut self.futures, key);
                assert(self@ == old(self)@.take(key));
                match taken {
                    Some((_key, future)) => Some(future),
                    None => None,
                }
            },
            None => None,
        }
    }

    /// Begins to wait for the future of `key`: it is taken out of the queue.
    pub fn wait_async(&mut self, key: Key) -> (op: Wait)
        requires
            old(self).inv(),
        ensures
            final(self).inv(),
            final(self)@ == old(self)@.take(key),
            op.phase == if old(self)@.futures.contains_key(key) {
                WaitPhase::Waiting(old(self)@.futures[key])
            } else {
                WaitPhase::Ready
            },
    {
        match dash_remove(&mut self.futures, key) {
            Some((_key, future)) => Wait { phase: WaitPhase::Waiting(future) },
            None => Wait { phase: WaitPhase::Ready },
        }
    }

    /// Gives somebody who waits the next turn.
    pub fn wait<E>(&mut self, op: &mut Wait, outcome: Option<Result<(), E>>) -> (turn: Turn<E>)
        requires
            old(self).inv(),
            !(old(op).phase is Done),
            outcome is Some ==> old(op).phase is Waiting && old(self)@.pending > 0,
        ensures
            final(self).inv(),
            (Outcome { queue: final(self)@, phase: final(op).phase, turn }) == wait_turn(
                old(self)@,
                *old(op),
                outcome,
            ),
    {
        match op.phase {
            WaitPhase::Waiting(future) => match outcome {
                Some(result) => {
                    self.pending = self.pending - 1;
                    op.phase = WaitPhase::Done;
                    Turn { step: Step::Return(result), notify: true }
                },
                None => Turn { step: Step::Await(future), notify: false },
            },
            _ => {
                op.phase = WaitPhase::Done;
                Turn { step: Step::Return(Ok(())), notify: false }
            },
        }
    }

    /// Gives somebody who flushes the queue the next turn.
    pub fn flush<E>(&mut self, op: &mut Flush) -> (turn: Turn<E>)
        requires
            old(self).inv(),
            old(op).wf(old(self)@),
            !(old(op).phase is Done),
        ensures
            final(self).inv(),
            final(op).wf(final(self)@),
            final(op).who == old(op).who,
            (Outcome { queue: final(self)@, phase: final(op).phase, turn }) == flush_turn::<E>(
                old(self)@,
                *old(op),
            ),
    {
        let mut notify: bool = true;
        if let FlushPhase::Locking = op.phase {
            if self.flush_lock.is_some() {
                return Turn { step: Step::Sleep, notify: false };
            }
            self.flush_lock = Some(op.who);
            notify = false;
        }
        if self.pending == 0 {
            self.flush_lock = None;
            op.phase = FlushPhase::Done;
            Turn { step: Step::Return(Ok(())), notify }
        } else {
            op.phase = FlushPhase::Emptying;
            Turn { step: Step::Sleep, notify: false }
        }
    }

    /// Gives a worker that helps to empty the queue the next turn.
    pub fn drain_while_above_limit<E>(
        &mut self,
        op: &mut Drain,
        outcome: Option<Result<(), E>>,
    ) -> (turn: Turn<E>)
        requires
            old(self).inv(),
            !(old(op).phase is Done),
            outcome is Some <==> old(op).phase is Waiting,
            old(op).phase is Waiting ==> old(self)@.pending > 0,
        ensures
            final(self).inv(),
            final(op).limit == old(op).limit,
            drain_turn(
                old(self)@,
                *old(op),
                outcome,
                Outcome { queue: final(self)@, phase: final(op).phase, turn },
            ),
    {
        let mut notify: bool = false;
        if let DrainPhase::Waiting(_) = op.phase {
            self.pending = self.pending - 1;
            notify = true;
            if let Some(Err(e)) = outcome {
                op.phase = DrainPhase::Done;
                return Turn { step: Step::Return(Err(e)), notify: true };
            }
        }
        let ghost now = self@;
        if dash_len(&self.futures) as u64 > op.limit {
            match self.remove_arbitrary_future() {
                Some(future) => {
                    op.phase = DrainPhase::Waiting(future);
                    Turn { step: Step::Await(future), notify }
                },
                None => {
                    assert(now.futures.dom().len() == 0);
                    op.phase = DrainPhase::Done;
                    Turn { step: Step::Return(Ok(())), notify }
                },
            }
        } else {
            op.phase = DrainPhase::Done;
            Turn { step: Step::Return(Ok(())), notify }
        }
    }
}

/// While a flush holds the lock, an operation that wants to add a future only
/// sleeps, and the queue stays as it is.
pub proof fn law_no_enqueue_during_flush<E>(
    q: QueueView,
    flush: Flush,
    op: Enqueue,
    outcome: Option<Result<(), E>>,
)
    requires
        flush.phase is Emptying,
        flush.wf(q),
        op.wf(q),
        op.who != flush.who,
        !(op.phase is Done),
    ensures
        enqueue_turn(q, op, outcome) == (Outcome {
            queue: q,
            phase: op.phase,
            turn: Turn { step: Step::<E>::Sleep, notify: false },
        }),
{
}

/// A flush gives the lock back only in the turn in which it returns, and it
/// returns only when nothing is pending.
pub proof fn law_flush_returns_when_nothing_is_pending<E>(q: QueueView, flush: Flush)
    requires
        flush.wf(q),
        !(flush.phase is Done),
    ensures
        flush_turn::<E>(q, flush).turn.step is Return ==> q.pending == 0 && flush_turn::<E>(
            q,
            flush,
        ).queue == q.unlock(),
        flush.phase is Emptying && !(flush_turn::<E>(q, flush).turn.step is Return) ==> flush_turn::<
            E,
        >(q, flush).queue == q,
{
}

/// Workers and those who wait add no future, and they leave the lock alone.
pub proof fn law_only_enqueue_adds_futures<E>(
    q: QueueView,
    key: Key,
    wait: Wait,
    drain: Drain,
    outcome: Option<Result<(), E>>,
    end: Outcome<DrainPhase, E>,
)
    requires
        drain_turn(q, drain, outcome, end),
    ensures
        q.take(key).futures.submap_of(q.futures),
        wait_turn(q, wait, outcome).queue.futures == q.futures,
        wait_turn(q, wait, outcome).queue.flush_lock == q.flush_lock,
        end.queue.futures.submap_of(q.futures),
        end.queue.flush_lock == q.flush_lock,
{
}

/// Whoever waits for a future that is in the queue is asked to await exactly
/// that future, and is told exactly its result.
pub proof fn law_wait_reports_the_result<E>(
    begun: QueueView,
    now: QueueView,
    key: Key,
    op: Wait,
    result: Result<(), E>,
)
    requires
        begun.futures.contains_key(key),
        op.phase == WaitPhase::Waiting(begun.futures[key]),
    ensures
        wait_turn(now, op, None::<Result<(), E>>).turn.step == Step::<E>::Await(begun.futures[key]),
        wait_turn(now, op, None::<Result<(), E>>).phase == op.phase,
        wait_turn(now, op, Some(result)).turn.step == Step::Return(result),
{
}

/// An operation that enqueues a future returns an error only if an earlier
/// future with the same key failed, and then it adds nothing.
pub proof fn law_enqueue_fails_with_the_earlier_future<E>(
    q: QueueView,
    op: Enqueue,
    outcome: Option<Result<(), E>>,
    e: E,
)
    requires
        op.wf(q),
        !(op.phase is Done),
        outcome is Some <==> op.phase is Waiting,
        enqueue_turn(q, op, outcome).turn.step == Step::<E>::Return(Err(e)),
    ensures
        op.phase is Waiting,
        outcome == Some(Result::<(), E>::Err(e)),
        enqueue_turn(q, op, outcome).queue.futures == q.futures,
{
}

/// An operation that enqueued its future returns with the future in the queue.
pub proof fn law_enqueued_future_is_in_the_queue<E>(
    q: QueueView,
    op: Enqueue,
    outcome: Option<Result<(), E>>,
)
    requires
        op.wf(q),
        !(op.phase is Done),
        outcome is Some <==> op.phase is Waiting,
        enqueue_turn(q, op, outcome).turn.step == Step::<E>::Return(Ok(())),
    ensures
        enqueue_turn(q, op, outcome).queue.futures.contains_key(op.key),
        enqueue_turn(q, op, outcome).queue.futures[op.key] == op.future,
        enqueue_turn(q, op, outcome).queue.flush_lock is None,
{
}

/// At most one future more than the hard limit is pending at any time.
pub proof fn law_pending_is_bounded<E>(
    q: QueueView,
    key: Key,
    enqueue: Enqueue,
    wait: Wait,
    flush: Flush,
    drain: Drain,
    outcome: Option<Result<(), E>>,
    end: Outcome<DrainPhase, E>,
)
    requires
        q.pending <= q.hard_limit + 1,
        drain_turn(q, drain, outcome, end),
    ensures
        enqueue_turn(q, enqueue, outcome).queue.pending <= q.hard_limit + 1,
        wait_turn(q, wait, outcome).queue.pending <= q.hard_limit + 1,
        flush_turn::<E>(q, flush).queue.pending <= q.hard_limit + 1,
        q.completed(key).pending <= q.hard_limit + 1,
        end.queue.pending <= q.hard_limit + 1,
{
}

/// A worker that returns without an error leaves at most as many futures as
/// its limit.
pub proof fn law_drain_respects_the_limit<E>(
    q: QueueView,
    op: Drain,
    outcome: Option<Result<(), E>>,
    end: Outcome<DrainPhase, E>,
)
    requires
        drain_turn(q, op, outcome, end),
        end.turn.step == Step::<E>::Return(Ok(())),
    ensures
        end.queue.futures.dom().len() <= op.limit,
        end.queue.futures == q.futures,
{
}

/// How many futures an operation has taken and not seen completed.
pub open spec fn taken_by_enqueue(phase: EnqueuePhase) -> int {
    if phase is Waiting {
        1
    } else {
        0
    }
}

/// How many futures an operation has taken and not seen completed.
pub open spec fn taken_by_wait(phase: WaitPhase) -> int {
    if phase is Waiting {
        1
    } else {
        0
    }
}

/// How many futures an operation has taken and not seen completed.
pub open spec fn taken_by_drain(phase: DrainPhase) -> int {
    if phase is Waiting {
        1
    } else {
        0
    }
}

/// How many pending futures are not in the queue.
pub open spec fn outside(q: QueueView) -> int {
    q.pending - q.futures.dom().len()
}

/// Every pending future is in the queue or in the hands of one operation: what
/// a turn changes in the number of pending futures that are not in the queue,
/// it changes in the number that its operation has taken.
pub proof fn law_pending_futures_are_accounted_for<E>(
    q: QueueView,
    key: Key,
    enqueue: Enqueue,
    wait: Wait,
    flush: Flush,
    drain: Drain,
    outcome: Option<Result<(), E>>,
    end: Outcome<DrainPhase, E>,
)
    requires
        q.futures.dom().finite(),
        drain_turn(q, drain, outcome, end),
        !(drain.phase is Done),
        outcome is Some <==> drain.phase is Waiting,
        outcome is Some <==> wait.phase is Waiting,
        outcome is Some <==> enqueue.phase is Waiting,
        !(enqueue.phase is Locking) ==> !q.futures.contains_key(enqueue.key),
    ensures
        outside(q.take(key)) - outside(q) == if q.futures.contains_key(key) {
            1int
        } else {
            0
        },
        q.futures.contains_key(key) ==> outside(q.completed(key)) == outside(q),
        outside(enqueue_turn(q, enqueue, outcome).queue) - outside(q) == taken_by_enqueue(
            enqueue_turn(q, enqueue, outcome).phase,
        ) - taken_by_enqueue(enqueue.phase),
        outside(wait_turn(q, wait, outcome).queue) - outside(q) == taken_by_wait(
            wait_turn(q, wait, outcome).phase,
        ) - taken_by_wait(wait.phase),
        outside(flush_turn::<E>(q, flush).queue) == outside(q),
        outside(end.queue) - outside(q) == taken_by_drain(end.phase) - taken_by_drain(drain.phase),
{
}

/// As long as the pending futures that are not in the queue are those that
/// operations have taken, whoever completes one of them finds it pending.
pub proof fn law_taken_futures_are_pending(q: QueueView, taken: int)
    requires
        q.futures.dom().finite(),
        outside(q) == taken,
        taken >= 1,
    ensures
        q.pending > 0,
{
}

/// While an operation holds the lock and has cleared its key, nobody else puts
/// a future under that key.
pub proof fn law_cleared_key_stays_free<E>(
    q: QueueView,
    op: Enqueue,
    other: Enqueue,
    wait: Wait,
    flush: Flush,
    drain: Drain,
    outcome: Option<Result<(), E>>,
    end: Outcome<DrainPhase, E>,
)
    requires
        op.phase is Waiting || op.phase is Admitting,
        op.wf(q),
        !q.futures.contains_key(op.key),
        other.who != op.who,
        other.wf(q),
        !(other.phase is Done),
        flush.who != op.who,
        flush.wf(q),
        !(flush.phase is Done),
        drain_turn(q, drain, outcome, end),
    ensures
        enqueue_turn(q, other, outcome).queue == q,
        flush_turn::<E>(q, flush).queue == q,
        op.wf(wait_turn(q, wait, outcome).queue),
        !wait_turn(q, wait, outcome).queue.futures.contains_key(op.key),
        op.wf(end.queue),
        !end.queue.futures.contains_key(op.key),
        enqueue_turn(q, op, None::<Result<(), E>>).turn.step is Sleep ==> !enqueue_turn(
            q,
            op,
            None::<Result<(), E>>,
        ).queue.futures.contains_key(op.key),
{
}

/// No wakeup is missed: a turn that frees the lock or completes a future says
/// that sleeping operations have to be woken.
pub proof fn law_wakeups_are_announced<E>(
    q: QueueView,
    key: Key,
    enqueue: Enqueue,
    wait: Wait,
    flush: Flush,
    drain: Drain,
    outcome: Option<Result<(), E>>,
    end: Outcome<DrainPhase, E>,
)
    requires
        drain_turn(q, drain, outcome, end),
        enqueue.phase is Waiting || outcome is None,
        drain.phase is Waiting || outcome is None,
        !(flush.phase is Done),
        flush.wf(q),
    ensures
        ({
            let t = enqueue_turn(q, enqueue, outcome);
            (q.flush_lock is Some && t.queue.flush_lock is None) || t.queue.pending < q.pending
                ==> t.turn.notify
        }),
        ({
            let t = wait_turn(q, wait, outcome);
            (q.flush_lock is Some && t.queue.flush_lock is None) || t.queue.pending < q.pending
                ==> t.turn.notify
        }),
        ({
            let t = flush_turn::<E>(q, flush);
            (q.flush_lock is Some && t.queue.flush_lock is None) || t.queue.pending < q.pending
                ==> t.turn.notify
        }),
        (q.flush_lock is Some && end.queue.flush_lock is None) || end.queue.pending < q.pending
            ==> end.turn.notify,
        q.completed(key).flush_lock == q.flush_lock,
        q.completed(key).pending < q.pending ==> q.completion(key).notify,
{
}

/// An operation that sleeps would sleep again as long as the lock stays taken
/// and no future is completed.
pub proof fn law_sleepers_may_sleep_on<E>(
    q: QueueView,
    later: QueueView,
    enqueue: Enqueue,
    flush: Flush,
)
    requires
        !(enqueue.phase is Waiting),
        enqueue_turn(q, enqueue, None::<Result<(), E>>).turn.step is Sleep,
        flush_turn::<E>(q, flush).turn.step is Sleep,
        later.hard_limit == q.hard_limit,
        q.pending >= 0,
        later.pending >= q.pending,
        q.flush_lock is Some ==> later.flush_lock is Some,
    ensures
        enqueue_turn(later, enqueue_after(q, enqueue), None::<Result<(), E>>).turn.step is Sleep,
        flush_turn::<E>(later, flush_after(q, flush)).turn.step is Sleep,
{
}

/// An operation after a turn without a result.
pub open spec fn enqueue_after(q: QueueView, op: Enqueue) -> Enqueue {
    Enqueue { phase: enqueue_turn(q, op, None::<Result<(), ()>>).phase, ..op }
}

/// An operation after a turn.
pub open spec fn flush_after(q: QueueView, op: Flush) -> Flush {
    Flush { phase: flush_turn::<()>(q, op).phase, ..op }
}

/// What can happen to a queue: a turn of an operation with what it takes, the
/// beginning of a wait, or the report that a task is completed. A turn of a
/// worker says how it ends, since the worker chooses a future.
pub enum Action<E> {
    Enqueue(Enqueue, Option<Result<(), E>>),
    BeginWait(Key),
    Wait(Wait, Option<Result<(), E>>),
    Complete(Key),
    Flush(Flush),
    Drain(Drain, Option<Result<(), E>>, Outcome<DrainPhase, E>),
}

/// What happens turns the queue `q` into the queue `after`.
pub open spec fn happens<E>(q: QueueView, action: Action<E>, after: QueueView) -> bool {
    match action {
        Action::Enqueue(op, outcome) => after == enqueue_turn(q, op, outcome).queue,
        Action::BeginWait(key) => after == q.take(key),
        Action::Wait(op, outcome) => after == wait_turn(q, op, outcome).queue,
        Action::Complete(key) => after == q.completed(key),
        Action::Flush(op) => after == flush_turn::<E>(q, op).queue,
        Action::Drain(op, outcome, end) => drain_turn(q, op, outcome, end) && after == end.queue,
    }
}

/// A future is enqueued under `key` with success.
pub open spec fn enqueues<E>(q: QueueView, action: Action<E>, key: Key) -> bool {
    match action {
        Action::Enqueue(op, outcome) => op.key == key && enqueue_turn(q, op, outcome).turn.step
            == Step::<E>::Return(Ok(())),
        _ => false,
    }
}

/// The future of `key` is taken out: somebody begins to wait for it, its task
/// is completed, a worker takes it, or another future with the same key is to
/// be enqueued and waits for it.
pub open spec fn takes<E>(q: QueueView, action: Action<E>, key: Key) -> bool {
    match action {
        Action::Enqueue(op, outcome) => op.key == key && enqueue_turn(
            q,
            op,
            outcome,
        ).turn.step is Await,
        Action::BeginWait(waited) => waited == key,
        Action::Complete(completed) => completed == key,
        Action::Drain(_, _, end) => q.futures.contains_key(key) && end.queue.futures
            == q.futures.remove(key),
        _ => false,
    }
}

/// The last of the first `n` things that happened and concerned `key` was that
/// a future was enqueued under it with success.
pub open spec fn last_enqueued<E>(
    trace: Seq<QueueView>,
    actions: Seq<Action<E>>,
    n: int,
    key: Key,
) -> bool {
    exists|i: int|
        {
            &&& 0 <= i < n
            &&& #[trigger] enqueues(trace[i], actions[i], key)
            &&& forall|j: int| i < j < n ==> !#[trigger] takes(trace[j], actions[j], key)
        }
}

/// What happened led through the states of `trace`, from an empty queue on.
pub open spec fn reachable<E>(trace: Seq<QueueView>, actions: Seq<Action<E>>) -> bool {
    &&& trace.len() == actions.len() + 1
    &&& trace[0].futures == Map::<Key, u64>::empty()
    &&& forall|i: int|
        0 <= i < actions.len() ==> happens(trace[i], #[trigger] actions[i], trace[i + 1])
}

/// A key is stored exactly if the last thing that concerned it was that a
/// future was enqueued under it with success.
pub proof fn law_stored_keys_are_the_last_enqueued<E>(
    trace: Seq<QueueView>,
    actions: Seq<Action<E>>,
    n: int,
    key: Key,
)
    requires
        reachable(trace, actions),
        0 <= n <= actions.len(),
    ensures
        trace[n].futures.contains_key(key) <==> last_enqueued(trace, actions, n, key),
    decreases n,
{
    if n > 0 {
        law_stored_keys_are_the_last_enqueued(trace, actions, n - 1, key);
        let (q, action, after) = (trace[n - 1], actions[n - 1], trace[n]);
        assert(happens(q, action, after));
        lemma_stored_after(q, action, after, key);
        if after.futures.contains_key(key) {
            if enqueues(q, action, key) {
                assert(last_enqueued(trace, actions, n, key));
            } else {
                let i = choose|i: int|
                    {
                        &&& 0 <= i < n - 1
                        &&& #[trigger] enqueues(trace[i], actions[i], key)
                        &&& forall|j: int| i < j < n - 1 ==> !#[trigger] takes(trace[j], actions[j], key)
                    };
                assert(enqueues(trace[i], actions[i], key));
                assert(last_enqueued(trace, actions, n, key));
            }
        } else if last_enqueued(trace, actions, n, key) {
            let i = choose|i: int|
                {
                    &&& 0 <= i < n
                    &&& #[trigger] enqueues(trace[i], actions[i], key)
                    &&& forall|j: int| i < j < n ==> !#[trigger] takes(trace[j], actions[j], key)
                };
            assert(i < n - 1);
            assert(enqueues(trace[i], actions[i], key));
            assert(last_enqueued(trace, actions, n - 1, key));
            assert(takes(trace[n - 1], actions[n - 1], key));
        }
    }
}

/// The future that is stored under a key is the one that was enqueued last: as
/// long as nothing is enqueued or taken under the key, it stays.
pub proof fn law_stored_future_is_the_last_enqueued<E>(
    trace: Seq<QueueView>,
    actions: Seq<Action<E>>,
    i: int,
    n: int,
    op: Enqueue,
    outcome: Option<Result<(), E>>,
)
    requires
        reachable(trace, actions),
        0 <= i < n <= actions.len(),
        actions[i] == Action::Enqueue(op, outcome),
        enqueues(trace[i], actions[i], op.key),
        forall|j: int|
            i < j < n ==> !enqueues(trace[j], #[trigger] actions[j], op.key) && !takes(
                trace[j],
                actions[j],
                op.key,
            ),
    ensures
        trace[n].stored(op.key) == Some(op.future),
        trace[n].futures.contains_key(op.key),
        trace[n].futures[op.key] == op.future,
    decreases n,
{
    let (q, action, after) = (trace[n - 1], actions[n - 1], trace[n]);
    assert(happens(q, action, after));
    if i < n - 1 {
        law_stored_future_is_the_last_enqueued(trace, actions, i, n - 1, op, outcome);
        assert(!enqueues(q, action, op.key) && !takes(q, action, op.key));
        lemma_stored_after(q, action, after, op.key);
        lemma_stored_future_stays(q, action, after, op.key);
    }
}

/// A future that is stored before and after something happened is the same,
/// unless one was enqueued.
proof fn lemma_stored_future_stays<E>(q: QueueView, action: Action<E>, after: QueueView, key: Key)
    requires
        happens(q, action, after),
        !enqueues(q, action, key),
        q.futures.contains_key(key),
        after.futures.contains_key(key),
    ensures
        after.futures[key] == q.futures[key],
{
}

/// A key is stored after something happened exactly if a future was enqueued
/// under it, or it was stored before and not taken.
proof fn lemma_stored_after<E>(q: QueueView, action: Action<E>, after: QueueView, key: Key)
    requires
        happens(q, action, after),
    ensures
        after.futures.contains_key(key) <==> enqueues(q, action, key) || (q.futures.contains_key(
            key,
        ) && !takes(q, action, key)),
{
}

/// An operation that meets a free lock and no earlier future of its key, or
/// that has the lock already and waits for room, stores its future in that turn
/// and returns, if at most `hard_limit` futures are pending.
pub proof fn law_enqueue_succeeds_while_there_is_room<E>(
    q: QueueView,
    op: Enqueue,
    outcome: Option<Result<(), E>>,
)
    requires
        op.phase is Admitting || (op.phase is Locking && q.flush_lock is None
            && !q.futures.contains_key(op.key)),
        q.pending <= q.hard_limit,
    ensures
        enqueue_turn(q, op, outcome) == (Outcome {
            queue: QueueView {
                futures: q.futures.insert(op.key, op.future),
                soft_limit: q.soft_limit,
                hard_limit: q.hard_limit,
                flush_lock: None,
                pending: q.pending + 1,
            },
            phase: EnqueuePhase::Done,
            turn: Turn { step: Step::<E>::Return(Ok(())), notify: true },
        }),
{
}

/// An operation sleeps only if another one has the lock or if more than
/// `hard_limit` futures are pending. Then its future is not stored, and in the
/// second case it has the lock.
pub proof fn law_enqueue_sleeps_only_if_it_has_to<E>(
    q: QueueView,
    op: Enqueue,
    outcome: Option<Result<(), E>>,
)
    requires
        !(op.phase is Done),
        outcome is Some <==> op.phase is Waiting,
        op.phase is Waiting || op.phase is Admitting ==> q.flush_lock == Some(op.who),
    ensures
        ({
            let end = enqueue_turn(q, op, outcome);
            let held = op.phase is Locking && q.flush_lock is Some;
            let left = if op.phase is Waiting {
                q.pending - 1
            } else {
                q.pending
            };
            &&& end.turn.step is Sleep ==> held || left > q.hard_limit
            &&& held ==> end == (Outcome {
                queue: q,
                phase: EnqueuePhase::Locking,
                turn: Turn { step: Step::<E>::Sleep, notify: false },
            })
            &&& end.turn.step is Sleep && !held ==> end == (Outcome {
                queue: QueueView {
                    futures: q.futures,
                    soft_limit: q.soft_limit,
                    hard_limit: q.hard_limit,
                    flush_lock: Some(op.who),
                    pending: left,
                },
                phase: EnqueuePhase::Admitting,
                turn: Turn { step: Step::<E>::Sleep, notify: op.phase is Waiting },
            })
            &&& left > q.hard_limit && (op.phase is Admitting || (op.phase is Locking
                && q.flush_lock is None && !q.futures.contains_key(op.key)) || (op.phase is Waiting
                && outcome matches Some(Ok(_)))) ==> end.turn.step is Sleep
            &&& !(end.turn.step is Retry)
        }),
{
}

/// An operation that gets the lock and finds an earlier future under its key
/// takes it out, and awaits it with the lock in its hands.
pub proof fn law_enqueue_awaits_the_earlier_future<E>(
    q: QueueView,
    op: Enqueue,
    outcome: Option<Result<(), E>>,
)
    requires
        op.phase is Locking,
        q.flush_lock is None,
        q.futures.contains_key(op.key),
    ensures
        enqueue_turn(q, op, outcome) == (Outcome {
            queue: QueueView {
                futures: q.futures.remove(op.key),
                soft_limit: q.soft_limit,
                hard_limit: q.hard_limit,
                flush_lock: Some(op.who),
                pending: q.pending,
            },
            phase: EnqueuePhase::Waiting(q.futures[op.key]),
            turn: Turn { step: Step::<E>::Await(q.futures[op.key]), notify: false },
        }),
{
}

/// When the earlier future is completed, one future less is pending. An error
/// is returned, with the lock free and nothing stored. Otherwise the new future
/// is stored if there is room now.
pub proof fn law_enqueue_goes_on_after_the_earlier_future<E>(
    q: QueueView,
    op: Enqueue,
    result: Result<(), E>,
)
    requires
        op.phase is Waiting,
        q.flush_lock == Some(op.who),
    ensures
        result matches Err(e) ==> enqueue_turn(q, op, Some(result)) == (Outcome {
            queue: QueueView {
                futures: q.futures,
                soft_limit: q.soft_limit,
                hard_limit: q.hard_limit,
                flush_lock: None,
                pending: q.pending - 1,
            },
            phase: EnqueuePhase::Done,
            turn: Turn { step: Step::Return(Err(e)), notify: true },
        }),
        result is Ok && q.pending - 1 <= q.hard_limit ==> enqueue_turn(q, op, Some(result)) == (
        Outcome {
            queue: QueueView {
                futures: q.futures.insert(op.key, op.future),
                soft_limit: q.soft_limit,
                hard_limit: q.hard_limit,
                flush_lock: None,
                pending: q.pending,
            },
            phase: EnqueuePhase::Done,
            turn: Turn { step: Step::<E>::Return(Ok(())), notify: true },
        }),
{
}

/// Whoever begins to wait takes the future of the key out, and whoever reports
/// a completion does the same and leaves one future less pending. Nothing else
/// changes.
pub proof fn law_waits_and_completions_take_one_future(q: QueueView, key: Key)
    ensures
        q.take(key) == (QueueView {
            futures: q.futures.remove(key),
            soft_limit: q.soft_limit,
            hard_limit: q.hard_limit,
            flush_lock: q.flush_lock,
            pending: q.pending,
        }),
        q.completed(key) == (QueueView {
            futures: q.futures.remove(key),
            soft_limit: q.soft_limit,
            hard_limit: q.hard_limit,
            flush_lock: q.flush_lock,
            pending: q.pending - 1,
        }),
        q.futures.contains_key(key) ==> q.completion(key).taken == Some(q.futures[key]),
        !q.futures.contains_key(key) ==> q.completion(key).taken is None,
        q.completion(key).notify,
{
}

/// Whoever has taken a future awaits exactly that one, returns exactly its
/// result, and leaves one future less pending. Whoever has taken none returns
/// at once and changes nothing.
pub proof fn law_wait_awaits_what_it_took<E>(
    q: QueueView,
    op: Wait,
    future: u64,
    result: Result<(), E>,
)
    ensures
        op.phase == WaitPhase::Waiting(future) ==> wait_turn(q, op, None::<Result<(), E>>) == (
        Outcome {
            queue: q,
            phase: WaitPhase::Waiting(future),
            turn: Turn { step: Step::<E>::Await(future), notify: false },
        }),
        op.phase == WaitPhase::Waiting(future) ==> wait_turn(q, op, Some(result)) == (Outcome {
            queue: QueueView {
                futures: q.futures,
                soft_limit: q.soft_limit,
                hard_limit: q.hard_limit,
                flush_lock: q.flush_lock,
                pending: q.pending - 1,
            },
            phase: WaitPhase::Done,
            turn: Turn { step: Step::Return(result), notify: true },
        }),
        op.phase is Ready ==> wait_turn(q, op, None::<Result<(), E>>) == (Outcome {
            queue: q,
            phase: WaitPhase::Done,
            turn: Turn { step: Step::<E>::Return(Ok(())), notify: false },
        }),
{
}

/// A flush sleeps while another operation has the lock; with the lock it
/// returns if nothing is pending and sleeps if something is. It changes nothing
/// but the lock.
pub proof fn law_flush_waits_for_everything<E>(q: QueueView, op: Flush)
    requires
        !(op.phase is Done),
        op.phase is Emptying ==> q.flush_lock == Some(op.who),
    ensures
        ({
            let end = flush_turn::<E>(q, op);
            let held = op.phase is Locking && q.flush_lock is Some;
            &&& held ==> end == (Outcome {
                queue: q,
                phase: FlushPhase::Locking,
                turn: Turn { step: Step::<E>::Sleep, notify: false },
            })
            &&& !held && q.pending == 0 ==> end == (Outcome {
                queue: QueueView {
                    futures: q.futures,
                    soft_limit: q.soft_limit,
                    hard_limit: q.hard_limit,
                    flush_lock: None,
                    pending: 0,
                },
                phase: FlushPhase::Done,
                turn: Turn { step: Step::<E>::Return(Ok(())), notify: op.phase is Emptying },
            })
            &&& !held && q.pending != 0 ==> end == (Outcome {
                queue: QueueView {
                    futures: q.futures,
                    soft_limit: q.soft_limit,
                    hard_limit: q.hard_limit,
                    flush_lock: Some(op.who),
                    pending: q.pending,
                },
                phase: FlushPhase::Emptying,
                turn: Turn { step: Step::<E>::Sleep, notify: false },
            })
        }),
{
}

/// A worker takes one future exactly if there are more than its limit, awaits
/// that one, and otherwise returns. A future that it awaited is not pending any
/// more, and an error of it is returned at once.
pub proof fn law_drain_takes_one_future_while_above_the_limit<E>(
    q: QueueView,
    op: Drain,
    outcome: Option<Result<(), E>>,
    end: Outcome<DrainPhase, E>,
)
    requires
        !(op.phase is Done),
        outcome is Some <==> op.phase is Waiting,
        drain_turn(q, op, outcome, end),
    ensures
        end.queue.soft_limit == q.soft_limit,
        end.queue.hard_limit == q.hard_limit,
        end.queue.flush_lock == q.flush_lock,
        end.queue.pending == if op.phase is Waiting {
            q.pending - 1
        } else {
            q.pending
        },
        end.turn.notify == (op.phase is Waiting),
        outcome matches Some(Err(e)) ==> end.turn.step == Step::<E>::Return(Err(e))
            && end.queue.futures == q.futures && end.phase is Done,
        !(outcome matches Some(Err(_))) && q.futures.dom().len() <= op.limit ==> end.turn.step
            == Step::<E>::Return(Ok(())) && end.queue.futures == q.futures && end.phase is Done,
        !(outcome matches Some(Err(_))) && q.futures.dom().len() > op.limit ==> exists|key: Key|
            {
                &&& #[trigger] q.futures.contains_key(key)
                &&& end.queue.futures == q.futures.remove(key)
                &&& end.turn.step == Step::<E>::Await(q.futures[key])
                &&& end.phase == DrainPhase::Waiting(q.futures[key])
            },
{
}

/// A new operation can be given its first turn in every queue.
pub proof fn law_operations_can_begin(q: QueueView, enqueue: Enqueue, flush: Flush)
    ensures
        enqueue.phase is Locking ==> enqueue.wf(q),
        flush.phase is Locking ==> flush.wf(q),
        enqueue.phase is Waiting || enqueue.phase is Admitting ==> (enqueue.wf(q) <==> q.flush_lock
            == Some(enqueue.who)),
        flush.phase is Emptying ==> (flush.wf(q) <==> q.flush_lock == Some(flush.who)),
        enqueue.arrives(q) ==> enqueue.phase is Admitting || (enqueue.phase is Locking
            && q.flush_lock is None && !q.futures.contains_key(enqueue.key)),
{
}

} // verus!
