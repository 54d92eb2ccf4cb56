//! This module provides a bounded queue of futures which are identified by a
//! key.
//!
//! A future that somebody awaits keeps its entry until it is completed. The
//! module upholds these guarantees:
//!
//! - During a flush, no further futures can be enqueued.
//! - Waiting for a key indicates that its future is completed only if it has
//!   actually been completed.

use crate::index_map::{
    index_get_full_mut, index_get_index_mut, index_insert, index_len, index_new, index_shift_remove,
};
use crate::step::{Completion, Key, Step, Turn};
use indexmap::IndexMap;
use vstd::prelude::*;

verus! {

/// A bounded queue of futures which are identified by a key. Each entry holds
/// a future and whether somebody awaits it.
pub struct BoundedFutureQueue {
    futures: IndexMap<(u8, u16, u64), (u64, bool)>,
    soft_limit: usize,
    hard_limit: usize,
    flush_lock: Option<u64>,
    next_index: u64,
}

/// The entries of a queue, each with its future and whether somebody awaits
/// it.
pub type Entries = Seq<(Key, (u64, bool))>;

/// Whether there is an entry for `key`.
pub open spec fn has_entry(entries: Entries, key: Key) -> bool {
    exists|i: int| 0 <= i < entries.len() && (#[trigger] entries[i]).0 == key
}

/// Where the entry for `key` is.
pub open spec fn place(entries: Entries, key: Key) -> int {
    choose|i: int| 0 <= i < entries.len() && (#[trigger] entries[i]).0 == key
}

/// The future under `key`, if there is an entry and nobody awaits its future.
pub open spec fn idle(entries: Entries, key: Key) -> Option<u64> {
    if has_entry(entries, key) && !entries[place(entries, key)].1.1 {
        Some(entries[place(entries, key)].1.0)
    } else {
        None
    }
}

/// Whether there is an entry for `key` and somebody awaits its future.
pub open spec fn busy(entries: Entries, key: Key) -> bool {
    has_entry(entries, key) && entries[place(entries, key)].1.1
}

/// Whether `future` is stored under `key`, awaited or not.
pub open spec fn in_queue(entries: Entries, key: Key, future: u64) -> bool {
    has_entry(entries, key) && entries[place(entries, key)].1.0 == future
}

/// The entries with `value` under `key`, in the place of the entry that was
/// there or else at the end.
pub open spec fn put(entries: Entries, key: Key, value: (u64, bool)) -> Entries {
    if has_entry(entries, key) {
        entries.update(place(entries, key), (key, value))
    } else {
        entries.push((key, value))
    }
}

/// The entries without the one for `key`.
pub open spec fn without(entries: Entries, key: Key) -> Entries {
    if has_entry(entries, key) {
        entries.remove(place(entries, key))
    } else {
        entries
    }
}

/// The entries after somebody who awaited `future` under `key` is through with
/// it: its entry goes, unless it is gone already.
pub open spec fn released(entries: Entries, key: Key, future: u64) -> Entries {
    if busy(entries, key) && in_queue(entries, key, future) {
        without(entries, key)
    } else {
        entries
    }
}

/// The entries after somebody began to await the future of entry `i`.
pub open spec fn awaited(entries: Entries, i: int) -> Entries {
    entries.update(i, (entries[i].0, (entries[i].1.0, true)))
}

/// No key occurs twice.
pub open spec fn keys_differ(entries: Entries) -> bool {
    forall|i: int, j: int|
        0 <= i < j < entries.len() ==> (#[trigger] entries[i]).0 != (#[trigger] entries[j]).0
}

/// The state of a queue.
#[verifier::ext_equal]
pub struct QueueView {
    /// The entries, in their order.
    pub entries: Entries,
    /// From how many futures on a worker that completed one has to help.
    pub soft_limit: usize,
    /// From how many futures on whoever adds one has to help.
    pub hard_limit: usize,
    /// The operation that keeps others from adding futures.
    pub flush_lock: Option<u64>,
    /// Decides which entry a worker looks at next.
    pub next_index: u64,
}

impl QueueView {
    /// The queue with other entries.
    pub open spec fn with(self, entries: Entries) -> QueueView {
        QueueView { entries, ..self }
    }

    /// The queue with the flush lock in the hands of `who`.
    pub open spec fn lock(self, who: u64) -> QueueView {
        QueueView { flush_lock: Some(who), ..self }
    }

    /// The queue with a free flush lock.
    pub open spec fn unlock(self) -> QueueView {
        QueueView { flush_lock: None, ..self }
    }

    /// The entry that a worker looks at next.
    pub open spec fn next_entry(self) -> int {
        (self.next_index as usize) as int % self.entries.len() as int
    }

    /// The queue after a worker looked at the next entry and awaits its future.
    pub open spec fn picked(self) -> QueueView {
        QueueView {
            entries: awaited(self.entries, self.next_entry()),
            next_index: if self.next_index == u64::MAX {
                0
            } else {
                (self.next_index + 1) as u64
            },
            ..self
        }
    }
}

/// How far a worker has come.
pub enum DrainPhase {
    /// It looks whether there is too much in the queue.
    Checking,
    /// It looks for a future that nobody awaits.
    Picking,
    /// It awaits this future, which is stored under this key.
    Waiting(Key, u64),
    /// It is over.
    Done,
}

/// A worker that completes futures while there are more than `limit`.
pub struct Drain {
    /// How many futures may stay.
    pub limit: usize,
    /// How far the operation has come.
    pub phase: DrainPhase,
}

/// Somebody who completed a task and helps to empty the queue. An error has
/// nobody to go to.
pub struct Help {
    /// The worker that does it.
    pub drain: Drain,
}

/// What the runtime has to do next for a [`Help`].
pub enum HelpStep {
    /// Run this future to its end; the next turn takes its result.
    Await(u64),
    /// Let others go on, then give the operation another turn.
    Retry,
    /// The help is over.
    Done,
    /// Panic: draining failed.
    Panic,
}

/// The end of a turn of a [`Help`].
pub struct HelpTurn {
    /// What comes next for this operation.
    pub step: HelpStep,
    /// Whether sleeping operations have to be woken.
    pub notify: bool,
}

/// How far an [`Enqueue`] has come.
pub enum EnqueuePhase {
    /// It has no lock yet.
    Locking,
    /// It holds the lock and awaits this earlier future of its key.
    Waiting(u64),
    /// Its future is in the queue, and it helps while the queue is too full.
    Draining(DrainPhase),
    /// It is over.
    Done,
}

/// A future on its way into the queue.
pub struct Enqueue {
    /// Names the operation; no two unfinished operations share it.
    pub who: u64,
    /// The key of the future.
    pub key: Key,
    /// Names the future; no two futures that are not completed share it.
    pub future: u64,
    /// How far the operation has come.
    pub phase: EnqueuePhase,
}

/// How far a [`Wait`] has come.
pub enum WaitPhase {
    /// It awaits nothing yet.
    Starting,
    /// It awaits this future, which is stored under its key.
    Waiting(u64),
    /// It is over.
    Done,
}

/// Somebody who waits for the future of a key.
pub struct Wait {
    /// The key.
    pub key: Key,
    /// How far the operation has come.
    pub phase: WaitPhase,
}

/// How far a [`Flush`] has come.
pub enum FlushPhase {
    /// It has no lock yet.
    Locking,
    /// It holds the lock and completes all futures.
    Draining(DrainPhase),
    /// It is over.
    Done,
}

/// Somebody who empties the queue.
pub struct Flush {
    /// Names the operation; no two unfinished operations share it.
    pub who: u64,
    /// How far the operation has come.
    pub phase: FlushPhase,
}

/// The queue, the phase of an operation and the end of the turn.
pub struct Outcome<P, E> {
    pub queue: QueueView,
    pub phase: P,
    pub turn: Turn<E>,
}

/// The end of a turn in which a worker looks at the next entry, if any is left.
pub open spec fn pick<E>(q: QueueView, notify: bool) -> Outcome<DrainPhase, E> {
    if q.entries.len() == 0 {
        Outcome {
            queue: q,
            phase: DrainPhase::Done,
            turn: Turn { step: Step::Return(Ok(())), notify },
        }
    } else {
        let (key, (future, taken)) = q.entries[q.next_entry()];
        if taken {
            Outcome {
                queue: q.picked(),
                phase: DrainPhase::Picking,
                turn: Turn { step: Step::Retry, notify },
            }
        } else {
            Outcome {
                queue: q.picked(),
                phase: DrainPhase::Waiting(key, future),
                turn: Turn { step: Step::Await(future), notify },
            }
        }
    }
}

/// The end of a turn in which a worker looks whether it has to help.
pub open spec fn check<E>(q: QueueView, limit: usize, notify: bool) -> Outcome<DrainPhase, E> {
    if q.entries.len() > limit {
        pick(q, notify)
    } else {
        Outcome {
            queue: q,
            phase: DrainPhase::Done,
            turn: Turn { step: Step::Return(Ok(())), notify },
        }
    }
}

/// A turn of a worker. The first error ends it.
pub open spec fn drain_turn<E>(
    q: QueueView,
    limit: usize,
    phase: DrainPhase,
    outcome: Option<Result<(), E>>,
) -> Outcome<DrainPhase, E> {
    match phase {
        DrainPhase::Picking => pick(q, false),
        DrainPhase::Waiting(key, future) => {
            let rest = q.with(released(q.entries, key, future));
            match outcome {
                Some(Err(e)) => Outcome {
                    queue: rest,
                    phase: DrainPhase::Done,
                    turn: Turn { step: Step::Return(Err(e)), notify: true },
                },
                _ => check(rest, limit, true),
            }
        },
        _ => check(q, limit, false),
    }
}

/// The queue, the phase of the worker and the end of the turn.
pub struct HelpOutcome {
    pub queue: QueueView,
    pub phase: DrainPhase,
    pub turn: HelpTurn,
}

/// A turn of a [`Help`]: that of its worker, but an error ends in a panic.
pub open spec fn help_turn<E>(q: QueueView, op: Help, outcome: Option<Result<(), E>>) -> HelpOutcome {
    let end = drain_turn(q, op.drain.limit, op.drain.phase, outcome);
    let step = match end.turn.step {
        Step::Await(future) => HelpStep::Await(future),
        Step::Return(Ok(())) => HelpStep::Done,
        Step::Return(Err(_)) => HelpStep::Panic,
        _ => HelpStep::Retry,
    };
    HelpOutcome { queue: end.queue, phase: end.phase, turn: HelpTurn { step, notify: end.turn.notify } }
}

/// A turn of somebody who waits for the future of a key: it is awaited, unless
/// there is none. While somebody else awaits it, whoever waits sleeps.
pub open spec fn wait_turn<E>(q: QueueView, op: Wait, outcome: Option<Result<(), E>>) -> Outcome<
    WaitPhase,
    E,
> {
    match (op.phase, outcome) {
        (WaitPhase::Waiting(future), Some(result)) => Outcome {
            queue: q.with(released(q.entries, op.key, future)),
            phase: WaitPhase::Done,
            turn: Turn { step: Step::Return(result), notify: true },
        },
        _ => if busy(q.entries, op.key) {
            Outcome { queue: q, phase: op.phase, turn: Turn { step: Step::Sleep, notify: false } }
        } else {
            match idle(q.entries, op.key) {
                Some(future) => Outcome {
                    queue: q.with(awaited(q.entries, place(q.entries, op.key))),
                    phase: WaitPhase::Waiting(future),
                    turn: Turn { step: Step::Await(future), notify: false },
                },
                None => Outcome {
                    queue: q,
                    phase: WaitPhase::Done,
                    turn: Turn { step: Step::Return(Ok(())), notify: false },
                },
            }
        },
    }
}

/// The phase of an operation that drains, and then is over.
pub open spec fn enqueue_draining(phase: DrainPhase) -> EnqueuePhase {
    if phase is Done {
        EnqueuePhase::Done
    } else {
        EnqueuePhase::Draining(phase)
    }
}

/// The end of a turn in which an operation that holds the lock adds its future
/// and gives the lock back. It helps if the queue is too full now.
pub open spec fn arrival<E>(q: QueueView, op: Enqueue, notify: bool) -> Outcome<EnqueuePhase, E> {
    let full = q.with(put(q.entries, op.key, (op.future, false))).unlock();
    let end = check(full, q.hard_limit, notify);
    Outcome { queue: end.queue, phase: enqueue_draining(end.phase), turn: end.turn }
}

/// A turn of an [`Enqueue`]: take the lock, wait for an earlier future with
/// the same key, add the new one, and help while the queue is too full. The
/// operation sleeps while the lock is taken or somebody else awaits the
/// earlier future.
pub open spec fn enqueue_turn<E>(
    q: QueueView,
    op: Enqueue,
    outcome: Option<Result<(), E>>,
) -> Outcome<EnqueuePhase, E> {
    match op.phase {
        EnqueuePhase::Locking => if q.flush_lock is Some || busy(q.entries, op.key) {
            Outcome { queue: q, phase: op.phase, turn: Turn { step: Step::Sleep, notify: false } }
        } else {
            match idle(q.entries, op.key) {
                Some(future) => Outcome {
                    queue: q.with(awaited(q.entries, place(q.entries, op.key))).lock(op.who),
                    phase: EnqueuePhase::Waiting(future),
                    turn: Turn { step: Step::Await(future), notify: false },
                },
                None => arrival(q.lock(op.who), op, false),
            }
        },
        EnqueuePhase::Waiting(future) => {
            let rest = q.with(released(q.entries, op.key, future));
            match outcome {
                Some(Err(e)) => Outcome {
                    queue: rest.unlock(),
                    phase: EnqueuePhase::Done,
                    turn: Turn { step: Step::Return(Err(e)), notify: true },
                },
                _ => arrival(rest, op, true),
            }
        },
        EnqueuePhase::Draining(phase) => {
            let end = drain_turn(q, q.hard_limit, phase, outcome);
            Outcome { queue: end.queue, phase: enqueue_draining(end.phase), turn: end.turn }
        },
        EnqueuePhase::Done => Outcome {
            queue: q,
            phase: op.phase,
            turn: Turn { step: Step::Return(Ok(())), notify: false },
        },
    }
}

/// The end of a turn of a flush that has the lock: it gives the lock back when
/// it returns. `held` says whether it had the lock before the turn.
pub open spec fn flushing<E>(end: Outcome<DrainPhase, E>, held: bool) -> Outcome<FlushPhase, E> {
    if end.phase is Done {
        Outcome {
            queue: end.queue.unlock(),
            phase: FlushPhase::Done,
            turn: Turn { step: end.turn.step, notify: end.turn.notify || held },
        }
    } else {
        Outcome { queue: end.queue, phase: FlushPhase::Draining(end.phase), turn: end.turn }
    }
}

/// A turn of a [`Flush`]: take the lock, complete all futures, give the lock
/// back.
pub open spec fn flush_turn<E>(q: QueueView, op: Flush, outcome: Option<Result<(), E>>) -> Outcome<
    FlushPhase,
    E,
> {
    match op.phase {
        FlushPhase::Locking => if q.flush_lock is Some {
            Outcome { queue: q, phase: op.phase, turn: Turn { step: Step::Sleep, notify: false } }
        } else {
            flushing(check(q.lock(op.who), 0, false), false)
        },
        FlushPhase::Draining(phase) => flushing(drain_turn(q, 0, phase, outcome), true),
        FlushPhase::Done => Outcome {
            queue: q,
            phase: op.phase,
            turn: Turn { step: Step::Return(Ok(())), notify: false },
        },
    }
}

/// What is returned when the task of `key` is reported to be completed.
pub open spec fn completion(q: QueueView, key: Key) -> Completion {
    Completion { taken: idle(q.entries, key), notify: true }
}

impl DrainPhase {
    /// The worker can go on: an outcome is there if and only if it awaits a
    /// future.
    pub open spec fn ready<E>(&self, outcome: Option<Result<(), E>>) -> bool {
        !(self is Done) && (outcome is Some <==> self is Waiting)
    }
}

impl Enqueue {
    /// A future that is to be added to a queue.
    pub fn new(who: u64, key: Key, future: u64) -> (op: Enqueue)
        ensures
            op == (Enqueue { who, key, future, phase: EnqueuePhase::Locking }),
    {
        Enqueue { who, key, future, phase: EnqueuePhase::Locking }
    }

    /// The operation has the lock when its phase says so.
    pub open spec fn wf(&self, q: QueueView) -> bool {
        self.phase is Waiting ==> q.flush_lock == Some(self.who)
    }

    /// While the operation awaits an earlier future of its key, that one is the
    /// only one under the key.
    pub open spec fn has_key(&self, q: QueueView) -> bool {
        self.phase matches EnqueuePhase::Waiting(future) ==> (has_entry(q.entries, self.key)
            ==> busy(q.entries, self.key) && in_queue(q.entries, self.key, future))
    }

    /// The operation can go on.
    pub open spec fn ready<E>(&self, outcome: Option<Result<(), E>>) -> bool {
        match self.phase {
            EnqueuePhase::Locking => outcome is None,
            EnqueuePhase::Waiting(_) => outcome is Some,
            EnqueuePhase::Draining(phase) => phase.ready(outcome),
            EnqueuePhase::Done => false,
        }
    }
}

impl Flush {
    /// A flush that has not begun.
    pub fn new(who: u64) -> (op: Flush)
        ensures
            op == (Flush { who, phase: FlushPhase::Locking }),
    {
        Flush { who, phase: FlushPhase::Locking }
    }

    /// The operation has the lock when its phase says so.
    pub open spec fn wf(&self, q: QueueView) -> bool {
        self.phase is Draining ==> q.flush_lock == Some(self.who)
    }

    /// The operation can go on.
    pub open spec fn ready<E>(&self, outcome: Option<Result<(), E>>) -> bool {
        match self.phase {
            FlushPhase::Locking => outcome is None,
            FlushPhase::Draining(phase) => phase.ready(outcome),
            FlushPhase::Done => false,
        }
    }
}

impl Wait {
    /// The operation can go on.
    pub open spec fn ready<E>(&self, outcome: Option<Result<(), E>>) -> bool {
        !(self.phase is Done) && (outcome is Some <==> self.phase is Waiting)
    }
}

/// There is one place only for a key.
proof fn lemma_place(entries: Entries, key: Key, i: int)
    requires
        keys_differ(entries),
        0 <= i < entries.len(),
        entries[i].0 == key,
    ensures
        has_entry(entries, key),
        place(entries, key) == i,
{
    let j = place(entries, key);
    assert(0 <= j < entries.len() && entries[j].0 == key);
    if i < j {
        assert(entries[i].0 != entries[j].0);
    } else if j < i {
        assert(entries[j].0 != entries[i].0);
    }
}

/// Storing, removing and awaiting gives no key a second entry.
proof fn lemma_keys_differ(entries: Entries, key: Key, value: (u64, bool), i: int)
    requires
        keys_differ(entries),
    ensures
        keys_differ(put(entries, key, value)),
        keys_differ(without(entries, key)),
        0 <= i < entries.len() ==> keys_differ(awaited(entries, i)),
{
    if has_entry(entries, key) {
        let p = place(entries, key);
        assert(0 <= p < entries.len() && entries[p].0 == key);
        assert(forall|j: int|
            0 <= j < entries.len() ==> (#[trigger] put(entries, key, value)[j]).0 == entries[j].0);
        assert(forall|j: int|
            0 <= j < entries.len() - 1 ==> #[trigger] without(entries, key)[j] == entries[if j < p {
                j
            } else {
                j + 1
            }]);
    }
    if 0 <= i < entries.len() {
        assert(forall|j: int|
            0 <= j < entries.len() ==> (#[trigger] awaited(entries, i)[j]).0 == entries[j].0);
    }
}

/// What stands under a key.
enum Found {
    /// Nothing.
    Nothing,
    /// A future that somebody awaits.
    Awaited,
    /// This future, which is awaited from now on.
    Taken(u64),
}

impl BoundedFutureQueue {
    /// The state of the queue.
    pub closed spec fn view(&self) -> QueueView {
        QueueView {
            entries: crate::index_map::index_entries(self.futures),
            soft_limit: self.soft_limit,
            hard_limit: self.hard_limit,
            flush_lock: self.flush_lock,
            next_index: self.next_index,
        }
    }

    /// No key occurs twice.
    pub open spec fn inv(&self) -> bool {
        keys_differ(self@.entries)
    }

    /// Creates a new queue with the given limits.
    pub fn new(soft_limit: usize, hard_limit: usize) -> (queue: Self)
        ensures
            queue.inv(),
            queue@ == (QueueView {
                entries: Seq::empty(),
                soft_limit,
                hard_limit,
                flush_lock: None,
                next_index: 0,
            }),
    {
        BoundedFutureQueue {
            futures: index_new(),
            soft_limit,
            hard_limit,
            flush_lock: None,
            next_index: 0,
        }
    }

    /// How many entries the queue has.
    pub fn len(&self) -> (len: usize)
        ensures
            len == self@.entries.len(),
    {
        index_len(&self.futures)
    }

    /// Takes the entry of `key` out, and the future in it, if nobody awaits it.
    fn remove(&mut self, key: Key) -> (taken: Option<u64>)
        requires
            old(self).inv(),
        ensures
            final(self).inv(),
            final(self)@ == old(self)@.with(without(old(self)@.entries, key)),
            taken == idle(old(self)@.entries, key),
    {
        let entry: Option<(u64, bool)> = index_shift_remove(&mut self.futures, key);
        proof {
            lemma_keys_differ(old(self)@.entries, key, (0, false), 0);
            if has_entry(old(self)@.entries, key) {
                let p = place(old(self)@.entries, key);
                assert(old(self)@.entries[p].0 == key);
            }
        }
        match entry {
            Some((future, awaited)) => if awaited {
                None
            } else {
                Some(future)
            },
            None => None,
        }
    }

    /// Takes the entry of `key` out if it is the one of `future`, which was
    /// awaited.
    fn release(&mut self, key: Key, future: u64)
        requires
            old(self).inv(),
        ensures
            final(self).inv(),
            final(self)@ == old(self)@.with(released(old(self)@.entries, key, future)),
    {
        let own: bool = match index_get_full_mut(&mut self.futures, key) {
            Some((i, _key, value)) => {
                proof {
                    lemma_place(old(self)@.entries, key, i as int);
                }
                value.0 == future && value.1
            },
            None => false,
        };
        assert(self@.entries =~= old(self)@.entries);
        if own {
            let _ = self.remove(key);
        }
    }

    /// Stores a future under `key`.
    fn store(&mut self, key: Key, future: u64)
        requires
            old(self).inv(),
        ensures
            final(self).inv(),
            final(self)@ == old(self)@.with(put(old(self)@.entries, key, (future, false))),
    {
        let _ = index_insert(&mut self.futures, key, (future, false));
        proof {
            lemma_keys_differ(old(self)@.entries, key, (future, false), 0);
            if has_entry(old(self)@.entries, key) {
                let p = place(old(self)@.entries, key);
                assert(old(self)@.entries[p].0 == key);
            }
        }
    }

    /// Takes the future of `key`, unless there is none or somebody awaits it.
    fn drain_specific_future(&mut self, key: Key) -> (found: Found)
        requires
            old(self).inv(),
        ensures
            final(self).inv(),
            match found {
                Found::Nothing => !has_entry(old(self)@.entries, key) && final(self)@ == old(
                    self,
                )@,
                Found::Awaited => busy(old(self)@.entries, key) && final(self)@ == old(self)@,
                Found::Taken(future) => idle(old(self)@.entries, key) == Some(future)
                    && final(self)@ == old(self)@.with(
                    awaited(old(self)@.entries, place(old(self)@.entries, key)),
                ),
            },
    {
        match index_get_full_mut(&mut self.futures, key) {
            Some((i, _key, value)) => {
                proof {
                    lemma_place(old(self)@.entries, key, i as int);
                    lemma_keys_differ(old(self)@.entries, key, (0, false), i as int);
                }
                if value.1 {
                    assert(self@.entries =~= old(self)@.entries);
                    Found::Awaited
                } else {
                    let future: u64 = value.0;
                    *value = (future, true);
                    assert(self@.entries == awaited(old(self)@.entries, i as int));
                    Found::Taken(future)
                }
            },
            None => Found::Nothing,
        }
    }

    /// Looks at the next entry and takes its future, unless somebody awaits it.
    /// Without entries there is nothing to do.
    fn drain_any_future<E>(&mut self, notify: bool) -> (t: (DrainPhase, Turn<E>))
        requires
            old(self).inv(),
        ensures
            final(self).inv(),
            (Outcome { queue: final(self)@, phase: t.0, turn: t.1 }) == pick::<E>(
                old(self)@,
                notify,
            ),
    {
        let len: usize = index_len(&self.futures);
        if len == 0 {
            return (DrainPhase::Done, Turn { step: Step::Return(Ok(())), notify });
        }
        let i: usize = self.next_index as usize % len;
        self.next_index = self.next_index.wrapping_add(1);
        proof {
            lemma_keys_differ(old(self)@.entries, (0, 0, 0), (0, false), i as int);
        }
        match index_get_index_mut(&mut self.futures, i) {
            Some((key, value)) => {
                let (future, taken) = *value;
                *value = (future, true);
                assert(self@ == old(self)@.picked());
                if taken {
                    (DrainPhase::Picking, Turn { step: Step::Retry, notify })
                } else {
                    (DrainPhase::Waiting(key, future), Turn { step: Step::Await(future), notify })
                }
            },
            None => (DrainPhase::Done, Turn { step: Step::Return(Ok(())), notify }),
        }
    }

    /// Looks whether there are more than `limit` entries and goes on if so.
    fn check_limit<E>(&mut self, limit: usize, notify: bool) -> (t: (DrainPhase, Turn<E>))
        requires
            old(self).inv(),
        ensures
            final(self).inv(),
            (Outcome { queue: final(self)@, phase: t.0, turn: t.1 }) == check::<E>(
                old(self)@,
                limit,
                notify,
            ),
    {
        if index_len(&self.futures) > limit {
            self.drain_any_future(notify)
        } else {
            (DrainPhase::Done, Turn { step: Step::Return(Ok(())), notify })
        }
    }

    /// A turn of a worker.
    fn drain_on<E>(
        &mut self,
        limit: usize,
        phase: DrainPhase,
        outcome: Option<Result<(), E>>,
    ) -> (t: (DrainPhase, Turn<E>))
        requires
            old(self).inv(),
            phase.ready(outcome),
        ensures
            final(self).inv(),
            (Outcome { queue: final(self)@, phase: t.0, turn: t.1 }) == drain_turn(
                old(self)@,
                limit,
                phase,
                outcome,
            ),
    {
        match phase {
            DrainPhase::Picking => self.drain_any_future(false),
            DrainPhase::Waiting(key, future) => {
                self.release(key, future);
                match outcome {
                    Some(Err(e)) => (
                        DrainPhase::Done,
                        Turn { step: Step::Return(Err(e)), notify: true },
                    ),
                    _ => self.check_limit(limit, true),
                }
            },
            _ => self.check_limit(limit, false),
        }
    }

    /// Gives a worker that helps to empty the queue the next turn.
    pub fn drain_while_above_limit<E>(
        &mut self,
        op: &mut Drain,
        outcome: Option<Result<(), E>>,
    ) -> (turn: Turn<E>)
        requires
            old(self).inv(),
            old(op).phase.ready(outcome),
        ensures
            final(self).inv(),
            final(op).limit == old(op).limit,
            (Outcome { queue: final(self)@, phase: final(op).phase, turn }) == drain_turn(
                old(self)@,
                old(op).limit,
                old(op).phase,
                outcome,
            ),
    {
        let mut phase: DrainPhase = DrainPhase::Done;
        core::mem::swap(&mut phase, &mut op.phase);
        let (phase, turn) = self.drain_on(op.limit, phase, outcome);
        op.phase = phase;
        turn
    }

    /// Begins to wait for the future of `key`.
    pub fn wait_async(&self, key: Key) -> (op: Wait)
        ensures
            op == (Wait { key, phase: WaitPhase::Starting }),
    {
        Wait { key, phase: WaitPhase::Starting }
    }

    /// Gives somebody who waits the next turn.
    pub fn wait<E>(&mut self, op: &mut Wait, outcome: Option<Result<(), E>>) -> (turn: Turn<E>)
        requires
            old(self).inv(),
            old(op).ready(outcome),
        ensures
            final(self).inv(),
            final(op).key == old(op).key,
            (Outcome { queue: final(self)@, phase: final(op).phase, turn }) == wait_turn(
                old(self)@,
                *old(op),
                outcome,
            ),
    {
        if let WaitPhase::Waiting(future) = op.phase {
            if let Some(result) = outcome {
                self.release(op.key, future);
                op.phase = WaitPhase::Done;
                return Turn { step: Step::Return(result), notify: true };
            }
        }
        match self.drain_specific_future(op.key) {
            Found::Taken(future) => {
                op.phase = WaitPhase::Waiting(future);
                Turn { step: Step::Await(future), notify: false }
            },
            Found::Awaited => Turn { step: Step::Sleep, notify: false },
            Found::Nothing => {
                op.phase = WaitPhase::Done;
                Turn { step: Step::Return(Ok(())), notify: false }
            },
        }
    }

    /// Adds the future of an operation that holds the lock, and gives the lock
    /// back.
    fn arrive<E>(&mut self, op: &mut Enqueue, notify: bool) -> (turn: Turn<E>)
        requires
            old(self).inv(),
        ensures
            final(self).inv(),
            final(op).who == old(op).who,
            final(op).key == old(op).key,
            final(op).future == old(op).future,
            (Outcome { queue: final(self)@, phase: final(op).phase, turn }) == arrival::<E>(
                old(self)@,
                *old(op),
                notify,
            ),
    {
        self.store(op.key, op.future);
        self.flush_lock = None;
        let limit: usize = self.hard_limit;
        let (phase, turn) = self.check_limit(limit, notify);
        op.phase = match phase {
            DrainPhase::Done => EnqueuePhase::Done,
            going_on => EnqueuePhase::Draining(going_on),
        };
        turn
    }

    /// Gives an operation that enqueues a future its next turn. It helps while
    /// the queue is too full.
    pub fn enqueue<E>(&mut self, op: &mut Enqueue, outcome: Option<Result<(), E>>) -> (turn: Turn<E>)
        requires
            old(self).inv(),
            old(op).wf(old(self)@),
            old(op).ready(outcome),
        ensures
            final(self).inv(),
            final(op).wf(final(self)@),
            final(op).has_key(final(self)@),
            final(op).who == old(op).who,
            final(op).key == old(op).key,
            final(op).future == old(op).future,
            (Outcome { queue: final(self)@, phase: final(op).phase, turn }) == enqueue_turn(
                old(self)@,
                *old(op),
                outcome,
            ),
    {
        let mut phase: EnqueuePhase = EnqueuePhase::Done;
        core::mem::swap(&mut phase, &mut op.phase);
        match phase {
            EnqueuePhase::Locking => {
                if self.flush_lock.is_some() {
                    op.phase = EnqueuePhase::Locking;
                    return Turn { step: Step::Sleep, notify: false };
                }
                match self.drain_specific_future(op.key) {
                    Found::Taken(future) => {
                        proof {
                            let p = place(old(self)@.entries, op.key);
                            assert(old(self)@.entries[p].0 == op.key);
                            lemma_awaited(old(self)@.entries, p, op.key);
                        }
                        self.flush_lock = Some(op.who);
                        op.phase = EnqueuePhase::Waiting(future);
                        Turn { step: Step::Await(future), notify: false }
                    },
                    Found::Awaited => {
                        op.phase = EnqueuePhase::Locking;
                        Turn { step: Step::Sleep, notify: false }
                    },
                    Found::Nothing => {
                        self.flush_lock = Some(op.who);
                        self.arrive(op, false)
                    },
                }
            },
            EnqueuePhase::Waiting(future) => {
                self.release(op.key, future);
                match outcome {
                    Some(Err(e)) => {
                        self.flush_lock = None;
                        Turn { step: Step::Return(Err(e)), notify: true }
                    },
                    _ => self.arrive(op, true),
                }
            },
            EnqueuePhase::Draining(phase) => {
                let limit: usize = self.hard_limit;
                let (phase, turn) = self.drain_on(limit, phase, outcome);
                op.phase = match phase {
                    DrainPhase::Done => EnqueuePhase::Done,
                    going_on => EnqueuePhase::Draining(going_on),
                };
                turn
            },
            EnqueuePhase::Done => Turn { step: Step::Return(Ok(())), notify: false },
        }
    }

    /// Marks a task as completed. Whoever completed it has to help while there
    /// are more futures than the soft limit.
    pub fn mark_completed(&mut self, key: Key) -> (r: (Completion, Help))
        requires
            old(self).inv(),
        ensures
            final(self).inv(),
            final(self)@ == old(self)@.with(without(old(self)@.entries, key)),
            r.0 == completion(old(self)@, key),
            r.0.notify,
            r.1 == (Help {
                drain: Drain { limit: old(self)@.soft_limit, phase: DrainPhase::Checking },
            }),
    {
        let taken: Option<u64> = self.remove(key);
        (
            Completion { taken, notify: true },
            Help { drain: Drain { limit: self.soft_limit, phase: DrainPhase::Checking } },
        )
    }

    /// Gives somebody who helps after a completion the next turn.
    pub fn help<E>(&mut self, op: &mut Help, outcome: Option<Result<(), E>>) -> (turn: HelpTurn)
        requires
            old(self).inv(),
            old(op).drain.phase.ready(outcome),
        ensures
            final(self).inv(),
            final(op).drain.limit == old(op).drain.limit,
            (HelpOutcome { queue: final(self)@, phase: final(op).drain.phase, turn }) == help_turn(
                old(self)@,
                *old(op),
                outcome,
            ),
    {
        let turn: Turn<E> = self.drain_while_above_limit(&mut op.drain, outcome);
        let step: HelpStep = match turn.step {
            Step::Await(future) => HelpStep::Await(future),
            Step::Return(Ok(())) => HelpStep::Done,
            Step::Return(Err(_)) => HelpStep::Panic,
            _ => HelpStep::Retry,
        };
        HelpTurn { step, notify: turn.notify }
    }

    /// Gives somebody who flushes the queue the next turn.
    pub fn flush<E>(&mut self, op: &mut Flush, outcome: Option<Result<(), E>>) -> (turn: Turn<E>)
        requires
            old(self).inv(),
            old(op).wf(old(self)@),
            old(op).ready(outcome),
        ensures
            final(self).inv(),
            final(op).wf(final(self)@),
            final(op).who == old(op).who,
            (Outcome { queue: final(self)@, phase: final(op).phase, turn }) == flush_turn(
                old(self)@,
                *old(op),
                outcome,
            ),
    {
        let mut phase: FlushPhase = FlushPhase::Done;
        core::mem::swap(&mut phase, &mut op.phase);
        let held: bool = self.flush_lock.is_some();
        let (phase, turn) = match phase {
            FlushPhase::Locking => {
                if held {
                    op.phase = FlushPhase::Locking;
                    return Turn { step: Step::Sleep, notify: false };
                }
                self.flush_lock = Some(op.who);
                self.check_limit(0, false)
            },
            FlushPhase::Draining(phase) => self.drain_on(0, phase, outcome),
            FlushPhase::Done => (DrainPhase::Done, Turn { step: Step::Return(Ok(())), notify: false }),
        };
        match phase {
            DrainPhase::Done => {
                self.flush_lock = None;
                op.phase = FlushPhase::Done;
                Turn { step: turn.step, notify: turn.notify || held }
            },
            going_on => {
                op.phase = FlushPhase::Draining(going_on);
                turn
            },
        }
    }
}

/// The entry of `key`, if there is one, is there after as well, with the same
/// future, and awaited if it was.
pub open spec fn kept(before: Entries, after: Entries, key: Key) -> bool {
    has_entry(before, key) ==> {
        &&& has_entry(after, key)
        &&& after[place(after, key)].1.0 == before[place(before, key)].1.0
        &&& busy(before, key) ==> busy(after, key)
    }
}

/// Every key of `after` is a key of `before`.
pub open spec fn no_new_keys(before: Entries, after: Entries) -> bool {
    forall|key: Key| #[trigger] has_entry(after, key) ==> has_entry(before, key)
}

/// Awaiting the future of entry `i` keeps all entries and adds none.
proof fn lemma_awaited(entries: Entries, i: int, key: Key)
    requires
        keys_differ(entries),
        0 <= i < entries.len(),
    ensures
        kept(entries, awaited(entries, i), key),
        no_new_keys(entries, awaited(entries, i)),
        keys_differ(awaited(entries, i)),
        busy(awaited(entries, i), entries[i].0),
        in_queue(awaited(entries, i), entries[i].0, entries[i].1.0),
        place(entries, entries[i].0) == i,
{
    let after = awaited(entries, i);
    lemma_keys_differ(entries, key, (0, false), i);
    lemma_place(entries, entries[i].0, i);
    lemma_place(after, entries[i].0, i);
    if has_entry(entries, key) {
        let p = place(entries, key);
        assert(0 <= p < entries.len() && entries[p].0 == key);
        assert(after[p].0 == key);
        lemma_place(after, key, p);
    }
    assert forall|other: Key| #[trigger] has_entry(after, other) implies has_entry(
        entries,
        other,
    ) by {
        let p = place(after, other);
        assert(0 <= p < after.len() && after[p].0 == other);
        assert(entries[p].0 == other);
    }
}

/// Taking the entry of a key out keeps the other entries and adds none.
proof fn lemma_without(entries: Entries, gone: Key, key: Key)
    requires
        keys_differ(entries),
    ensures
        keys_differ(without(entries, gone)),
        no_new_keys(entries, without(entries, gone)),
        !has_entry(without(entries, gone), gone),
        key != gone ==> kept(entries, without(entries, gone), key),
{
    let after = without(entries, gone);
    lemma_keys_differ(entries, gone, (0, false), 0);
    if has_entry(entries, gone) {
        let g = place(entries, gone);
        assert(0 <= g < entries.len() && entries[g].0 == gone);
        assert forall|other: Key| #[trigger] has_entry(after, other) implies has_entry(
            entries,
            other,
        ) && other != gone by {
            let p = place(after, other);
            assert(0 <= p < after.len() && after[p].0 == other);
            let i = if p < g {
                p
            } else {
                p + 1
            };
            assert(entries[i].0 == other);
            if other == gone {
                lemma_place(entries, gone, i);
            }
        }
        if key != gone && has_entry(entries, key) {
            let p = place(entries, key);
            assert(0 <= p < entries.len() && entries[p].0 == key);
            let i = if p < g {
                p
            } else {
                p - 1
            };
            assert(after[i] == entries[p]);
            lemma_place(after, key, i);
        }
    }
}

/// Storing a future under a key without an entry keeps all entries.
proof fn lemma_put(entries: Entries, new: Key, value: (u64, bool), key: Key)
    requires
        keys_differ(entries),
        !has_entry(entries, new),
    ensures
        keys_differ(put(entries, new, value)),
        kept(entries, put(entries, new, value), key),
        has_entry(put(entries, new, value), new),
        put(entries, new, value)[place(put(entries, new, value), new)].1 == value,
{
    let after = put(entries, new, value);
    lemma_keys_differ(entries, new, value, 0);
    assert(after[entries.len() as int] == (new, value));
    lemma_place(after, new, entries.len() as int);
    if has_entry(entries, key) {
        let p = place(entries, key);
        assert(0 <= p < entries.len() && entries[p].0 == key);
        assert(after[p] == entries[p]);
        lemma_place(after, key, p);
    }
}

/// Being through with a future keeps all other entries and adds none.
proof fn lemma_released(entries: Entries, done: Key, future: u64, key: Key)
    requires
        keys_differ(entries),
    ensures
        keys_differ(released(entries, done, future)),
        no_new_keys(entries, released(entries, done, future)),
        !(done == key && in_queue(entries, key, future)) ==> kept(
            entries,
            released(entries, done, future),
            key,
        ),
        busy(entries, done) && in_queue(entries, done, future) ==> !has_entry(
            released(entries, done, future),
            done,
        ),
{
    lemma_without(entries, done, key);
}

/// A worker that looks for a future keeps all entries and adds none.
proof fn lemma_check<E>(q: QueueView, limit: usize, notify: bool, key: Key)
    requires
        keys_differ(q.entries),
    ensures
        keys_differ(check::<E>(q, limit, notify).queue.entries),
        keys_differ(pick::<E>(q, notify).queue.entries),
        no_new_keys(q.entries, check::<E>(q, limit, notify).queue.entries),
        no_new_keys(q.entries, pick::<E>(q, notify).queue.entries),
        kept(q.entries, check::<E>(q, limit, notify).queue.entries, key),
        kept(q.entries, pick::<E>(q, notify).queue.entries, key),
{
    if q.entries.len() > 0 {
        lemma_awaited(q.entries, q.next_entry(), key);
    }
}

/// A turn of a worker keeps all entries but the one whose future is completed,
/// and adds none.
proof fn lemma_drain<E>(
    q: QueueView,
    limit: usize,
    phase: DrainPhase,
    outcome: Option<Result<(), E>>,
    key: Key,
)
    requires
        keys_differ(q.entries),
    ensures
        keys_differ(drain_turn(q, limit, phase, outcome).queue.entries),
        no_new_keys(q.entries, drain_turn(q, limit, phase, outcome).queue.entries),
        !(phase matches DrainPhase::Waiting(done, future) && done == key && in_queue(
            q.entries,
            key,
            future,
        )) ==> kept(q.entries, drain_turn(q, limit, phase, outcome).queue.entries, key),
{
    lemma_check::<E>(q, limit, false, key);
    if let DrainPhase::Waiting(done, future) = phase {
        let rest = q.with(released(q.entries, done, future));
        lemma_released(q.entries, done, future, key);
        lemma_check::<E>(rest, limit, true, key);
    }
}

/// Workers add no key, and they leave the lock alone.
pub proof fn law_workers_add_no_futures<E>(
    q: QueueView,
    limit: usize,
    phase: DrainPhase,
    outcome: Option<Result<(), E>>,
)
    requires
        keys_differ(q.entries),
    ensures
        no_new_keys(q.entries, drain_turn(q, limit, phase, outcome).queue.entries),
        drain_turn(q, limit, phase, outcome).queue.flush_lock == q.flush_lock,
{
    lemma_drain(q, limit, phase, outcome, (0, 0, 0));
}

/// Those who wait add no key, and they leave the lock alone.
pub proof fn law_waiting_adds_no_futures<E>(
    q: QueueView,
    op: Wait,
    outcome: Option<Result<(), E>>,
)
    requires
        keys_differ(q.entries),
    ensures
        no_new_keys(q.entries, wait_turn(q, op, outcome).queue.entries),
        wait_turn(q, op, outcome).queue.flush_lock == q.flush_lock,
{
    let p = place(q.entries, op.key);
    if has_entry(q.entries, op.key) {
        assert(0 <= p < q.entries.len() && q.entries[p].0 == op.key);
        lemma_awaited(q.entries, p, op.key);
    }
    if let WaitPhase::Waiting(future) = op.phase {
        lemma_released(q.entries, op.key, future, op.key);
    }
}

/// During a flush, no further futures can be enqueued: an operation that has
/// not added its future yet only sleeps, one that has added it adds no other,
/// and the flush keeps the lock.
pub proof fn law_no_enqueue_during_flush<E>(
    q: QueueView,
    flush: Flush,
    op: Enqueue,
    outcome: Option<Result<(), E>>,
)
    requires
        keys_differ(q.entries),
        flush.phase is Draining,
        flush.wf(q),
        op.wf(q),
        op.who != flush.who,
        op.ready(outcome),
    ensures
        no_new_keys(q.entries, enqueue_turn(q, op, outcome).queue.entries),
        flush.wf(enqueue_turn(q, op, outcome).queue),
        op.phase is Locking ==> enqueue_turn(q, op, outcome) == (Outcome {
            queue: q,
            phase: op.phase,
            turn: Turn { step: Step::<E>::Sleep, notify: false },
        }),
{
    if let EnqueuePhase::Draining(phase) = op.phase {
        law_workers_add_no_futures(q, q.hard_limit, phase, outcome);
    }
}

/// A flush adds no future either, and gives the lock back exactly when it
/// returns.
pub proof fn law_flush_keeps_the_lock<E>(
    q: QueueView,
    flush: Flush,
    outcome: Option<Result<(), E>>,
)
    requires
        keys_differ(q.entries),
        flush.phase is Draining,
        flush.wf(q),
        flush.ready(outcome),
    ensures
        no_new_keys(q.entries, flush_turn(q, flush, outcome).queue.entries),
        flush_turn(q, flush, outcome).turn.step is Return <==> flush_turn(
            q,
            flush,
            outcome,
        ).queue.flush_lock is None,
{
    if let FlushPhase::Draining(phase) = flush.phase {
        law_workers_add_no_futures(q, 0, phase, outcome);
    }
}

/// Whoever waits for a future that nobody awaits yet is asked to await exactly
/// that future, and is told exactly its result.
pub proof fn law_wait_reports_the_result<E>(
    begun: QueueView,
    now: QueueView,
    op: Wait,
    future: u64,
    result: Result<(), E>,
)
    requires
        op.phase is Starting,
        idle(begun.entries, op.key) == Some(future),
    ensures
        wait_turn(begun, op, None::<Result<(), E>>).turn.step == Step::<E>::Await(future),
        wait_turn(begun, op, None::<Result<(), E>>).phase == WaitPhase::Waiting(future),
        wait_turn(now, Wait { phase: WaitPhase::Waiting(future), ..op }, Some(result)).turn.step
            == Step::Return(result),
{
}

/// Whoever waits is told without awaiting anything that there is nothing to
/// wait for only if the key has no entry. While somebody else awaits its
/// future, whoever waits sleeps.
pub proof fn law_wait_returns_only_without_an_entry<E>(q: QueueView, op: Wait)
    requires
        op.phase is Starting,
    ensures
        wait_turn(q, op, None::<Result<(), E>>).turn.step is Return ==> !has_entry(
            q.entries,
            op.key,
        ),
        !has_entry(q.entries, op.key) ==> wait_turn(q, op, None::<Result<(), E>>).turn.step
            == Step::<E>::Return(Ok(())),
        has_entry(q.entries, op.key) && idle(q.entries, op.key) is None ==> wait_turn(
            q,
            op,
            None::<Result<(), E>>,
        ) == (Outcome {
            queue: q,
            phase: op.phase,
            turn: Turn { step: Step::<E>::Sleep, notify: false },
        }),
{
}

/// A future that somebody was asked to await is not handed out again: its
/// entry stays, and says that it is awaited.
pub proof fn law_a_future_is_handed_out_once<E>(q: QueueView, op: Wait, notify: bool, future: u64)
    requires
        keys_differ(q.entries),
    ensures
        op.phase is Starting && wait_turn(q, op, None::<Result<(), E>>).turn.step == Step::<
            E,
        >::Await(future) ==> {
            let after = wait_turn(q, op, None::<Result<(), E>>).queue.entries;
            busy(after, op.key) && in_queue(after, op.key, future)
        },
        q.entries.len() > 0 && pick::<E>(q, notify).turn.step == Step::<E>::Await(future) ==> {
            let key = q.entries[q.next_entry()].0;
            let after = pick::<E>(q, notify).queue.entries;
            &&& idle(q.entries, key) == Some(future)
            &&& pick::<E>(q, notify).phase == DrainPhase::Waiting(key, future)
            &&& busy(after, key)
            &&& in_queue(after, key, future)
        },
{
    let p = place(q.entries, op.key);
    if has_entry(q.entries, op.key) {
        assert(0 <= p < q.entries.len() && q.entries[p].0 == op.key);
        lemma_awaited(q.entries, p, op.key);
    }
    if q.entries.len() > 0 {
        let i = q.next_entry();
        lemma_awaited(q.entries, i, op.key);
        lemma_place(q.entries, q.entries[i].0, i);
    }
}

/// A worker that returns without an error leaves at most as many entries as
/// its limit. One that looks for a future in an empty queue has nothing to do.
pub proof fn law_drain_respects_the_limit<E>(
    q: QueueView,
    limit: usize,
    phase: DrainPhase,
    outcome: Option<Result<(), E>>,
)
    requires
        phase.ready(outcome),
    ensures
        drain_turn(q, limit, phase, outcome).turn.step == Step::<E>::Return(Ok(())) ==> drain_turn(
            q,
            limit,
            phase,
            outcome,
        ).queue.entries.len() <= limit,
        phase is Picking && q.entries.len() == 0 ==> drain_turn(q, limit, phase, outcome)
            == (Outcome {
            queue: q,
            phase: DrainPhase::Done,
            turn: Turn { step: Step::<E>::Return(Ok(())), notify: false },
        }),
{
}

/// The help after a completion ends in a panic exactly if a future that it
/// awaited has failed, and it ends otherwise only when there are at most as
/// many entries as its limit. It never sleeps.
pub proof fn law_help_must_not_fail<E>(q: QueueView, op: Help, outcome: Option<Result<(), E>>)
    requires
        op.drain.phase.ready(outcome),
    ensures
        help_turn(q, op, outcome).turn.step is Panic <==> outcome matches Some(Err(_)),
        help_turn(q, op, outcome).turn.step is Done ==> help_turn(q, op, outcome).queue.entries.len()
            <= op.drain.limit,
        !(drain_turn(q, op.drain.limit, op.drain.phase, outcome).turn.step is Sleep),
{
}

/// An operation that enqueued a future returns without an error only when
/// there are at most as many entries as the hard limit, and a flush only when
/// there are none.
pub proof fn law_limits_hold_on_return<E>(
    q: QueueView,
    op: Enqueue,
    flush: Flush,
    outcome: Option<Result<(), E>>,
)
    ensures
        op.ready(outcome) && enqueue_turn(q, op, outcome).turn.step == Step::<E>::Return(Ok(()))
            ==> enqueue_turn(q, op, outcome).queue.entries.len() <= q.hard_limit,
        flush.ready(outcome) && flush_turn(q, flush, outcome).turn.step == Step::<E>::Return(
            Ok(()),
        ) ==> flush_turn(q, flush, outcome).queue.entries.len() == 0,
{
}

/// An operation fails only with the result of the future that it awaited last.
pub proof fn law_errors_come_from_futures<E>(
    q: QueueView,
    op: Enqueue,
    flush: Flush,
    outcome: Option<Result<(), E>>,
    e: E,
)
    ensures
        op.ready(outcome) && enqueue_turn(q, op, outcome).turn.step == Step::<E>::Return(Err(e))
            ==> outcome == Some(Result::<(), E>::Err(e)),
        flush.ready(outcome) && flush_turn(q, flush, outcome).turn.step == Step::<E>::Return(
            Err(e),
        ) ==> outcome == Some(Result::<(), E>::Err(e)),
{
}

/// An operation that adds its future meets no entry of its key: it never takes
/// the place of a future that is not completed.
pub proof fn law_arrival_meets_no_entry<E>(q: QueueView, op: Enqueue)
    requires
        keys_differ(q.entries),
        op.has_key(q),
    ensures
        op.phase is Locking && !(enqueue_turn(q, op, None::<Result<(), E>>).turn.step is Sleep)
            && idle(q.entries, op.key) is None ==> !has_entry(q.entries, op.key),
        op.phase matches EnqueuePhase::Waiting(future) ==> !has_entry(
            released(q.entries, op.key, future),
            op.key,
        ),
{
    if let EnqueuePhase::Waiting(future) = op.phase {
        lemma_released(q.entries, op.key, future, op.key);
    }
}

/// After the turn in which an operation adds its future, the future is in the
/// queue and the lock is free.
pub proof fn law_enqueued_future_is_in_the_queue<E>(
    q: QueueView,
    op: Enqueue,
    outcome: Option<Result<(), E>>,
)
    requires
        keys_differ(q.entries),
        op.has_key(q),
        op.ready(outcome),
        op.phase is Locking || op.phase is Waiting,
        enqueue_turn(q, op, outcome).turn.step == Step::<E>::Return(Ok(())) || enqueue_turn(
            q,
            op,
            outcome,
        ).phase is Draining,
    ensures
        in_queue(enqueue_turn(q, op, outcome).queue.entries, op.key, op.future),
        enqueue_turn(q, op, outcome).queue.flush_lock is None,
{
    lemma_arrival(q, op, outcome, op.key);
}

/// An operation that adds its future keeps all entries but that of the earlier
/// future that it awaited.
proof fn lemma_arrival<E>(q: QueueView, op: Enqueue, outcome: Option<Result<(), E>>, key: Key)
    requires
        keys_differ(q.entries),
        op.has_key(q),
        op.ready(outcome),
    ensures
        keys_differ(enqueue_turn(q, op, outcome).queue.entries),
        !(op.phase matches EnqueuePhase::Waiting(future) && op.key == key && in_queue(
            q.entries,
            key,
            future,
        )) && !(op.phase matches EnqueuePhase::Draining(DrainPhase::Waiting(done, future)) && done
            == key && in_queue(q.entries, key, future)) ==> kept(
            q.entries,
            enqueue_turn(q, op, outcome).queue.entries,
            key,
        ),
        (op.phase is Locking || op.phase is Waiting) && (enqueue_turn(q, op, outcome).turn.step
            == Step::<E>::Return(Ok(())) || enqueue_turn(q, op, outcome).phase is Draining)
            ==> in_queue(enqueue_turn(q, op, outcome).queue.entries, op.key, op.future),
{
    match op.phase {
        EnqueuePhase::Locking => {
            if q.flush_lock is None && !busy(q.entries, op.key) {
                if has_entry(q.entries, op.key) {
                    let p = place(q.entries, op.key);
                    assert(0 <= p < q.entries.len() && q.entries[p].0 == op.key);
                    lemma_awaited(q.entries, p, key);
                } else {
                    let full = q.lock(op.who).with(
                        put(q.entries, op.key, (op.future, false)),
                    ).unlock();
                    lemma_put(q.entries, op.key, (op.future, false), key);
                    lemma_check::<E>(full, q.hard_limit, false, key);
                    lemma_check::<E>(full, q.hard_limit, false, op.key);
                }
            }
        },
        EnqueuePhase::Waiting(future) => {
            let rest = q.with(released(q.entries, op.key, future));
            lemma_released(q.entries, op.key, future, key);
            lemma_released(q.entries, op.key, future, op.key);
            let full = rest.with(put(rest.entries, op.key, (op.future, false))).unlock();
            lemma_put(rest.entries, op.key, (op.future, false), key);
            lemma_check::<E>(full, q.hard_limit, true, key);
            lemma_check::<E>(full, q.hard_limit, true, op.key);
        },
        EnqueuePhase::Draining(phase) => {
            lemma_drain(q, q.hard_limit, phase, outcome, key);
        },
        EnqueuePhase::Done => {},
    }
}

/// What can happen to a queue: a turn of an operation with what it takes, or
/// the report that a task is completed.
pub enum Action<E> {
    Enqueue(Enqueue, Option<Result<(), E>>),
    Wait(Wait, Option<Result<(), E>>),
    Flush(Flush, Option<Result<(), E>>),
    Drain(Drain, Option<Result<(), E>>),
    Complete(Key),
}

/// The queue after something happened.
pub open spec fn after<E>(q: QueueView, action: Action<E>) -> QueueView {
    match action {
        Action::Enqueue(op, outcome) => enqueue_turn(q, op, outcome).queue,
        Action::Wait(op, outcome) => wait_turn(q, op, outcome).queue,
        Action::Flush(op, outcome) => flush_turn(q, op, outcome).queue,
        Action::Drain(op, outcome) => drain_turn(q, op.limit, op.phase, outcome).queue,
        Action::Complete(key) => q.with(without(q.entries, key)),
    }
}

/// Sleeping operations have to be woken after something happened.
pub open spec fn notifies<E>(q: QueueView, action: Action<E>) -> bool {
    match action {
        Action::Enqueue(op, outcome) => enqueue_turn(q, op, outcome).turn.notify,
        Action::Wait(op, outcome) => wait_turn(q, op, outcome).turn.notify,
        Action::Flush(op, outcome) => flush_turn(q, op, outcome).turn.notify,
        Action::Drain(op, outcome) => drain_turn(q, op.limit, op.phase, outcome).turn.notify,
        Action::Complete(key) => completion(q, key).notify,
    }
}

/// The operation is ready for its turn.
pub open spec fn ready<E>(q: QueueView, action: Action<E>) -> bool {
    match action {
        Action::Enqueue(op, outcome) => op.ready(outcome) && op.wf(q) && op.has_key(q),
        Action::Wait(op, outcome) => op.ready(outcome),
        Action::Flush(op, outcome) => op.ready(outcome) && op.wf(q),
        Action::Drain(op, outcome) => op.phase.ready(outcome),
        Action::Complete(_) => true,
    }
}

/// `future`, under `key`, is completed: somebody who awaited it hands its
/// result in, or its task is reported to be completed.
pub open spec fn completes<E>(action: Action<E>, key: Key, future: u64) -> bool {
    match action {
        Action::Enqueue(op, outcome) => outcome is Some && (op.key == key && op.phase
            == EnqueuePhase::Waiting(future) || op.phase == EnqueuePhase::Draining(
            DrainPhase::Waiting(key, future),
        )),
        Action::Wait(op, outcome) => outcome is Some && op.key == key && op.phase
            == WaitPhase::Waiting(future),
        Action::Flush(op, outcome) => outcome is Some && op.phase == FlushPhase::Draining(
            DrainPhase::Waiting(key, future),
        ),
        Action::Drain(op, outcome) => outcome is Some && op.phase == DrainPhase::Waiting(
            key,
            future,
        ),
        Action::Complete(completed) => completed == key,
    }
}

/// A future stays in the queue until it is completed, and an awaited one stays
/// awaited.
pub proof fn law_futures_stay_until_they_are_completed<E>(
    q: QueueView,
    action: Action<E>,
    key: Key,
    future: u64,
)
    requires
        keys_differ(q.entries),
        ready(q, action),
        in_queue(q.entries, key, future),
        !completes(action, key, future),
    ensures
        in_queue(after(q, action).entries, key, future),
        busy(q.entries, key) ==> busy(after(q, action).entries, key),
{
    lemma_after(q, action, key);
}

/// What happens keeps every entry but that of a future that is completed.
proof fn lemma_after<E>(q: QueueView, action: Action<E>, key: Key)
    requires
        keys_differ(q.entries),
        ready(q, action),
    ensures
        keys_differ(after(q, action).entries),
        has_entry(q.entries, key) && !completes(
            action,
            key,
            q.entries[place(q.entries, key)].1.0,
        ) ==> kept(q.entries, after(q, action).entries, key),
{
    match action {
        Action::Enqueue(op, outcome) => {
            lemma_arrival(q, op, outcome, key);
        },
        Action::Wait(op, outcome) => {
            if let WaitPhase::Waiting(future) = op.phase {
                lemma_released(q.entries, op.key, future, key);
            }
            if has_entry(q.entries, op.key) {
                let p = place(q.entries, op.key);
                assert(0 <= p < q.entries.len() && q.entries[p].0 == op.key);
                lemma_awaited(q.entries, p, key);
            }
        },
        Action::Flush(op, outcome) => {
            match op.phase {
                FlushPhase::Locking => {
                    lemma_check::<E>(q.lock(op.who), 0, false, key);
                },
                FlushPhase::Draining(phase) => {
                    lemma_drain(q, 0, phase, outcome, key);
                },
                FlushPhase::Done => {},
            }
        },
        Action::Drain(op, outcome) => {
            lemma_drain(q, op.limit, op.phase, outcome, key);
        },
        Action::Complete(completed) => {
            lemma_without(q.entries, completed, key);
        },
    }
}

/// What happened led through the states of `trace`, and every operation was
/// ready for its turn.
pub open spec fn leads_through<E>(trace: Seq<QueueView>, actions: Seq<Action<E>>) -> bool {
    &&& trace.len() == actions.len() + 1
    &&& keys_differ(trace[0].entries)
    &&& forall|i: int|
        0 <= i < actions.len() ==> ready(trace[i], #[trigger] actions[i]) && trace[i + 1] == after(
            trace[i],
            actions[i],
        )
}

/// `future`, under `key`, was completed by one of the first `n` things that
/// happened.
pub open spec fn was_completed<E>(actions: Seq<Action<E>>, n: int, key: Key, future: u64) -> bool {
    exists|i: int| 0 <= i < n && #[trigger] completes(actions[i], key, future)
}

/// A future that was in the queue is still there, or was completed, whatever
/// operations had their turns in the meantime.
pub proof fn law_no_future_is_lost<E>(
    trace: Seq<QueueView>,
    actions: Seq<Action<E>>,
    n: int,
    key: Key,
    future: u64,
)
    requires
        leads_through(trace, actions),
        0 <= n <= actions.len(),
        in_queue(trace[0].entries, key, future),
    ensures
        in_queue(trace[n].entries, key, future) || was_completed(actions, n, key, future),
        keys_differ(trace[n].entries),
    decreases n,
{
    if n > 0 {
        law_no_future_is_lost(trace, actions, n - 1, key, future);
        let action = actions[n - 1];
        assert(ready(trace[n - 1], action) && trace[n] == after(trace[n - 1], action));
        lemma_after(trace[n - 1], action, key);
        if was_completed(actions, n - 1, key, future) {
            let i = choose|i: int| 0 <= i < n - 1 && #[trigger] completes(actions[i], key, future);
            assert(completes(actions[i], key, future));
        } else if completes(action, key, future) {
            assert(completes(actions[n - 1], key, future));
        }
    }
}

/// Whoever waits for a key is told that there is nothing left to wait for only
/// when every future that was in the queue under that key has been completed.
pub proof fn law_wait_indicates_completion_only<E>(
    trace: Seq<QueueView>,
    actions: Seq<Action<E>>,
    op: Wait,
    outcome: Option<Result<(), E>>,
    future: u64,
)
    requires
        leads_through(trace, actions),
        in_queue(trace[0].entries, op.key, future),
        op.ready(outcome),
        op.phase is Starting || op.phase == WaitPhase::Waiting(future),
        wait_turn(trace.last(), op, outcome).turn.step is Return,
    ensures
        was_completed(actions, actions.len() as int, op.key, future) || completes(
            Action::Wait(op, outcome),
            op.key,
            future,
        ),
{
    law_no_future_is_lost(trace, actions, actions.len() as int, op.key, future);
}

/// A flush that returns without an error has seen every future completed that
/// was in the queue when it began, whoever completed it, and leaves the queue
/// empty.
pub proof fn law_flush_completes_every_future<E>(
    trace: Seq<QueueView>,
    actions: Seq<Action<E>>,
    flush: Flush,
    outcome: Option<Result<(), E>>,
    key: Key,
    future: u64,
)
    requires
        leads_through(trace, actions),
        actions.len() > 0,
        actions.last() == Action::Flush(flush, outcome),
        flush_turn(trace[actions.len() - 1], flush, outcome).turn.step == Step::<E>::Return(Ok(())),
        in_queue(trace[0].entries, key, future),
    ensures
        was_completed(actions, actions.len() as int, key, future),
        trace.last().entries.len() == 0,
{
    let n = actions.len() as int;
    law_no_future_is_lost(trace, actions, n, key, future);
    assert(ready(trace[n - 1], actions[n - 1]) && trace[n] == after(trace[n - 1], actions[n - 1]));
    law_limits_hold_on_return(
        trace[n - 1],
        Enqueue { who: 0, key, future, phase: EnqueuePhase::Done },
        flush,
        outcome,
    );
}

/// All that happened were the turns of one flush, one after the other.
pub open spec fn flushed_alone<E>(trace: Seq<QueueView>, actions: Seq<Action<E>>) -> bool {
    &&& leads_through(trace, actions)
    &&& forall|i: int| 0 <= i < actions.len() ==> (#[trigger] actions[i]) is Flush
    &&& forall|i: int| 0 <= i < actions.len() - 1 ==> #[trigger] continues(trace, actions, i)
}

/// The flush goes on after turn `i` where that turn has left it.
pub open spec fn continues<E>(trace: Seq<QueueView>, actions: Seq<Action<E>>, i: int) -> bool {
    flush_of(actions[i + 1]).phase == flush_turn(
        trace[i],
        flush_of(actions[i]),
        outcome_of(actions[i]),
    ).phase
}

/// The flush whose turn it is.
pub open spec fn flush_of<E>(action: Action<E>) -> Flush {
    action->Flush_0
}

/// The outcome that a flush takes.
pub open spec fn outcome_of<E>(action: Action<E>) -> Option<Result<(), E>> {
    action->Flush_1
}

/// A flush that returns without an error, and that no other operation came in
/// between, has itself run every future to its end with success that was in
/// the queue when it began.
pub proof fn law_flush_alone_runs_every_future<E>(
    trace: Seq<QueueView>,
    actions: Seq<Action<E>>,
    key: Key,
    future: u64,
)
    requires
        flushed_alone(trace, actions),
        actions.len() > 0,
        flush_turn(
            trace[actions.len() - 1],
            flush_of(actions.last()),
            outcome_of(actions.last()),
        ).turn.step == Step::<E>::Return(Ok(())),
        in_queue(trace[0].entries, key, future),
    ensures
        exists|i: int|
            {
                &&& 0 <= i < actions.len()
                &&& flush_of(#[trigger] actions[i]).phase == FlushPhase::Draining(
                    DrainPhase::Waiting(key, future),
                )
                &&& outcome_of(actions[i]) matches Some(Ok(_))
            },
{
    let n = actions.len() as int;
    assert(actions[n - 1] is Flush);
    law_flush_completes_every_future(
        trace,
        actions,
        flush_of(actions.last()),
        outcome_of(actions.last()),
        key,
        future,
    );
    let i = choose|i: int| 0 <= i < n && #[trigger] completes(actions[i], key, future);
    assert(actions[i] is Flush);
    assert(outcome_of(actions[i]) is Some);
    if outcome_of(actions[i])->0 is Err {
        lemma_failed_flush_is_over(trace[i], flush_of(actions[i]), outcome_of(actions[i]));
        if i < n - 1 {
            assert(continues(trace, actions, i));
            assert(ready(trace[i + 1], actions[i + 1]));
            assert(actions[i + 1] is Flush);
        }
        assert(false);
    }
    assert(flush_of(actions[i]).phase == FlushPhase::Draining(DrainPhase::Waiting(key, future)));
}

/// A flush is over when a future that it awaited has failed, and says so.
proof fn lemma_failed_flush_is_over<E>(q: QueueView, flush: Flush, outcome: Option<Result<(), E>>)
    requires
        flush.phase is Draining,
        flush.phase->0 is Waiting,
        outcome is Some,
        outcome->0 is Err,
    ensures
        flush_turn(q, flush, outcome).phase is Done,
        flush_turn(q, flush, outcome).turn.step != Step::<E>::Return(Ok(())),
{
}

/// While an operation that enqueues a future holds the lock and awaits the
/// earlier future of its key, nobody puts another future under that key.
pub proof fn law_awaited_key_stays_free<E>(q: QueueView, op: Enqueue, action: Action<E>)
    requires
        keys_differ(q.entries),
        ready(q, action),
        op.phase is Waiting,
        op.wf(q),
        op.has_key(q),
        match action {
            Action::Enqueue(other, _) => other.who != op.who,
            Action::Flush(flush, _) => flush.who != op.who,
            _ => true,
        },
    ensures
        op.wf(after(q, action)),
        op.has_key(after(q, action)),
{
    lemma_after(q, action, op.key);
    lemma_adds_nothing(q, action, op.key);
    if has_entry(after(q, action).entries, op.key) && completes(
        action,
        op.key,
        q.entries[place(q.entries, op.key)].1.0,
    ) {
        lemma_completed_leaves(q, action, op.key);
    }
}

/// While the lock is taken by another operation, nothing that happens adds a
/// key.
proof fn lemma_adds_nothing<E>(q: QueueView, action: Action<E>, key: Key)
    requires
        keys_differ(q.entries),
        ready(q, action),
        q.flush_lock is Some,
        !(action matches Action::Enqueue(op, _) && op.phase is Waiting),
    ensures
        has_entry(after(q, action).entries, key) ==> has_entry(q.entries, key),
{
    match action {
        Action::Enqueue(op, outcome) => {
            if let EnqueuePhase::Draining(phase) = op.phase {
                lemma_drain(q, q.hard_limit, phase, outcome, key);
            }
        },
        Action::Wait(op, outcome) => {
            law_waiting_adds_no_futures(q, op, outcome);
        },
        Action::Flush(op, outcome) => {
            if let FlushPhase::Draining(phase) = op.phase {
                lemma_drain(q, 0, phase, outcome, key);
            }
        },
        Action::Drain(op, outcome) => {
            lemma_drain(q, op.limit, op.phase, outcome, key);
        },
        Action::Complete(completed) => {
            lemma_without(q.entries, completed, key);
        },
    }
}

/// The entry of an awaited future is gone once the future is completed, unless
/// another one is added in the same turn.
proof fn lemma_completed_leaves<E>(q: QueueView, action: Action<E>, key: Key)
    requires
        keys_differ(q.entries),
        ready(q, action),
        busy(q.entries, key),
        completes(action, key, q.entries[place(q.entries, key)].1.0),
        !(action matches Action::Enqueue(op, _) && op.phase is Waiting),
    ensures
        !has_entry(after(q, action).entries, key),
{
    let future = q.entries[place(q.entries, key)].1.0;
    lemma_released(q.entries, key, future, key);
    let rest = q.with(released(q.entries, key, future));
    match action {
        Action::Enqueue(op, outcome) => {
            lemma_check::<E>(rest, q.hard_limit, true, key);
        },
        Action::Flush(op, outcome) => {
            lemma_check::<E>(rest, 0, true, key);
        },
        Action::Drain(op, outcome) => {
            lemma_check::<E>(rest, op.limit, true, key);
        },
        Action::Wait(op, outcome) => {},
        Action::Complete(completed) => {
            lemma_without(q.entries, completed, key);
        },
    }
}

/// No wakeup is missed: what happens without a notice neither frees the lock
/// nor takes an awaited future out of the queue.
pub proof fn law_wakeups_are_announced<E>(q: QueueView, action: Action<E>, key: Key)
    requires
        keys_differ(q.entries),
        ready(q, action),
        !notifies(q, action),
    ensures
        q.flush_lock is Some ==> after(q, action).flush_lock is Some,
        busy(q.entries, key) ==> busy(after(q, action).entries, key),
{
    lemma_after(q, action, key);
}

/// An operation that sleeps would sleep again as long as the lock stays taken
/// and the future that is awaited under its key stays in the queue.
pub proof fn law_sleepers_may_sleep_on<E>(
    q: QueueView,
    later: QueueView,
    enqueue: Enqueue,
    wait: Wait,
    flush: Flush,
)
    requires
        q.flush_lock is Some ==> later.flush_lock is Some,
        busy(q.entries, enqueue.key) ==> busy(later.entries, enqueue.key),
        busy(q.entries, wait.key) ==> busy(later.entries, wait.key),
    ensures
        enqueue.phase is Locking && enqueue_turn(
            q,
            enqueue,
            None::<Result<(), E>>,
        ).turn.step is Sleep ==> enqueue_turn(
            later,
            enqueue,
            None::<Result<(), E>>,
        ).turn.step is Sleep,
        wait.phase is Starting && wait_turn(q, wait, None::<Result<(), E>>).turn.step is Sleep
            ==> wait_turn(later, wait, None::<Result<(), E>>).turn.step is Sleep,
        flush.phase is Locking && flush_turn(q, flush, None::<Result<(), E>>).turn.step is Sleep
            ==> flush_turn(later, flush, None::<Result<(), E>>).turn.step is Sleep,
{
}

/// No two entries have the same key exactly if the keys at any two places
/// differ.
pub proof fn law_keys_differ_pairwise(entries: Entries)
    ensures
        keys_differ(entries) <==> forall|i: int, j: int|
            0 <= i < entries.len() && 0 <= j < entries.len() && i != j ==> (
            #[trigger] entries[i]).0 != (#[trigger] entries[j]).0,
{
    if keys_differ(entries) {
        assert forall|i: int, j: int|
            0 <= i < entries.len() && 0 <= j < entries.len() && i != j implies (
        #[trigger] entries[i]).0 != (#[trigger] entries[j]).0 by {
            if j < i {
                assert(entries[j].0 != entries[i].0);
            }
        }
    }
}

/// What is said of a key is what its entry says, wherever the entry is.
pub proof fn law_an_entry_speaks_for_its_key(entries: Entries, i: int, future: u64)
    requires
        keys_differ(entries),
        0 <= i < entries.len(),
    ensures
        ({
            let (key, (stored, taken)) = entries[i];
            &&& has_entry(entries, key)
            &&& place(entries, key) == i
            &&& idle(entries, key) == if taken {
                None
            } else {
                Some(stored)
            }
            &&& busy(entries, key) == taken
            &&& in_queue(entries, key, future) == (stored == future)
            &&& without(entries, key) == entries.remove(i)
            &&& awaited(entries, i) == entries.update(i, (key, (stored, true)))
            &&& released(entries, key, future) == if stored == future && taken {
                entries.remove(i)
            } else {
                entries
            }
        }),
{
    lemma_place(entries, entries[i].0, i);
}

/// A key that no entry has is not in the queue, and a future that is stored
/// under it comes last.
pub proof fn law_a_key_without_an_entry(entries: Entries, key: Key, value: (u64, bool), future: u64)
    requires
        forall|i: int| 0 <= i < entries.len() ==> (#[trigger] entries[i]).0 != key,
    ensures
        !has_entry(entries, key),
        idle(entries, key) is None,
        !busy(entries, key),
        !in_queue(entries, key, future),
        without(entries, key) == entries,
        released(entries, key, future) == entries,
        put(entries, key, value) == entries.push((key, value)),
{
}

/// A worker that looks for a future goes through the entries by their places,
/// one further with each look, from the first one again after the last. It
/// awaits a future that nobody awaits, and looks again if somebody does.
pub proof fn law_workers_go_through_the_entries<E>(q: QueueView, limit: usize, i: int)
    requires
        q.entries.len() > 0,
        i == (q.next_index as usize) as int % q.entries.len() as int,
    ensures
        ({
            let (key, (future, taken)) = q.entries[i];
            let end = drain_turn(q, limit, DrainPhase::Picking, None::<Result<(), E>>);
            &&& end.queue == (QueueView {
                entries: q.entries.update(i, (key, (future, true))),
                soft_limit: q.soft_limit,
                hard_limit: q.hard_limit,
                flush_lock: q.flush_lock,
                next_index: if q.next_index == u64::MAX {
                    0
                } else {
                    (q.next_index + 1) as u64
                },
            })
            &&& !taken ==> end.phase == DrainPhase::Waiting(key, future) && end.turn.step
                == Step::<E>::Await(future)
            &&& taken ==> end.phase is Picking && end.turn.step is Retry
            &&& !end.turn.notify
            &&& q.entries.len() > limit ==> drain_turn(
                q,
                limit,
                DrainPhase::Checking,
                None::<Result<(), E>>,
            ) == end
        }),
{
}

/// A worker that checks and finds at most as many entries as its limit, or that
/// looks for a future and finds no entry, returns and changes nothing.
pub proof fn law_workers_stop_at_the_limit<E>(q: QueueView, limit: usize)
    ensures
        q.entries.len() <= limit ==> drain_turn(
            q,
            limit,
            DrainPhase::Checking,
            None::<Result<(), E>>,
        ) == (Outcome {
            queue: q,
            phase: DrainPhase::Done,
            turn: Turn { step: Step::<E>::Return(Ok(())), notify: false },
        }),
        q.entries.len() == 0 ==> drain_turn(q, limit, DrainPhase::Picking, None::<Result<(), E>>)
            == (Outcome {
            queue: q,
            phase: DrainPhase::Done,
            turn: Turn { step: Step::<E>::Return(Ok(())), notify: false },
        }),
{
}

/// A worker whose future is completed takes its entry out, if it is still
/// there. It returns an error at once, and checks again otherwise; sleepers are
/// woken either way.
pub proof fn law_workers_go_on_after_a_future<E>(
    q: QueueView,
    limit: usize,
    i: int,
    result: Result<(), E>,
)
    requires
        keys_differ(q.entries),
        0 <= i < q.entries.len(),
        q.entries[i].1.1,
    ensures
        ({
            let (key, (future, _)) = q.entries[i];
            let rest = QueueView {
                entries: q.entries.remove(i),
                soft_limit: q.soft_limit,
                hard_limit: q.hard_limit,
                flush_lock: q.flush_lock,
                next_index: q.next_index,
            };
            let end = drain_turn(q, limit, DrainPhase::Waiting(key, future), Some(result));
            let again = drain_turn(rest, limit, DrainPhase::Checking, None::<Result<(), E>>);
            &&& end.turn.notify
            &&& result matches Err(e) ==> end.queue == rest && end.phase is Done && end.turn.step
                == Step::<E>::Return(Err(e))
            &&& result is Ok ==> end.queue == again.queue && end.phase == again.phase
                && end.turn.step == again.turn.step
        }),
{
    lemma_place(q.entries, q.entries[i].0, i);
}

/// A worker, or an operation that enqueues a future, whose awaited future has
/// lost its entry takes no other entry out.
pub proof fn law_late_completions_take_nothing<E>(
    q: QueueView,
    limit: usize,
    op: Enqueue,
    key: Key,
    future: u64,
    e: E,
)
    requires
        keys_differ(q.entries),
        forall|j: int| 0 <= j < q.entries.len() ==> #[trigger] q.entries[j] != (key, (future, true)),
    ensures
        ({
            let end = drain_turn(
                q,
                limit,
                DrainPhase::Waiting(key, future),
                Some(Result::<(), E>::Ok(())),
            );
            let again = drain_turn(q, limit, DrainPhase::Checking, None::<Result<(), E>>);
            &&& end.queue == again.queue
            &&& end.phase == again.phase
            &&& end.turn.step == again.turn.step
            &&& end.turn.notify
        }),
        drain_turn(q, limit, DrainPhase::Waiting(key, future), Some(Result::<(), E>::Err(e))).queue
            == q,
        op.phase == EnqueuePhase::Waiting(future) && op.key == key ==> enqueue_turn(
            q,
            op,
            Some(Result::<(), E>::Err(e)),
        ).queue.entries == q.entries,
{
    if has_entry(q.entries, key) {
        let p = place(q.entries, key);
        assert(0 <= p < q.entries.len() && q.entries[p].0 == key);
        assert(q.entries[p] == (q.entries[p].0, (q.entries[p].1.0, q.entries[p].1.1)));
    }
}

/// Whoever waits for a key with an entry awaits its future, or sleeps if
/// somebody else awaits it. Without an entry there is nothing to wait for.
pub proof fn law_wait_follows_the_entry<E>(q: QueueView, op: Wait, i: int)
    requires
        keys_differ(q.entries),
        op.phase is Starting,
    ensures
        0 <= i < q.entries.len() && q.entries[i].0 == op.key && q.entries[i].1.1 ==> wait_turn(
            q,
            op,
            None::<Result<(), E>>,
        ) == (Outcome {
            queue: q,
            phase: WaitPhase::Starting,
            turn: Turn { step: Step::<E>::Sleep, notify: false },
        }),
        0 <= i < q.entries.len() && q.entries[i].0 == op.key && !q.entries[i].1.1 ==> wait_turn(
            q,
            op,
            None::<Result<(), E>>,
        ) == (Outcome {
            queue: QueueView {
                entries: q.entries.update(i, (op.key, (q.entries[i].1.0, true))),
                soft_limit: q.soft_limit,
                hard_limit: q.hard_limit,
                flush_lock: q.flush_lock,
                next_index: q.next_index,
            },
            phase: WaitPhase::Waiting(q.entries[i].1.0),
            turn: Turn { step: Step::<E>::Await(q.entries[i].1.0), notify: false },
        }),
        (forall|j: int| 0 <= j < q.entries.len() ==> (#[trigger] q.entries[j]).0 != op.key)
            ==> wait_turn(q, op, None::<Result<(), E>>) == (Outcome {
            queue: q,
            phase: WaitPhase::Done,
            turn: Turn { step: Step::<E>::Return(Ok(())), notify: false },
        }),
{
    if 0 <= i < q.entries.len() && q.entries[i].0 == op.key {
        lemma_place(q.entries, op.key, i);
    }
}

/// Whoever awaited a future returns its result and takes its entry out, if it
/// is still there, and no other one.
pub proof fn law_wait_ends_with_the_future<E>(
    q: QueueView,
    op: Wait,
    i: int,
    future: u64,
    result: Result<(), E>,
)
    requires
        keys_differ(q.entries),
        op.phase == WaitPhase::Waiting(future),
    ensures
        ({
            let end = wait_turn(q, op, Some(result));
            &&& end.phase is Done
            &&& end.turn == (Turn { step: Step::Return(result), notify: true })
            &&& end.queue.soft_limit == q.soft_limit
            &&& end.queue.hard_limit == q.hard_limit
            &&& end.queue.flush_lock == q.flush_lock
            &&& end.queue.next_index == q.next_index
            &&& 0 <= i < q.entries.len() && q.entries[i] == (op.key, (future, true))
                ==> end.queue.entries == q.entries.remove(i)
            &&& (forall|j: int|
                0 <= j < q.entries.len() ==> #[trigger] q.entries[j] != (op.key, (future, true)))
                ==> end.queue.entries == q.entries
        }),
{
    if 0 <= i < q.entries.len() && q.entries[i] == (op.key, (future, true)) {
        lemma_place(q.entries, op.key, i);
    }
    if has_entry(q.entries, op.key) {
        let p = place(q.entries, op.key);
        assert(0 <= p < q.entries.len() && q.entries[p].0 == op.key);
        assert(q.entries[p] == (q.entries[p].0, (q.entries[p].1.0, q.entries[p].1.1)));
    }
}

/// An operation that begins to enqueue sleeps while the lock is taken or
/// somebody awaits the future of its key. It takes and awaits an earlier future
/// that nobody awaits, with the lock in its hands. Without an earlier future it
/// stores its own behind all others, leaves the lock free, returns if there
/// are at most as many entries as the hard limit, and does a worker's turn if
/// there are more.
pub proof fn law_enqueue_follows_the_entry<E>(q: QueueView, op: Enqueue, i: int)
    requires
        keys_differ(q.entries),
        op.phase is Locking,
    ensures
        ({
            let end = enqueue_turn(q, op, None::<Result<(), E>>);
            let found = 0 <= i < q.entries.len() && q.entries[i].0 == op.key;
            let free = q.flush_lock is None;
            let new = forall|j: int|
                0 <= j < q.entries.len() ==> (#[trigger] q.entries[j]).0 != op.key;
            let full = QueueView {
                entries: q.entries.push((op.key, (op.future, false))),
                soft_limit: q.soft_limit,
                hard_limit: q.hard_limit,
                flush_lock: None,
                next_index: q.next_index,
            };
            let help = drain_turn(
                full,
                q.hard_limit,
                DrainPhase::Checking,
                None::<Result<(), E>>,
            );
            &&& !free || (found && q.entries[i].1.1) ==> end == (Outcome {
                queue: q,
                phase: EnqueuePhase::Locking,
                turn: Turn { step: Step::<E>::Sleep, notify: false },
            })
            &&& free && found && !q.entries[i].1.1 ==> end == (Outcome {
                queue: QueueView {
                    entries: q.entries.update(i, (op.key, (q.entries[i].1.0, true))),
                    soft_limit: q.soft_limit,
                    hard_limit: q.hard_limit,
                    flush_lock: Some(op.who),
                    next_index: q.next_index,
                },
                phase: EnqueuePhase::Waiting(q.entries[i].1.0),
                turn: Turn { step: Step::<E>::Await(q.entries[i].1.0), notify: false },
            })
            &&& free && new && q.entries.len() < q.hard_limit ==> end == (Outcome {
                queue: full,
                phase: EnqueuePhase::Done,
                turn: Turn { step: Step::<E>::Return(Ok(())), notify: false },
            })
            &&& free && new && q.entries.len() >= q.hard_limit ==> end.queue == help.queue
                && end.turn == help.turn && end.phase == EnqueuePhase::Draining(help.phase)
        }),
{
    if 0 <= i < q.entries.len() && q.entries[i].0 == op.key {
        lemma_place(q.entries, op.key, i);
    }
    assert(q.lock(op.who).with(q.entries.push((op.key, (op.future, false)))).unlock().entries
        =~= q.entries.push((op.key, (op.future, false))));
}

/// An operation whose earlier future is completed takes that one out. It
/// returns an error, with the lock free; otherwise its own future is stored
/// behind all others, as if it had begun just now and found none.
pub proof fn law_enqueue_goes_on_after_the_earlier_future<E>(
    q: QueueView,
    op: Enqueue,
    i: int,
    future: u64,
    result: Result<(), E>,
)
    requires
        keys_differ(q.entries),
        op.phase == EnqueuePhase::Waiting(future),
        q.flush_lock == Some(op.who),
        0 <= i < q.entries.len(),
        q.entries[i] == (op.key, (future, true)),
    ensures
        ({
            let end = enqueue_turn(q, op, Some(result));
            let rest = QueueView {
                entries: q.entries.remove(i),
                soft_limit: q.soft_limit,
                hard_limit: q.hard_limit,
                flush_lock: None,
                next_index: q.next_index,
            };
            let begun = enqueue_turn(
                rest,
                Enqueue { phase: EnqueuePhase::Locking, ..op },
                None::<Result<(), E>>,
            );
            &&& end.turn.notify
            &&& result matches Err(e) ==> end.queue == rest && end.phase is Done && end.turn.step
                == Step::<E>::Return(Err(e))
            &&& result is Ok ==> end.queue == begun.queue && end.phase == begun.phase
                && end.turn.step == begun.turn.step
        }),
{
    lemma_place(q.entries, op.key, i);
    lemma_without(q.entries, op.key, op.key);
    let rest = q.with(q.entries.remove(i));
    assert(rest.unlock().lock(op.who) == rest);
}

/// An operation that has stored its future does the turns of a worker with the
/// hard limit, and is over when that one is.
pub proof fn law_enqueue_helps_like_a_worker<E>(
    q: QueueView,
    op: Enqueue,
    phase: DrainPhase,
    outcome: Option<Result<(), E>>,
)
    requires
        op.phase == EnqueuePhase::Draining(phase),
    ensures
        ({
            let end = enqueue_turn(q, op, outcome);
            let help = drain_turn(q, q.hard_limit, phase, outcome);
            &&& end.queue == help.queue
            &&& end.turn == help.turn
            &&& help.phase is Done ==> end.phase is Done
            &&& !(help.phase is Done) ==> end.phase == EnqueuePhase::Draining(help.phase)
        }),
{
}

/// A flush sleeps while the lock is taken. With the lock it does the turns of a
/// worker that lets no entry stay, and gives the lock back when that one is
/// over.
pub proof fn law_flush_empties_like_a_worker<E>(
    q: QueueView,
    op: Flush,
    phase: DrainPhase,
    outcome: Option<Result<(), E>>,
)
    ensures
        ({
            let end = flush_turn(q, op, outcome);
            let locked = QueueView {
                entries: q.entries,
                soft_limit: q.soft_limit,
                hard_limit: q.hard_limit,
                flush_lock: Some(op.who),
                next_index: q.next_index,
            };
            let first = drain_turn(locked, 0, DrainPhase::Checking, None::<Result<(), E>>);
            let next = drain_turn(q, 0, phase, outcome);
            &&& op.phase is Locking && q.flush_lock is Some ==> end == (Outcome {
                queue: q,
                phase: FlushPhase::Locking,
                turn: Turn { step: Step::<E>::Sleep, notify: false },
            })
            &&& op.phase is Locking && q.flush_lock is None ==> {
                &&& end.turn.step == first.turn.step
                &&& end.queue.entries == first.queue.entries
                &&& end.queue.soft_limit == q.soft_limit
                &&& end.queue.hard_limit == q.hard_limit
                &&& end.queue.next_index == first.queue.next_index
                &&& first.phase is Done ==> end.phase is Done && end.queue.flush_lock is None
                &&& !(first.phase is Done) ==> end.phase == FlushPhase::Draining(first.phase)
                    && end.queue.flush_lock == first.queue.flush_lock
                &&& end.turn.notify == first.turn.notify
            }
            &&& op.phase == FlushPhase::Draining(phase) ==> {
                &&& end.turn.step == next.turn.step
                &&& end.queue.entries == next.queue.entries
                &&& end.queue.soft_limit == q.soft_limit
                &&& end.queue.hard_limit == q.hard_limit
                &&& end.queue.next_index == next.queue.next_index
                &&& next.phase is Done ==> end.phase is Done && end.queue.flush_lock is None
                &&& !(next.phase is Done) ==> end.phase == FlushPhase::Draining(next.phase)
                    && end.queue.flush_lock == next.queue.flush_lock
                &&& end.turn.notify == (next.turn.notify || next.phase is Done)
            }
        }),
{
}

/// The help after a completion does the turns of its worker: it awaits what the
/// worker awaits and is over when the worker returns.
pub proof fn law_help_does_what_its_worker_does<E>(
    q: QueueView,
    op: Help,
    outcome: Option<Result<(), E>>,
)
    requires
        op.drain.phase.ready(outcome),
    ensures
        ({
            let end = help_turn(q, op, outcome);
            let worker = drain_turn(q, op.drain.limit, op.drain.phase, outcome);
            &&& end.queue == worker.queue
            &&& end.phase == worker.phase
            &&& end.turn.notify == worker.turn.notify
            &&& worker.turn.step matches Step::Await(future) ==> end.turn.step == HelpStep::Await(
                future,
            )
            &&& worker.turn.step is Retry ==> end.turn.step is Retry
            &&& worker.turn.step matches Step::Return(Ok(_)) ==> end.turn.step is Done
            &&& worker.turn.step matches Step::Return(Err(_)) ==> end.turn.step is Panic
        }),
{
}

/// The report of a completion takes the entry of the key out, if there is one,
/// gives its future back if nobody awaits it, and wakes sleepers.
pub proof fn law_completion_takes_the_entry<E>(q: QueueView, i: int)
    requires
        keys_differ(q.entries),
        0 <= i < q.entries.len(),
    ensures
        ({
            let (key, (future, taken)) = q.entries[i];
            &&& after(q, Action::<E>::Complete(key)) == (QueueView {
                entries: q.entries.remove(i),
                soft_limit: q.soft_limit,
                hard_limit: q.hard_limit,
                flush_lock: q.flush_lock,
                next_index: q.next_index,
            })
            &&& completion(q, key).taken == if taken {
                None
            } else {
                Some(future)
            }
            &&& completion(q, key).notify
        }),
{
    lemma_place(q.entries, q.entries[i].0, i);
}

/// A new operation can be given its first turn in every queue, and one that
/// awaits a future when that one is completed.
pub proof fn law_operations_can_go_on<E>(
    q: QueueView,
    enqueue: Enqueue,
    wait: Wait,
    flush: Flush,
    drain: DrainPhase,
    outcome: Option<Result<(), E>>,
)
    ensures
        enqueue.phase is Locking ==> enqueue.wf(q) && (enqueue.ready(outcome) <==> outcome is None),
        enqueue.phase is Waiting ==> (enqueue.wf(q) <==> q.flush_lock == Some(enqueue.who)) && (
        enqueue.ready(outcome) <==> outcome is Some),
        flush.phase is Locking ==> flush.wf(q) && (flush.ready(outcome) <==> outcome is None),
        flush.phase is Draining ==> (flush.wf(q) <==> q.flush_lock == Some(flush.who)),
        wait.phase is Starting ==> (wait.ready(outcome) <==> outcome is None),
        wait.phase is Waiting ==> (wait.ready(outcome) <==> outcome is Some),
        drain is Checking || drain is Picking ==> (drain.ready(outcome) <==> outcome is None),
        drain is Waiting ==> (drain.ready(outcome) <==> outcome is Some),
        enqueue.phase == EnqueuePhase::Draining(drain) ==> enqueue.wf(q) && enqueue.ready(outcome)
            == drain.ready(outcome),
        flush.phase == FlushPhase::Draining(drain) ==> flush.ready(outcome) == drain.ready(outcome),
{
}

} // verus!
