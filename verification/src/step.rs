//! The protocol between a queue and the runtime that drives it.
//!
//! A queue knows a future by a number only. An operation on a queue runs in
//! turns: each turn ends with a [`Step`] that the runtime has to perform before
//! it gives the operation its next turn.

use vstd::prelude::*;

verus! {

/// What a future is stored under: a storage class, a disk of that class, and
/// a block on that disk.
pub type Key = (u8, u16, u64);

/// What the runtime has to do next for an operation.
pub enum Step<E> {
    /// Run this future to its end; the next turn takes its result.
    Await(u64),
    /// Block until another turn notifies.
    Sleep,
    /// Let others go on, then give the operation another turn.
    Retry,
    /// The operation is over.
    Return(Result<(), E>),
}

/// The end of a turn.
pub struct Turn<E> {
    /// What comes next for this operation.
    pub step: Step<E>,
    /// Whether sleeping operations have to be woken.
    pub notify: bool,
}

/// The end of a completion that was reported from outside.
pub struct Completion {
    /// The future that nobody has to await any more, if nobody does.
    pub taken: Option<u64>,
    /// Whether sleeping operations have to be woken.
    pub notify: bool,
}

} // verus!
