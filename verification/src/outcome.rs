//! The outcome of a poll.
use vstd::prelude::*;

verus! {

/// What a poll of some asynchronous work found.
#[derive(PartialEq, Eq, Debug)]
pub enum Poll<T> {
    /// The work is done, with this value.
    Ready(T),
    /// The work is still under way; the waker handed to the poll will be woken.
    Pending,
}

/// The kind of an I/O error, as the number by which both sides know it.
#[derive(Clone, Copy, PartialEq, Eq, Structural, Debug)]
pub struct ErrorKind {
    pub code: u8,
}

} // verus!
