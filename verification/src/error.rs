//! The ways in which an edit can be refused.

use vstd::prelude::*;

verus! {

/// Why an operation left the state unchanged. Every refusal is local: the
/// caller may go on with the next edit.
#[derive(Clone, Copy, Debug, PartialEq, Eq, Structural, Hash)]
pub enum PenError {
    /// A curve or group of that identity does not exist.
    UnknownId,
    /// An endpoint that was to be latched already holds a latch, or the two
    /// endpoints are one and the same.
    AlreadyLatched,
    /// The two endpoints are not latched to each other.
    NotLatched,
    /// The curves do not make up exactly one chain.
    NotFullyConnected,
    /// One of the curves already belongs to a group.
    AlreadyGrouped,
    /// Nothing is left to undo.
    HistoryAtBottom,
    /// Nothing is left to redo.
    HistoryAtTop,
}

} // verus!
