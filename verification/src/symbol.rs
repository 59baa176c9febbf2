//! The tape alphabet and the directions in which the head moves.

use vstd::prelude::*;

verus! {

/// A direction of head movement.
#[derive(Clone, Copy, Debug, PartialEq, Eq, Structural)]
pub enum D {
    /// One cell to the left.
    L,
    /// One cell to the right.
    R,
}

/// A tape symbol.
///
/// `B` is the blank: every cell that was never written holds it.
#[derive(Clone, Copy, Debug, PartialEq, Eq, Structural)]
pub enum S {
    /// The blank symbol.
    B,
    /// The mark `I`.
    I,
    /// The mark `O`.
    O,
}

impl View for S {
    type V = S;

    open spec fn view(&self) -> S {
        *self
    }
}

} // verus!
