//! A block of digits right of the head, and the tapes of a walk over the
//! block and back that turns each of its digits into the other one.
//!
//! The block is the run of symbols with which the right side begins, up to
//! its first blank. The walk starts on a blank left of the block.

use vstd::prelude::*;
use crate::list::{backwards, cell, dropped, popped, pushed};
use crate::symbol::S;
use crate::tape::TapeView;

verus! {

/// The number of symbols with which `xs` begins before its first blank.
pub open spec fn span(xs: Seq<S>) -> nat
    decreases xs.len(),
{
    if xs.len() > 0 && xs[0] != S::B {
        1 + span(xs.drop_first())
    } else {
        0
    }
}

/// The other digit: `O` for `I` and `I` for `O`. A blank stays blank.
pub open spec fn turn(s: S) -> S {
    match s {
        S::I => S::O,
        S::O => S::I,
        S::B => S::B,
    }
}

/// The symbols of `xs`, each turned into the other digit.
pub open spec fn turned(xs: Seq<S>) -> Seq<S> {
    Seq::new(xs.len(), |i: int| turn(xs[i]))
}

/// The tape after the whole walk from tape `t`, whose head is on a blank:
/// the block right of the head is turned digit by digit, the cell that was
/// under the head holds `I`, and the head stands one cell further to the
/// left. The blank that ends the block is stored if anything is stored
/// beyond it.
pub open spec fn complemented(t: TapeView) -> TapeView {
    let m = span(t.2);
    (
        popped(t.0),
        cell(t.0, 0),
        seq![S::I] + turned(t.2.take(m as int)) + pushed(dropped(t.2, m + 1), S::B),
    )
}

/// The tape on the way to the right from tape `t`, with the head on cell `i`
/// of the block, or on the blank after the block where `i` is its length.
pub open spec fn going(t: TapeView, i: nat) -> TapeView {
    (backwards(t.2, i) + pushed(t.0, S::B), cell(t.2, i as int), dropped(t.2, i + 1))
}

/// The tape on the way back, with the first `j` digits of the block still to
/// be turned and the head on the last of them, or on the blank before the
/// block where `j` is 0. The digits after them are turned already.
pub open spec fn coming(t: TapeView, j: nat) -> TapeView {
    let m = span(t.2);
    let done = turned(t.2.subrange(j as int, m as int)) + pushed(dropped(t.2, m + 1), S::B);
    if j == 0 {
        (t.0, S::B, done)
    } else {
        (backwards(t.2, (j - 1) as nat) + pushed(t.0, S::B), t.2[j - 1], done)
    }
}

/// The cells of a block are stored and not blank; the cell after it is blank.
pub proof fn lemma_span(xs: Seq<S>)
    ensures
        span(xs) <= xs.len(),
        forall|i: int| 0 <= i < span(xs) ==> xs[i] != S::B,
        cell(xs, span(xs) as int) == S::B,
    decreases xs.len(),
{
    if xs.len() > 0 && xs[0] != S::B {
        let ys = xs.drop_first();
        lemma_span(ys);
        assert forall|i: int| 0 <= i < span(xs) implies xs[i] != S::B by {
            if i > 0 {
                assert(xs[i] == ys[i - 1]);
            }
        }
    }
}

} // verus!
