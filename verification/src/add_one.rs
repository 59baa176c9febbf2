//! A machine that adds one to a binary number, starting with the head on the
//! number's last digit. `I` is the digit one, `O` the digit zero.
//!
//! It walks to the left and turns each `I` into `O` until it meets an `O`
//! or a blank, which it turns into `I`.

use vstd::prelude::*;
use crate::symbol::{D, S};
use crate::list::{backwards, cell, dropped};
use crate::machine::{final_tape, find_from, halts, halts_in, lemma_halts_in, tape_after, State};
use crate::tape::{moved_l, written, TapeView};

verus! {

/// The control states.
#[derive(Clone, Copy, Debug, PartialEq, Eq, Structural)]
pub enum Q {
    /// Done: no entry has this state in its key.
    H,
    /// Carrying to the left.
    M,
}

impl State for Q {
    fn same(&self, other: &Q) -> (same: bool) {
        *self == *other
    }
}

/// A transition table whose entries write a symbol and then move the head.
pub type Delta = Vec<((Q, S), (Q, S, D))>;

/// A start state and a transition table.
pub type Program = (Q, Delta);

/// The entries of the machine's table.
pub open spec fn add_one_table() -> Seq<((Q, S), (Q, S, D))> {
    seq![
        ((Q::M, S::I), (Q::M, S::O, D::L)),
        ((Q::M, S::O), (Q::H, S::I, D::L)),
        ((Q::M, S::B), (Q::H, S::I, D::L)),
    ]
}

/// The machine: it starts in `M`, with the table above.
pub fn add_one() -> (program: Program)
    ensures
        program.0 == Q::M,
        program.1@ == add_one_table(),
{
    (
        Q::M,
        vec![
            ((Q::M, S::I), (Q::M, S::O, D::L)),
            ((Q::M, S::O), (Q::H, S::I, D::L)),
            ((Q::M, S::B), (Q::H, S::I, D::L)),
        ],
    )
}

/// The number of `I`s with which `digits` begins.
pub open spec fn ones(digits: Seq<S>) -> nat
    decreases digits.len(),
{
    if digits.len() > 0 && digits[0] == S::I {
        1 + ones(digits.drop_first())
    } else {
        0
    }
}

/// `n` times the symbol `O`.
pub open spec fn zeros(n: nat) -> Seq<S> {
    Seq::new(n, |i: int| S::O)
}

/// The length of the carry on tape `t`: the number of cells, from the head
/// to the left, that hold `I` before the first one that does not.
pub open spec fn carry(t: TapeView) -> nat {
    ones(seq![t.1] + t.0)
}

/// The tape `t` after one was added to the number that ends under the head.
/// The cells of the carry hold `O`, the cell left of them holds `I`, and the
/// head stands one cell further to the left.
pub open spec fn incremented(t: TapeView) -> TapeView {
    let k = carry(t);
    (dropped(t.0, k + 1), cell(t.0, k as int), seq![S::I] + zeros(k) + t.2)
}

/// The digit that a symbol stands for: one for `I`, zero for `O` and for a
/// blank.
pub open spec fn bit(s: S) -> nat {
    if s == S::I {
        1
    } else {
        0
    }
}

/// The number that `digits` spell in binary, the last digit first.
pub open spec fn value(digits: Seq<S>) -> nat
    decreases digits.len(),
{
    if digits.len() == 0 {
        0
    } else {
        bit(digits[0]) + 2 * value(digits.drop_first())
    }
}

/// The number on tape `t` whose last digit stands `p` cells right of the
/// head: the stored cells from there to the left spell it.
pub open spec fn number(t: TapeView, p: nat) -> nat
    recommends
        p <= t.2.len(),
{
    value(backwards(t.2, p) + seq![t.1] + t.0)
}

/// On every tape the machine halts, after one transition more than the
/// carry is long, on the tape with the number incremented.
pub proof fn lemma_add_one_run(t: TapeView)
    ensures
        halts_in(add_one_table(), Q::M, t, carry(t) + 1),
        tape_after(add_one_table(), Q::M, t, carry(t) + 1) == incremented(t),
    decreases carry(t),
{
    reveal_with_fuel(find_from, 4);
    assert((seq![t.1] + t.0).drop_first() =~= t.0);
    if t.1 == S::I {
        let next = moved_l(written(S::O, t));
        assert(carry(next) == ones(t.0)) by {
            if t.0.len() > 0 {
                assert(seq![next.1] + next.0 =~= t.0);
            }
        }
        lemma_add_one_run(next);
        assert(incremented(next) =~~= incremented(t));
    } else {
        let last = moved_l(written(S::I, t));
        assert(last =~~= incremented(t));
        assert(halts_in(add_one_table(), Q::H, last, 0));
        assert(tape_after(add_one_table(), Q::H, last, 0) == last);
    }
}

/// The machine halts on every tape, and the tape on which it halts is the
/// one with the number incremented.
pub proof fn lemma_add_one(t: TapeView)
    ensures
        halts(add_one_table(), Q::M, t),
        final_tape(add_one_table(), Q::M, t) == incremented(t),
{
    lemma_add_one_run(t);
    lemma_halts_in(add_one_table(), Q::M, t, carry(t) + 1);
}

/// Turning the `I`s at the front of `digits` into `O` and the cell after
/// them into `I` adds one to the number that the digits spell.
proof fn lemma_value_incremented(digits: Seq<S>)
    ensures
        value(
            zeros(ones(digits)) + seq![S::I] + seq![cell(digits, (ones(digits) + 1) as int)] + dropped(
                digits,
                ones(digits) + 2,
            ),
        ) == value(digits) + 1,
    decreases digits.len(),
{
    let k = ones(digits);
    let after = zeros(k) + seq![S::I] + seq![cell(digits, (k + 1) as int)] + dropped(digits, k + 2);
    if digits.len() > 0 && digits[0] == S::I {
        let rest = digits.drop_first();
        let j = ones(rest);
        lemma_value_incremented(rest);
        assert(after.drop_first() =~= zeros(j) + seq![S::I] + seq![cell(rest, (j + 1) as int)]
            + dropped(rest, j + 2));
    } else {
        let higher = seq![cell(digits, 1)] + dropped(digits, 2);
        assert(after.drop_first() =~= higher);
        if digits.len() > 1 {
            assert(higher =~= digits.drop_first());
        } else {
            assert(higher.drop_first() =~= Seq::<S>::empty());
            assert(value(Seq::<S>::empty()) == 0);
            assert(value(higher) == 0);
            if digits.len() == 1 {
                assert(digits.drop_first() =~= Seq::<S>::empty());
            }
        }
    }
}

/// The machine adds one: the number that ended under the head of `t` is one
/// larger on the tape that the machine leaves, where it ends as many cells
/// right of the head as the machine made transitions.
pub proof fn lemma_add_one_adds_one(t: TapeView)
    ensures
        number(incremented(t), carry(t) + 1) == number(t, 0) + 1,
{
    let k = carry(t);
    let digits = seq![t.1] + t.0;
    let after = incremented(t);
    lemma_value_incremented(digits);
    assert(backwards(after.2, k + 1) + seq![after.1] + after.0 =~= zeros(k) + seq![S::I] + seq![
        cell(digits, (k + 1) as int),
    ] + dropped(digits, k + 2));
}

} // verus!
