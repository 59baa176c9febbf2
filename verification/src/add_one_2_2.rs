//! A machine that starts on the blank left of a block of digits, walks to
//! the block's right end and comes back, turning every `I` into `O` and every
//! `O` into `I`, and puts an `I` on the blank it started from.
//!
//! On a block of `I`s this adds one to the binary number that the block
//! spells.

use vstd::prelude::*;
use crate::symbol::{D, S};
use crate::block::{coming, complemented, going, lemma_span, span, turn};
use crate::machine::{
    final_tape, find_from, halting_time, halts, halts_in, lemma_halts_in, tape_after, State,
};
use crate::tape::{moved_l, moved_r, written, TapeView};

verus! {

/// The control states.
#[derive(Clone, Copy, Debug, PartialEq, Eq, Structural)]
pub enum Q {
    /// Done: no entry has this state in its key.
    H,
    /// On the blank before the block.
    INIT,
    /// Coming back to the left.
    ML,
    /// Walking to the right end.
    MR,
}

impl State for Q {
    fn same(&self, other: &Q) -> (same: bool) {
        *self == *other
    }
}

/// A transition table whose entries write a symbol and then move the head.
pub type Delta = Vec<((Q, S), (Q, S, D))>;

/// A start state and a transition table.
pub type Program = (Q, Delta);

/// The entries of the machine's table.
pub open spec fn add_one_2_2_table() -> Seq<((Q, S), (Q, S, D))> {
    seq![
        ((Q::INIT, S::B), (Q::MR, S::B, D::R)),
        ((Q::MR, S::I), (Q::MR, S::I, D::R)),
        ((Q::MR, S::O), (Q::MR, S::O, D::R)),
        ((Q::MR, S::B), (Q::ML, S::B, D::L)),
        ((Q::ML, S::I), (Q::ML, S::O, D::L)),
        ((Q::ML, S::O), (Q::ML, S::I, D::L)),
        ((Q::ML, S::B), (Q::H, S::I, D::L)),
    ]
}

/// The machine: it starts in `INIT`, with the table above.
pub fn add_one_2_2() -> (program: Program)
    ensures
        program.0 == Q::INIT,
        program.1@ == add_one_2_2_table(),
{
    (
        Q::INIT,
        vec![
            ((Q::INIT, S::B), (Q::MR, S::B, D::R)),
            ((Q::MR, S::I), (Q::MR, S::I, D::R)),
            ((Q::MR, S::O), (Q::MR, S::O, D::R)),
            ((Q::MR, S::B), (Q::ML, S::B, D::L)),
            ((Q::ML, S::I), (Q::ML, S::O, D::L)),
            ((Q::ML, S::O), (Q::ML, S::I, D::L)),
            ((Q::ML, S::B), (Q::H, S::I, D::L)),
        ],
    )
}

/// From the way back the machine reaches its final tape: it turns the `j`
/// digits that are left and writes the `I`.
proof fn lemma_coming(t: TapeView, j: nat)
    requires
        j <= span(t.2),
    ensures
        halts_in(add_one_2_2_table(), Q::ML, coming(t, j), j + 1),
        tape_after(add_one_2_2_table(), Q::ML, coming(t, j), j + 1) == complemented(t),
    decreases j,
{
    reveal_with_fuel(find_from, 8);
    lemma_span(t.2);
    if j == 0 {
        let last = moved_l(written(S::I, coming(t, 0)));
        assert(last =~~= complemented(t));
        assert(halts_in(add_one_2_2_table(), Q::H, last, 0));
        assert(tape_after(add_one_2_2_table(), Q::H, last, 0) == last);
    } else {
        let next = moved_l(written(turn(t.2[j - 1]), coming(t, j)));
        assert(next =~~= coming(t, (j - 1) as nat));
        lemma_coming(t, (j - 1) as nat);
    }
}

/// From the way to the right the machine reaches its final tape: it walks
/// over the rest of the block, turns round on the blank after it and comes
/// back.
proof fn lemma_going(t: TapeView, i: nat)
    requires
        i <= span(t.2),
    ensures
        halts_in(add_one_2_2_table(), Q::MR, going(t, i), (2 * span(t.2) + 2 - i) as nat),
        tape_after(add_one_2_2_table(), Q::MR, going(t, i), (2 * span(t.2) + 2 - i) as nat)
            == complemented(t),
    decreases span(t.2) - i,
{
    reveal_with_fuel(find_from, 8);
    lemma_span(t.2);
    if i == span(t.2) {
        let next = moved_l(going(t, i));
        assert(next =~~= coming(t, i));
        lemma_coming(t, i);
    } else {
        let next = moved_r(going(t, i));
        assert(next =~~= going(t, i + 1));
        lemma_going(t, i + 1);
    }
}

/// The machine halts on every tape. Started on a digit it makes no
/// transition. Started on a blank it makes three transitions and two more
/// for each digit of the block right of the head, and leaves the tape with
/// the block turned.
pub proof fn lemma_add_one_2_2(t: TapeView)
    ensures
        halts(add_one_2_2_table(), Q::INIT, t),
        halting_time(add_one_2_2_table(), Q::INIT, t) == if t.1 == S::B {
            2 * span(t.2) + 3
        } else {
            0
        },
        final_tape(add_one_2_2_table(), Q::INIT, t) == if t.1 == S::B {
            complemented(t)
        } else {
            t
        },
{
    reveal_with_fuel(find_from, 8);
    if t.1 == S::B {
        assert(moved_r(t) =~~= going(t, 0));
        lemma_going(t, 0);
        lemma_halts_in(add_one_2_2_table(), Q::INIT, t, 2 * span(t.2) + 3);
    } else {
        lemma_halts_in(add_one_2_2_table(), Q::INIT, t, 0);
    }
}

} // verus!
