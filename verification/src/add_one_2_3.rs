//! The machine of `add_one_2_2` over again, with single actions in its
//! entries: each of them either moves the head or writes a symbol.
//!
//! It starts on the blank left of a block of digits, walks to the block's
//! right end and comes back, turning every `I` into `O` and every `O` into
//! `I`, and puts an `I` on the blank it started from.

use vstd::prelude::*;
use crate::symbol::{D, S};
use crate::block::{coming, complemented, going, lemma_span, span, turn};
use crate::machine::{
    final_tape, find_from, halting_time, halts, halts_in, lemma_halts_in, tape_after, State, A,
};
use crate::tape::{moved_l, moved_r, written, TapeView};

verus! {

/// The control states.
#[derive(Clone, Copy, Debug, PartialEq, Eq, Structural)]
pub enum Q {
    /// Done: no entry has this state in its key.
    H,
    /// On the blank before the block.
    INIT,
    /// A digit was turned; the head moves on to the left.
    ML,
    /// Walking to the right end.
    MR,
    /// On a cell that is to be turned.
    W,
    /// The last `I` is written.
    FIN,
}

impl State for Q {
    fn same(&self, other: &Q) -> (same: bool) {
        *self == *other
    }
}

/// A transition table whose entries carry a single action.
pub type Delta = Vec<((Q, S), (Q, A))>;

/// A start state and a transition table.
pub type Program = (Q, Delta);

/// The entries of the machine's table.
pub open spec fn add_one_2_3_table() -> Seq<((Q, S), (Q, A))> {
    seq![
        ((Q::INIT, S::B), (Q::MR, A::Move(D::R))),
        ((Q::MR, S::I), (Q::MR, A::Move(D::R))),
        ((Q::MR, S::O), (Q::MR, A::Move(D::R))),
        ((Q::MR, S::B), (Q::W, A::Move(D::L))),
        ((Q::W, S::I), (Q::ML, A::Write(S::O))),
        ((Q::W, S::O), (Q::ML, A::Write(S::I))),
        ((Q::W, S::B), (Q::FIN, A::Write(S::I))),
        ((Q::ML, S::I), (Q::W, A::Move(D::L))),
        ((Q::ML, S::O), (Q::W, A::Move(D::L))),
        ((Q::FIN, S::I), (Q::H, A::Move(D::L))),
        ((Q::FIN, S::O), (Q::H, A::Move(D::L))),
    ]
}

/// The machine: it starts in `INIT`, with the table above.
pub fn add_one_2_3() -> (program: Program)
    ensures
        program.0 == Q::INIT,
        program.1@ == add_one_2_3_table(),
{
    (
        Q::INIT,
        vec![
            ((Q::INIT, S::B), (Q::MR, A::Move(D::R))),
            ((Q::MR, S::I), (Q::MR, A::Move(D::R))),
            ((Q::MR, S::O), (Q::MR, A::Move(D::R))),
            ((Q::MR, S::B), (Q::W, A::Move(D::L))),
            ((Q::W, S::I), (Q::ML, A::Write(S::O))),
            ((Q::W, S::O), (Q::ML, A::Write(S::I))),
            ((Q::W, S::B), (Q::FIN, A::Write(S::I))),
            ((Q::ML, S::I), (Q::W, A::Move(D::L))),
            ((Q::ML, S::O), (Q::W, A::Move(D::L))),
            ((Q::FIN, S::I), (Q::H, A::Move(D::L))),
            ((Q::FIN, S::O), (Q::H, A::Move(D::L))),
        ],
    )
}

/// From the way back the machine reaches its final tape: it turns the `j`
/// digits that are left, with a write and a move for each, and writes the
/// `I`.
proof fn lemma_coming(t: TapeView, j: nat)
    requires
        j <= span(t.2),
    ensures
        halts_in(add_one_2_3_table(), Q::W, coming(t, j), 2 * j + 2),
        tape_after(add_one_2_3_table(), Q::W, coming(t, j), 2 * j + 2) == complemented(t),
    decreases j,
{
    reveal_with_fuel(find_from, 12);
    lemma_span(t.2);
    if j == 0 {
        let marked = written(S::I, coming(t, 0));
        let last = moved_l(marked);
        assert(last =~~= complemented(t));
        assert(halts_in(add_one_2_3_table(), Q::H, last, 0));
        assert(tape_after(add_one_2_3_table(), Q::H, last, 0) == last);
        assert(halts_in(add_one_2_3_table(), Q::FIN, marked, 1));
        assert(tape_after(add_one_2_3_table(), Q::FIN, marked, 1) == last);
    } else {
        let turned = written(turn(t.2[j - 1]), coming(t, j));
        let next = moved_l(turned);
        assert(next =~~= coming(t, (j - 1) as nat));
        lemma_coming(t, (j - 1) as nat);
        assert(halts_in(add_one_2_3_table(), Q::ML, turned, (2 * j + 1) as nat));
        assert(tape_after(add_one_2_3_table(), Q::ML, turned, (2 * j + 1) as nat) == complemented(
            t,
        ));
    }
}

/// From the way to the right the machine reaches its final tape: it walks
/// over the rest of the block, turns round on the blank after it and comes
/// back.
proof fn lemma_going(t: TapeView, i: nat)
    requires
        i <= span(t.2),
    ensures
        halts_in(add_one_2_3_table(), Q::MR, going(t, i), (3 * span(t.2) + 3 - i) as nat),
        tape_after(add_one_2_3_table(), Q::MR, going(t, i), (3 * span(t.2) + 3 - i) as nat)
            == complemented(t),
    decreases span(t.2) - i,
{
    reveal_with_fuel(find_from, 12);
    lemma_span(t.2);
    if i == span(t.2) {
        let next = moved_l(going(t, i));
        assert(next =~~= coming(t, i));
        lemma_coming(t, i);
    } else {
        let next = moved_r(going(t, i));
        assert(next =~~= going(t, i + 1));
        lemma_going(t, i + 1);
    }
}

/// The machine halts on every tape. Started on a digit it makes no
/// transition. Started on a blank it makes four transitions and three more
/// for each digit of the block right of the head, and leaves the same tape
/// as the machine of `add_one_2_2`.
pub proof fn lemma_add_one_2_3(t: TapeView)
    ensures
        halts(add_one_2_3_table(), Q::INIT, t),
        halting_time(add_one_2_3_table(), Q::INIT, t) == if t.1 == S::B {
            3 * span(t.2) + 4
        } else {
            0
        },
        final_tape(add_one_2_3_table(), Q::INIT, t) == if t.1 == S::B {
            complemented(t)
        } else {
            t
        },
{
    reveal_with_fuel(find_from, 12);
    if t.1 == S::B {
        assert(moved_r(t) =~~= going(t, 0));
        lemma_going(t, 0);
        lemma_halts_in(add_one_2_3_table(), Q::INIT, t, 3 * span(t.2) + 4);
    } else {
        lemma_halts_in(add_one_2_3_table(), Q::INIT, t, 0);
    }
}

} // verus!
