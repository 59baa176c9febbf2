//! The tape: the cells left of the head, the symbol under the head, and the
//! cells right of it.

use vstd::prelude::*;
use crate::symbol::{D, S};
use crate::list::{
    canon, cell, lemma_canon, lemma_canon_commutes, lemma_same_cells_same_canon,
    lemma_trimmed_unique, popped, pushed, same_cells, trimmed, List,
};

verus! {

/// A tape: its left side, the symbol under the head, its right side. Each
/// side has the cell next to the head in front.
pub type Tape = (List, S, List);

/// What a tape stores: the symbols of its left side, the symbol under the
/// head, the symbols of its right side, each side nearest to the head first.
pub type TapeView = (Seq<S>, S, Seq<S>);

/// The symbol at position `i` of the unbounded tape, counted from the head:
/// position 0 is under the head, negative positions lie to its left.
pub open spec fn at(t: TapeView, i: int) -> S {
    if i == 0 {
        t.1
    } else if i > 0 {
        cell(t.2, i - 1)
    } else {
        cell(t.0, -i - 1)
    }
}

/// Neither side stores a blank that could as well be absent.
pub open spec fn canonical(t: TapeView) -> bool {
    trimmed(t.0) && trimmed(t.2)
}

/// Two tapes hold the same symbol at every position.
pub open spec fn same_tape(a: TapeView, b: TapeView) -> bool {
    forall|i: int| at(a, i) == at(b, i)
}

/// The canonical form of a tape: each side in its canonical form.
pub open spec fn normal(t: TapeView) -> TapeView {
    (canon(t.0), t.1, canon(t.2))
}

/// The tape after the head moved one cell to the left.
pub open spec fn moved_l(t: TapeView) -> TapeView {
    (popped(t.0), cell(t.0, 0), pushed(t.2, t.1))
}

/// The tape after the head moved one cell to the right.
pub open spec fn moved_r(t: TapeView) -> TapeView {
    (pushed(t.0, t.1), cell(t.2, 0), popped(t.2))
}

/// The tape after the head moved one cell in direction `d`.
pub open spec fn moved(d: D, t: TapeView) -> TapeView {
    match d {
        D::L => moved_l(t),
        D::R => moved_r(t),
    }
}

/// The tape after `s` was written under the head.
pub open spec fn written(s: S, t: TapeView) -> TapeView {
    (t.0, s, t.2)
}

/// The symbol under the head.
pub fn head(tape: &Tape) -> (s: S)
    ensures
        s == tape@.1,
        s == at(tape@, 0),
{
    tape.1
}

/// Moves the head one cell to the left. The symbol it leaves goes in front
/// of the right side; the front of the left side, or a blank where the left
/// side is empty, comes under the head.
pub fn move_l(tape: Tape) -> (moved: Tape)
    ensures
        moved@ == moved_l(tape@),
        canonical(tape@) ==> canonical(moved@),
{
    let (left, head, right) = tape;
    let h = left.head();
    (left.tail(), h, right.cons(head))
}

/// Moves the head one cell to the right. The symbol it leaves goes in front
/// of the left side; the front of the right side, or a blank where the right
/// side is empty, comes under the head.
pub fn move_r(tape: Tape) -> (moved: Tape)
    ensures
        moved@ == moved_r(tape@),
        canonical(tape@) ==> canonical(moved@),
{
    let (left, head, right) = tape;
    let h = right.head();
    (left.cons(head), h, right.tail())
}

/// Moves the head one cell in direction `d`.
pub fn mov(d: D, tape: Tape) -> (moved: Tape)
    ensures
        moved@ == self::moved(d, tape@),
        canonical(tape@) ==> canonical(moved@),
{
    match d {
        D::L => move_l(tape),
        D::R => move_r(tape),
    }
}

/// A move shifts the positions by one and changes no symbol: after a move to
/// the left, position `i` holds what position `i - 1` held, and after a move
/// to the right what position `i + 1` held.
pub proof fn lemma_moved_at(d: D, t: TapeView, i: int)
    ensures
        at(moved(d, t), i) == match d {
            D::L => at(t, i - 1),
            D::R => at(t, i + 1),
        },
{
}

/// A write changes the symbol under the head and no other.
pub proof fn lemma_written_at(s: S, t: TapeView, i: int)
    ensures
        at(written(s, t), i) == if i == 0 {
            s
        } else {
            at(t, i)
        },
{
}

/// Moves and writes keep a canonical tape canonical.
pub proof fn lemma_canonical_kept(d: D, s: S, t: TapeView)
    requires
        canonical(t),
    ensures
        canonical(moved(d, t)),
        canonical(written(s, t)),
{
}

/// A move to the left followed by a move to the right restores the tape,
/// provided the left side stores no blank at its far end.
pub proof fn lemma_left_then_right(t: TapeView)
    requires
        trimmed(t.0),
    ensures
        moved_r(moved_l(t)) == t,
{
}

/// A move to the right followed by a move to the left restores the tape,
/// provided the right side stores no blank at its far end.
pub proof fn lemma_right_then_left(t: TapeView)
    requires
        trimmed(t.2),
    ensures
        moved_l(moved_r(t)) == t,
{
}

/// A move followed by the opposite move leaves every position with the
/// symbol it held, whatever the sides store.
pub proof fn lemma_there_and_back(t: TapeView)
    ensures
        same_tape(moved_r(moved_l(t)), t),
        same_tape(moved_l(moved_r(t)), t),
{
    assert forall|i: int| at(moved_r(moved_l(t)), i) == at(t, i) by {
        lemma_moved_at(D::R, moved_l(t), i);
        lemma_moved_at(D::L, t, i + 1);
    }
    assert forall|i: int| at(moved_l(moved_r(t)), i) == at(t, i) by {
        lemma_moved_at(D::L, moved_r(t), i);
        lemma_moved_at(D::R, t, i - 1);
    }
}

/// Moving away from a blank next to an empty side leaves that side empty:
/// the blank is not stored.
pub proof fn lemma_blank_not_stored(t: TapeView)
    ensures
        t.1 == S::B && t.0.len() == 0 ==> moved_r(t).0 == t.0,
        t.1 == S::B && t.2.len() == 0 ==> moved_l(t).2 == t.2,
{
}

/// Two canonical tapes that hold the same symbol at every position store the
/// same sequences.
pub proof fn lemma_canonical_unique(a: TapeView, b: TapeView)
    requires
        canonical(a),
        canonical(b),
        same_tape(a, b),
    ensures
        a == b,
{
    lemma_same_tape_sides(a, b);
    lemma_trimmed_unique(a.0, b.0);
    lemma_trimmed_unique(a.2, b.2);
}

/// Tapes that differ only in blanks stored at the far ends of their sides
/// have the same canonical form.
pub proof fn lemma_same_tape_same_normal(a: TapeView, b: TapeView)
    requires
        same_tape(a, b),
    ensures
        normal(a) == normal(b),
{
    lemma_same_tape_sides(a, b);
    lemma_same_cells_same_canon(a.0, b.0);
    lemma_same_cells_same_canon(a.2, b.2);
}

/// The canonical form of a tape is canonical and holds the same symbol at
/// every position; a canonical tape is its own canonical form.
pub proof fn lemma_normal(t: TapeView)
    ensures
        canonical(normal(t)),
        same_tape(normal(t), t),
        canonical(t) ==> normal(t) == t,
{
    lemma_canon(t.0);
    lemma_canon(t.2);
}

/// Moves and writes commute with the canonical form.
pub proof fn lemma_normal_commutes(d: D, s: S, t: TapeView)
    ensures
        normal(moved(d, t)) == moved(d, normal(t)),
        normal(written(s, t)) == written(s, normal(t)),
{
    lemma_canon(t.0);
    lemma_canon(t.2);
    lemma_canon_commutes(t.0, t.1);
    lemma_canon_commutes(t.2, t.1);
}

/// Tapes that agree at every position have the same symbol under the head
/// and sides that agree in every cell.
proof fn lemma_same_tape_sides(a: TapeView, b: TapeView)
    requires
        same_tape(a, b),
    ensures
        a.1 == b.1,
        same_cells(a.0, b.0),
        same_cells(a.2, b.2),
{
    assert(at(a, 0) == at(b, 0));
    assert forall|i: int| cell(a.0, i) == cell(b.0, i) by {
        if i >= 0 {
            assert(at(a, -i - 1) == at(b, -i - 1));
        }
    }
    assert forall|i: int| cell(a.2, i) == cell(b.2, i) by {
        if i >= 0 {
            assert(at(a, i + 1) == at(b, i + 1));
        }
    }
}

} // verus!
