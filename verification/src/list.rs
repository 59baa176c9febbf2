//! One side of a tape: a stack of symbols whose top lies next to the head and
//! below whose bottom there is nothing but blanks.

use vstd::prelude::*;
use crate::symbol::S;

verus! {

/// The symbol `i` cells away from the head on a side that stores `xs`:
/// the stored symbol where there is one, blank beyond the stored part.
pub open spec fn cell(xs: Seq<S>, i: int) -> S {
    if 0 <= i < xs.len() {
        xs[i]
    } else {
        S::B
    }
}

/// What a side stores after `s` is put in front: a blank in front of nothing
/// is not stored, every other symbol is.
pub open spec fn pushed(xs: Seq<S>, s: S) -> Seq<S> {
    if s == S::B && xs.len() == 0 {
        xs
    } else {
        seq![s] + xs
    }
}

/// What a side stores after its front cell is taken away.
pub open spec fn popped(xs: Seq<S>) -> Seq<S> {
    if xs.len() == 0 {
        xs
    } else {
        xs.drop_first()
    }
}

/// What a side stores after its first `n` cells are taken away.
pub open spec fn dropped(xs: Seq<S>, n: nat) -> Seq<S> {
    if n >= xs.len() {
        Seq::empty()
    } else {
        xs.skip(n as int)
    }
}

/// The first `i` symbols of `xs`, the last of them first.
pub open spec fn backwards(xs: Seq<S>, i: nat) -> Seq<S> {
    Seq::new(i, |k: int| xs[i - 1 - k])
}

/// A side is trimmed when its farthest stored symbol is not blank, so that
/// no stored cell could as well be absent.
pub open spec fn trimmed(xs: Seq<S>) -> bool {
    xs.len() > 0 ==> xs.last() != S::B
}

/// Two sides hold the same symbol in every cell, stored or not.
pub open spec fn same_cells(xs: Seq<S>, ys: Seq<S>) -> bool {
    forall|i: int| cell(xs, i) == cell(ys, i)
}

/// The canonical form of a side: what it stores, without the blanks at its
/// far end.
pub open spec fn canon(xs: Seq<S>) -> Seq<S>
    decreases xs.len(),
{
    if xs.len() > 0 && xs.last() == S::B {
        canon(xs.drop_last())
    } else {
        xs
    }
}

/// A stack of symbols with its front next to the head.
///
/// The symbols are kept in a vector, farthest first, so that the front is the
/// vector's end and both `cons` and `tail` take constant amortized time.
#[derive(Debug, Eq)]
pub struct List(Vec<S>);

impl View for List {
    type V = Seq<S>;

    /// The stored symbols, nearest to the head first.
    closed spec fn view(&self) -> Seq<S> {
        self.0@.reverse()
    }
}

impl Clone for List {
    fn clone(&self) -> (list: List)
        ensures
            list@ == self@,
    {
        List(self.0.clone())
    }
}

impl PartialEq for List {
    /// Whether both lists store the same symbols in the same order.
    fn eq(&self, other: &List) -> (same: bool) {
        let n: usize = self.0.len();
        if n != other.0.len() {
            assert(self@.len() != other@.len());
            return false;
        }
        let mut i: usize = 0;
        while i < n
            invariant
                n == self.0@.len(),
                n == other.0@.len(),
                i <= n,
                forall|k: int| 0 <= k < i ==> self.0@[k] == other.0@[k],
            decreases n - i,
        {
            if self.0[i] != other.0[i] {
                assert(self@[n - 1 - i] != other@[n - 1 - i]);
                return false;
            }
            i = i + 1;
        }
        assert(self@ =~= other@);
        true
    }
}

impl vstd::std_specs::cmp::PartialEqSpecImpl for List {
    open spec fn obeys_eq_spec() -> bool {
        true
    }

    open spec fn eq_spec(&self, other: &List) -> bool {
        self@ == other@
    }
}

impl List {
    /// The list that stores `items`, the first of them in front.
    pub fn from(items: &[S]) -> (list: List)
        ensures
            list@ == items@,
    {
        let mut stored: Vec<S> = Vec::new();
        let mut i: usize = items.len();
        while i > 0
            invariant
                i <= items@.len(),
                stored@.len() == items@.len() - i,
                forall|k: int| 0 <= k < stored@.len() ==> stored@[k] == items@[items@.len() - 1 - k],
            decreases i,
        {
            i = i - 1;
            stored.push(items[i]);
        }
        List(stored)
    }

    /// The stored symbols, the front one first.
    pub fn to_vec(&self) -> (items: Vec<S>)
        ensures
            items@ == self@,
    {
        let mut items: Vec<S> = Vec::new();
        let mut i: usize = self.0.len();
        while i > 0
            invariant
                i <= self.0@.len(),
                items@.len() == self.0@.len() - i,
                forall|k: int| 0 <= k < items@.len() ==> items@[k] == self.0@[self.0@.len() - 1 - k],
            decreases i,
        {
            i = i - 1;
            items.push(self.0[i]);
        }
        items
    }

    /// Puts `s` in front, unless `s` is blank and the list is empty.
    pub fn cons(self, s: S) -> (list: List)
        ensures
            list@ == pushed(self@, s),
            trimmed(self@) ==> trimmed(list@),
    {
        let mut stored = self.0;
        if s == S::B && stored.len() == 0 {
            List(stored)
        } else {
            stored.push(s);
            List(stored)
        }
    }

    /// The symbol in front, blank if the list is empty.
    pub fn head(&self) -> (s: S)
        ensures
            s == cell(self@, 0),
    {
        let n: usize = self.0.len();
        if n == 0 {
            S::B
        } else {
            self.0[n - 1]
        }
    }

    /// The list without its front symbol; the empty list stays empty.
    pub fn tail(self) -> (list: List)
        ensures
            list@ == popped(self@),
            trimmed(self@) ==> trimmed(list@),
    {
        let mut stored = self.0;
        stored.pop();
        List(stored)
    }
}

/// Putting a symbol in front shifts every cell one place away from the head.
pub proof fn lemma_pushed_cells(xs: Seq<S>, s: S, i: int)
    ensures
        cell(pushed(xs, s), i) == if i == 0 {
            s
        } else {
            cell(xs, i - 1)
        },
{
}

/// Taking the front away shifts every cell one place towards the head.
pub proof fn lemma_popped_cells(xs: Seq<S>, i: int)
    requires
        0 <= i,
    ensures
        cell(popped(xs), i) == cell(xs, i + 1),
{
}

/// Neither putting a symbol in front of a trimmed side nor taking its front
/// away leaves a blank at the far end.
pub proof fn lemma_trimmed_kept(xs: Seq<S>, s: S)
    requires
        trimmed(xs),
    ensures
        trimmed(pushed(xs, s)),
        trimmed(popped(xs)),
{
}

/// Two trimmed sides that hold the same symbol in every cell store the same
/// sequence.
pub proof fn lemma_trimmed_unique(xs: Seq<S>, ys: Seq<S>)
    requires
        trimmed(xs),
        trimmed(ys),
        same_cells(xs, ys),
    ensures
        xs == ys,
{
    if xs.len() < ys.len() {
        assert(cell(xs, ys.len() - 1) == cell(ys, ys.len() - 1));
    }
    if ys.len() < xs.len() {
        assert(cell(xs, xs.len() - 1) == cell(ys, xs.len() - 1));
    }
    assert forall|i: int| 0 <= i < xs.len() implies xs[i] == ys[i] by {
        assert(cell(xs, i) == cell(ys, i));
    }
}

/// The canonical form is trimmed and holds the same symbol in every cell;
/// a trimmed side is its own canonical form.
pub proof fn lemma_canon(xs: Seq<S>)
    ensures
        trimmed(canon(xs)),
        same_cells(canon(xs), xs),
        trimmed(xs) ==> canon(xs) == xs,
    decreases xs.len(),
{
    if xs.len() > 0 && xs.last() == S::B {
        lemma_canon(xs.drop_last());
    }
}

/// Sides that differ only in blanks at the far end have the same canonical
/// form.
pub proof fn lemma_same_cells_same_canon(xs: Seq<S>, ys: Seq<S>)
    requires
        same_cells(xs, ys),
    ensures
        canon(xs) == canon(ys),
{
    lemma_canon(xs);
    lemma_canon(ys);
    lemma_trimmed_unique(canon(xs), canon(ys));
}

/// Putting a symbol in front and taking the front away commute with the
/// canonical form.
pub proof fn lemma_canon_commutes(xs: Seq<S>, s: S)
    ensures
        canon(pushed(xs, s)) == pushed(canon(xs), s),
        canon(popped(xs)) == popped(canon(xs)),
{
    lemma_canon(xs);
    lemma_canon(pushed(xs, s));
    lemma_canon(popped(xs));
    lemma_trimmed_kept(canon(xs), s);
    assert forall|i: int| cell(canon(pushed(xs, s)), i) == cell(pushed(canon(xs), s), i) by {
        lemma_pushed_cells(xs, s, i);
        lemma_pushed_cells(canon(xs), s, i);
    }
    lemma_trimmed_unique(canon(pushed(xs, s)), pushed(canon(xs), s));
    assert forall|i: int| cell(canon(popped(xs)), i) == cell(popped(canon(xs)), i) by {
        if i >= 0 {
            lemma_popped_cells(xs, i);
            lemma_popped_cells(canon(xs), i);
        }
    }
    lemma_trimmed_unique(canon(popped(xs)), popped(canon(xs)));
}

} // verus!
