//! Transition tables and their evaluation.
//!
//! A table is a vector of entries `((state, symbol), outcome)`. An entry
//! matches when its key equals the current state and the symbol under the
//! head; of several matching entries the first one counts. The outcome is
//! either a triple `(state, symbol, direction)`, which writes the symbol and
//! then moves the head, or a pair `(state, action)`, whose action is a single
//! move or a single write. A table holds outcomes of one form only.

use vstd::prelude::*;
use crate::symbol::{D, S};
use crate::tape::{
    canonical, lemma_normal, lemma_normal_commutes, lemma_same_tape_same_normal, mov, moved,
    normal, same_tape, written, Tape, TapeView,
};

verus! {

/// A control state: a value of a finite set on which equality is decided.
pub trait State: Copy {
    /// Whether `self` and `other` are the same state.
    fn same(&self, other: &Self) -> (same: bool)
        ensures
            same == (*self == *other),
    ;
}

/// A single action on the tape.
#[derive(Clone, Copy, Debug, PartialEq, Eq, Structural)]
pub enum A {
    /// Move the head one cell; the tape's content stays.
    Move(D),
    /// Write a symbol under the head; the head stays.
    Write(S),
}

/// The tape after action `a`.
pub open spec fn acted(a: A, t: TapeView) -> TapeView {
    match a {
        A::Move(d) => moved(d, t),
        A::Write(s) => written(s, t),
    }
}

/// Performs action `a` on `tape`.
pub fn act(a: A, tape: Tape) -> (r: Tape)
    ensures
        r@ == acted(a, tape@),
        canonical(tape@) ==> canonical(r@),
{
    match a {
        A::Move(d) => mov(d, tape),
        A::Write(s) => {
            let (left, _, right) = tape;
            (left, s, right)
        },
    }
}

/// What a table entry prescribes once its key has matched: the state to
/// enter and the effect on the tape.
pub trait Outcome<Q>: Sized {
    /// The state that the machine enters.
    spec fn target(&self) -> Q;

    /// The tape after the prescribed effect.
    spec fn effect(&self, t: TapeView) -> TapeView;

    /// The effect does not depend on blanks stored at the far ends of the
    /// tape's sides: on the canonical form of a tape it yields the canonical
    /// form of what it yields on the tape.
    proof fn effect_respects_normal(&self, t: TapeView)
        ensures
            self.effect(normal(t)) == normal(self.effect(t)),
    ;

    /// The state that the machine enters.
    fn next(&self) -> (q: Q)
        ensures
            q == self.target(),
    ;

    /// Carries out the prescribed effect on `tape`.
    fn apply(&self, tape: Tape) -> (r: Tape)
        ensures
            r@ == self.effect(tape@),
    ;
}

/// The combined form: write the symbol under the head, then move the head.
impl<Q: State> Outcome<Q> for (Q, S, D) {
    open spec fn target(&self) -> Q {
        self.0
    }

    open spec fn effect(&self, t: TapeView) -> TapeView {
        acted(A::Move(self.2), acted(A::Write(self.1), t))
    }

    proof fn effect_respects_normal(&self, t: TapeView) {
        lemma_normal_commutes(self.2, self.1, t);
        lemma_normal_commutes(self.2, self.1, written(self.1, t));
    }

    fn next(&self) -> (q: Q) {
        self.0
    }

    fn apply(&self, tape: Tape) -> (r: Tape) {
        act(A::Move(self.2), act(A::Write(self.1), tape))
    }
}

/// The decomposed form: a single move or a single write.
impl<Q: State> Outcome<Q> for (Q, A) {
    open spec fn target(&self) -> Q {
        self.0
    }

    open spec fn effect(&self, t: TapeView) -> TapeView {
        acted(self.1, t)
    }

    proof fn effect_respects_normal(&self, t: TapeView) {
        match self.1 {
            A::Move(d) => lemma_normal_commutes(d, S::B, t),
            A::Write(s) => lemma_normal_commutes(D::L, s, t),
        }
    }

    fn next(&self) -> (q: Q) {
        self.0
    }

    fn apply(&self, tape: Tape) -> (r: Tape) {
        act(self.1, tape)
    }
}

/// An effect keeps a canonical tape canonical.
pub proof fn lemma_effect_keeps_canonical<Q, R: Outcome<Q>>(r: R, t: TapeView)
    requires
        canonical(t),
    ensures
        canonical(r.effect(t)),
{
    lemma_normal(t);
    r.effect_respects_normal(t);
    lemma_normal(r.effect(t));
}

/// The outcome of the first entry of `delta`, from index `i` on, whose key is
/// `(q, s)`.
pub open spec fn find_from<Q, R>(delta: Seq<((Q, S), R)>, q: Q, s: S, i: nat) -> Option<R>
    decreases delta.len() - i,
{
    if i >= delta.len() {
        None
    } else if delta[i as int].0 == (q, s) {
        Some(delta[i as int].1)
    } else {
        find_from(delta, q, s, i + 1)
    }
}

/// The outcome that `delta` prescribes in state `q` with `s` under the head:
/// that of the first entry whose key is `(q, s)`, if there is one.
pub open spec fn find<Q, R>(delta: Seq<((Q, S), R)>, q: Q, s: S) -> Option<R> {
    find_from(delta, q, s, 0)
}

/// One transition: the state and tape that follow `q` and `t`, or `None`
/// where no entry of `delta` matches.
pub open spec fn stepped<Q, R: Outcome<Q>>(delta: Seq<((Q, S), R)>, q: Q, t: TapeView) -> Option<
    (Q, TapeView),
> {
    match find(delta, q, t.1) {
        None => None,
        Some(r) => Some((r.target(), r.effect(t))),
    }
}

/// The machine, started in `q` on `t`, makes exactly `n` transitions and
/// then finds no matching entry.
pub open spec fn halts_in<Q, R: Outcome<Q>>(
    delta: Seq<((Q, S), R)>,
    q: Q,
    t: TapeView,
    n: nat,
) -> bool
    decreases n,
{
    match stepped(delta, q, t) {
        None => n == 0,
        Some((q2, t2)) => n > 0 && halts_in(delta, q2, t2, (n - 1) as nat),
    }
}

/// The tape after `n` transitions from `q` and `t`, or the tape on which the
/// machine halted if that came first.
pub open spec fn tape_after<Q, R: Outcome<Q>>(
    delta: Seq<((Q, S), R)>,
    q: Q,
    t: TapeView,
    n: nat,
) -> TapeView
    decreases n,
{
    match stepped(delta, q, t) {
        None => t,
        Some((q2, t2)) => if n == 0 {
            t
        } else {
            tape_after(delta, q2, t2, (n - 1) as nat)
        },
    }
}

/// The machine, started in `q` on `t`, halts after finitely many transitions.
pub open spec fn halts<Q, R: Outcome<Q>>(delta: Seq<((Q, S), R)>, q: Q, t: TapeView) -> bool {
    exists|n: nat| halts_in(delta, q, t, n)
}

/// The number of transitions that a halting machine makes.
pub open spec fn halting_time<Q, R: Outcome<Q>>(delta: Seq<((Q, S), R)>, q: Q, t: TapeView) -> nat {
    choose|n: nat| halts_in(delta, q, t, n)
}

/// The tape on which a halting machine stops.
pub open spec fn final_tape<Q, R: Outcome<Q>>(
    delta: Seq<((Q, S), R)>,
    q: Q,
    t: TapeView,
) -> TapeView {
    tape_after(delta, q, t, halting_time(delta, q, t))
}

/// Looks up the outcome for state `q` and symbol `s`: a linear scan that
/// stops at the first entry whose key is `(q, s)`.
pub fn lookup<'a, Q: State, R>(delta: &'a Vec<((Q, S), R)>, q: &Q, s: S) -> (found: Option<&'a R>)
    ensures
        match found {
            Some(r) => find(delta@, *q, s) == Some(*r),
            None => find(delta@, *q, s) is None,
        },
{
    let mut i: usize = 0;
    while i < delta.len()
        invariant
            i <= delta@.len(),
            find(delta@, *q, s) == find_from(delta@, *q, s, i as nat),
        decreases delta@.len() - i,
    {
        let entry = &delta[i];
        if entry.0.0.same(q) && entry.0.1 == s {
            return Some(&entry.1);
        }
        i = i + 1;
    }
    None
}

/// What one transition leads to.
pub enum Step<Q> {
    /// No entry matched: the machine has halted on this tape.
    Halt(Tape),
    /// An entry matched: the state entered and the tape after its effect.
    Next(Q, Tape),
}

/// Makes one transition from state `q` on `tape`, or finds that the
/// machine has halted and hands the tape back as it is.
pub fn step<Q: State, R: Outcome<Q>>(delta: &Vec<((Q, S), R)>, q: &Q, tape: Tape) -> (r: Step<Q>)
    ensures
        match r {
            Step::Halt(t) => stepped(delta@, *q, tape@) is None && t == tape,
            Step::Next(q2, t2) => stepped(delta@, *q, tape@) == Some((q2, t2@)),
        },
        canonical(tape@) ==> match r {
            Step::Halt(t) => canonical(t@),
            Step::Next(_, t2) => canonical(t2@),
        },
{
    match lookup(delta, q, tape.1) {
        None => Step::Halt(tape),
        Some(r) => {
            proof {
                if canonical(tape@) {
                    lemma_effect_keeps_canonical(*r, tape@);
                }
            }
            Step::Next(r.next(), r.apply(tape))
        },
    }
}

/// Runs the machine with table `delta` from state `q` on `tape` until no
/// entry matches, and returns the tape on which it halted.
///
/// Halting is the caller's obligation: on a table that matches forever there
/// is no tape to return.
pub fn exec<Q: State, R: Outcome<Q>>(delta: &Vec<((Q, S), R)>, q: &Q, tape: Tape) -> (r: Tape)
    requires
        halts(delta@, *q, tape@),
    ensures
        r@ == final_tape(delta@, *q, tape@),
        find(delta@, *q, tape@.1) is None ==> r@ == tape@,
        canonical(tape@) ==> canonical(r@),
{
    let mut state = *q;
    let mut current = tape;
    loop
        invariant
            halts(delta@, state, current@),
            final_tape(delta@, state, current@) == final_tape(delta@, *q, tape@),
            canonical(tape@) ==> canonical(current@),
            find(delta@, *q, tape@.1) is None ==> state == *q && current@ == tape@,
        decreases halting_time(delta@, state, current@),
    {
        proof {
            lemma_run_unfolds(delta@, state, current@);
        }
        match step(delta, &state, current) {
            Step::Halt(t) => {
                return t;
            },
            Step::Next(q2, t2) => {
                state = q2;
                current = t2;
            },
        }
    }
}

/// The entry at index `k` is the first entry of `delta`, from index `i` on,
/// whose key is `(q, s)`.
pub open spec fn first_match_from<Q, R>(
    delta: Seq<((Q, S), R)>,
    q: Q,
    s: S,
    i: nat,
    k: int,
) -> bool {
    &&& i <= k < delta.len()
    &&& delta[k].0 == (q, s)
    &&& forall|j: int| i <= j < k ==> (#[trigger] delta[j]).0 != (q, s)
}

/// What `find_from` yields from index `i` on is the outcome of the first
/// entry at or after `i` whose key is `(q, s)`, and nothing exactly when
/// there is no such entry.
pub proof fn lemma_find_from<Q, R>(delta: Seq<((Q, S), R)>, q: Q, s: S, i: nat)
    ensures
        match find_from(delta, q, s, i) {
            None => forall|j: int| i <= j < delta.len() ==> (#[trigger] delta[j]).0 != (q, s),
            Some(r) => exists|k: int|
                #[trigger] first_match_from(delta, q, s, i, k) && delta[k].1 == r,
        },
    decreases delta.len() - i,
{
    if i < delta.len() {
        if delta[i as int].0 == (q, s) {
            assert(first_match_from(delta, q, s, i, i as int));
        } else {
            lemma_find_from(delta, q, s, i + 1);
            if let Some(r) = find_from(delta, q, s, i + 1) {
                let k = choose|k: int|
                    #[trigger] first_match_from(delta, q, s, i + 1, k) && delta[k].1 == r;
                assert(first_match_from(delta, q, s, i, k));
            }
        }
    }
}

/// Of several entries with one key the first counts: `find` yields the
/// outcome of the first entry whose key is `(q, s)`, and nothing exactly
/// when no entry has that key.
pub proof fn lemma_find_first_match<Q, R>(delta: Seq<((Q, S), R)>, q: Q, s: S)
    ensures
        match find(delta, q, s) {
            None => forall|j: int| 0 <= j < delta.len() ==> (#[trigger] delta[j]).0 != (q, s),
            Some(r) => exists|k: int|
                #[trigger] first_match_from(delta, q, s, 0, k) && delta[k].1 == r,
        },
{
    lemma_find_from(delta, q, s, 0);
}

/// A machine whose table has no entry for its state and the symbol under
/// the head makes no transition: it halts at once, on the tape it was given.
pub proof fn lemma_no_match_halts<Q, R: Outcome<Q>>(delta: Seq<((Q, S), R)>, q: Q, t: TapeView)
    requires
        find(delta, q, t.1) is None,
    ensures
        halts(delta, q, t),
        halting_time(delta, q, t) == 0,
        final_tape(delta, q, t) == t,
{
    lemma_halts_in(delta, q, t, 0);
}

/// A run is determined by the table, the state and the tape it starts
/// from: it halts after one number of transitions only, and on one tape.
pub proof fn lemma_run_deterministic<Q, R: Outcome<Q>>(
    delta: Seq<((Q, S), R)>,
    q: Q,
    t: TapeView,
    n: nat,
    m: nat,
)
    requires
        halts_in(delta, q, t, n),
        halts_in(delta, q, t, m),
    ensures
        n == m,
        tape_after(delta, q, t, n) == tape_after(delta, q, t, m),
    decreases n,
{
    match stepped(delta, q, t) {
        None => {},
        Some((q2, t2)) => {
            lemma_run_deterministic(delta, q2, t2, (n - 1) as nat, (m - 1) as nat);
        },
    }
}

/// A run that halts after `n` transitions halts, takes `n` transitions to
/// do so, and stops on the tape reached after `n` transitions.
pub proof fn lemma_halts_in<Q, R: Outcome<Q>>(delta: Seq<((Q, S), R)>, q: Q, t: TapeView, n: nat)
    requires
        halts_in(delta, q, t, n),
    ensures
        halts(delta, q, t),
        halting_time(delta, q, t) == n,
        final_tape(delta, q, t) == tape_after(delta, q, t, n),
{
    lemma_run_deterministic(delta, q, t, n, halting_time(delta, q, t));
}

/// How a halting run unfolds. Where no entry matches, it makes no transition
/// and stops on the tape it started on. Where one matches, the run from the
/// state and tape after that transition halts too, one transition sooner and
/// on the same tape.
pub proof fn lemma_run_unfolds<Q, R: Outcome<Q>>(delta: Seq<((Q, S), R)>, q: Q, t: TapeView)
    requires
        halts(delta, q, t),
    ensures
        match stepped(delta, q, t) {
            None => halting_time(delta, q, t) == 0 && final_tape(delta, q, t) == t,
            Some((q2, t2)) => {
                &&& halts(delta, q2, t2)
                &&& halting_time(delta, q2, t2) + 1 == halting_time(delta, q, t)
                &&& final_tape(delta, q2, t2) == final_tape(delta, q, t)
            },
        },
{
    let n = halting_time(delta, q, t);
    match stepped(delta, q, t) {
        None => {},
        Some((q2, t2)) => {
            lemma_halts_in(delta, q2, t2, (n - 1) as nat);
        },
    }
}

/// A run that starts on a canonical tape passes through canonical tapes only.
pub proof fn lemma_run_keeps_canonical<Q, R: Outcome<Q>>(
    delta: Seq<((Q, S), R)>,
    q: Q,
    t: TapeView,
    n: nat,
)
    requires
        canonical(t),
    ensures
        canonical(tape_after(delta, q, t, n)),
    decreases n,
{
    match find(delta, q, t.1) {
        None => {},
        Some(r) => {
            if n > 0 {
                lemma_effect_keeps_canonical(r, t);
                lemma_run_keeps_canonical(delta, r.target(), r.effect(t), (n - 1) as nat);
            }
        },
    }
}

/// A run does not depend on blanks stored at the far ends of the sides. From
/// the canonical form of a tape the machine halts after the same number of
/// transitions, and the tape it has reached after `n` transitions is the
/// canonical form of the one it would have reached otherwise.
pub proof fn lemma_run_respects_normal<Q, R: Outcome<Q>>(
    delta: Seq<((Q, S), R)>,
    q: Q,
    t: TapeView,
    n: nat,
)
    ensures
        halts_in(delta, q, normal(t), n) == halts_in(delta, q, t, n),
        tape_after(delta, q, normal(t), n) == normal(tape_after(delta, q, t, n)),
    decreases n,
{
    match find(delta, q, t.1) {
        None => {},
        Some(r) => {
            r.effect_respects_normal(t);
            if n > 0 {
                lemma_run_respects_normal(delta, r.target(), r.effect(t), (n - 1) as nat);
            }
        },
    }
}

/// From the canonical form of a tape a machine halts exactly if it halts
/// from the tape, and then on the canonical form of the tape on which it
/// halts otherwise.
pub proof fn lemma_final_tape_respects_normal<Q, R: Outcome<Q>>(
    delta: Seq<((Q, S), R)>,
    q: Q,
    t: TapeView,
)
    ensures
        halts(delta, q, normal(t)) == halts(delta, q, t),
        halts(delta, q, t) ==> final_tape(delta, q, normal(t)) == normal(final_tape(delta, q, t)),
{
    if halts(delta, q, t) {
        let n = halting_time(delta, q, t);
        lemma_run_respects_normal(delta, q, t, n);
        lemma_halts_in(delta, q, normal(t), n);
    }
    if halts(delta, q, normal(t)) {
        let n = halting_time(delta, q, normal(t));
        lemma_run_respects_normal(delta, q, t, n);
        lemma_halts_in(delta, q, t, n);
    }
}

/// Whether a machine halts, and what the tape on which it halts holds at
/// each position, depend only on what the tape it starts from holds at each
/// position: two tapes that differ only in blanks stored at the far ends of
/// their sides lead to tapes that differ only so.
pub proof fn lemma_same_tape_same_run<Q, R: Outcome<Q>>(
    delta: Seq<((Q, S), R)>,
    q: Q,
    a: TapeView,
    b: TapeView,
)
    requires
        same_tape(a, b),
    ensures
        halts(delta, q, a) == halts(delta, q, b),
        halts(delta, q, a) ==> {
            &&& normal(final_tape(delta, q, a)) == normal(final_tape(delta, q, b))
            &&& same_tape(final_tape(delta, q, a), final_tape(delta, q, b))
        },
{
    lemma_same_tape_same_normal(a, b);
    lemma_final_tape_respects_normal(delta, q, a);
    lemma_final_tape_respects_normal(delta, q, b);
    if halts(delta, q, a) {
        let fa = final_tape(delta, q, a);
        let fb = final_tape(delta, q, b);
        lemma_normal(fa);
        lemma_normal(fb);
    }
}

} // verus!
