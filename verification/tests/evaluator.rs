use turing_machine::add_one::add_one;
use turing_machine::add_one::Q;
use turing_machine::add_one_2_2::add_one_2_2;
use turing_machine::add_one_2_3::add_one_2_3;
use turing_machine::list::List;
use turing_machine::machine::{act, exec, lookup, step, Outcome, State, Step, A};
use turing_machine::symbol::D::{L, R};
use turing_machine::symbol::S;
use turing_machine::symbol::S::{B, I, O};
use turing_machine::symbol::D;
use turing_machine::tape::Tape;

fn tape(left: &[S], head: S, right: &[S]) -> Tape {
    (List::from(left), head, List::from(right))
}

#[test]
fn states_are_compared_by_value() {
    assert!(Q::M.same(&Q::M));
    assert!(Q::H.same(&Q::H));
    assert!(!Q::M.same(&Q::H));
    assert!(!Q::H.same(&Q::M));
    assert!(turing_machine::add_one_2_2::Q::ML.same(&turing_machine::add_one_2_2::Q::ML));
    assert!(!turing_machine::add_one_2_2::Q::ML.same(&turing_machine::add_one_2_2::Q::MR));
    assert!(turing_machine::add_one_2_3::Q::W.same(&turing_machine::add_one_2_3::Q::W));
    assert!(!turing_machine::add_one_2_3::Q::W.same(&turing_machine::add_one_2_3::Q::FIN));
}

#[test]
fn add_one_is_the_table_of_three_carrying_entries() {
    let (q, delta) = add_one();
    assert_eq!(q, Q::M);
    assert_eq!(
        delta,
        vec![
            ((Q::M, I), (Q::M, O, L)),
            ((Q::M, O), (Q::H, I, L)),
            ((Q::M, B), (Q::H, I, L)),
        ]
    );
}

#[test]
fn act_moves_without_writing() {
    assert_eq!(act(A::Move(L), tape(&[I], O, &[])), tape(&[], I, &[O]));
    assert_eq!(act(A::Move(R), tape(&[I], O, &[])), tape(&[O, I], B, &[]));
}

#[test]
fn act_writes_without_moving() {
    assert_eq!(act(A::Write(I), tape(&[I], O, &[O])), tape(&[I], I, &[O]));
    assert_eq!(act(A::Write(B), tape(&[], O, &[])), tape(&[], B, &[]));
}

#[test]
fn a_triple_writes_and_then_moves() {
    let r: (Q, S, D) = (Q::H, I, R);
    assert_eq!(r.next(), Q::H);
    assert_eq!(r.apply(tape(&[], B, &[O])), tape(&[I], O, &[]));
    let r: (Q, S, D) = (Q::M, O, L);
    assert_eq!(r.next(), Q::M);
    assert_eq!(r.apply(tape(&[I], I, &[])), tape(&[], I, &[O]));
}

#[test]
fn a_triple_is_a_write_followed_by_a_move() {
    let r: (Q, S, D) = (Q::H, O, L);
    let t = tape(&[I, I], B, &[I]);
    assert_eq!(r.apply(t.clone()), act(A::Move(L), act(A::Write(O), t)));
}

#[test]
fn a_triple_that_writes_a_blank_next_to_an_empty_side_stores_nothing() {
    let r: (Q, S, D) = (Q::H, B, R);
    assert_eq!(r.apply(tape(&[], I, &[])), tape(&[], B, &[]));
}

#[test]
fn a_pair_carries_out_its_single_action() {
    let r: (Q, A) = (Q::H, A::Move(R));
    assert_eq!(r.next(), Q::H);
    assert_eq!(r.apply(tape(&[], I, &[O])), tape(&[I], O, &[]));
    let r: (Q, A) = (Q::M, A::Write(O));
    assert_eq!(r.next(), Q::M);
    assert_eq!(r.apply(tape(&[], I, &[O])), tape(&[], O, &[O]));
}

#[test]
fn lookup_finds_the_entry_with_the_key() {
    let (_, delta) = add_one();
    assert_eq!(lookup(&delta, &Q::M, I), Some(&(Q::M, O, L)));
    assert_eq!(lookup(&delta, &Q::M, O), Some(&(Q::H, I, L)));
    assert_eq!(lookup(&delta, &Q::M, B), Some(&(Q::H, I, L)));
}

#[test]
fn lookup_finds_nothing_without_a_key() {
    let (_, delta) = add_one();
    assert_eq!(lookup(&delta, &Q::H, I), None);
    assert_eq!(lookup(&delta, &Q::H, O), None);
    assert_eq!(lookup(&delta, &Q::H, B), None);
    let empty: Vec<((Q, S), (Q, S, D))> = Vec::new();
    assert_eq!(lookup(&empty, &Q::M, I), None);
}

#[test]
fn lookup_needs_both_parts_of_the_key_to_agree() {
    let delta = vec![((Q::M, I), (Q::H, A::Write(O)))];
    assert_eq!(lookup(&delta, &Q::M, I), Some(&(Q::H, A::Write(O))));
    assert_eq!(lookup(&delta, &Q::M, O), None);
    assert_eq!(lookup(&delta, &Q::H, I), None);
}

#[test]
fn of_two_entries_with_one_key_the_first_counts() {
    let delta = vec![
        ((Q::M, O), (Q::H, B, L)),
        ((Q::M, I), (Q::H, O, R)),
        ((Q::M, I), (Q::H, I, L)),
    ];
    assert_eq!(lookup(&delta, &Q::M, I), Some(&(Q::H, O, R)));
    assert_eq!(exec(&delta, &Q::M, tape(&[], I, &[])), tape(&[O], B, &[]));
}

#[test]
fn step_makes_one_transition() {
    let (q, delta) = add_one();
    match step(&delta, &q, tape(&[I, O], I, &[])) {
        Step::Next(q2, t2) => {
            assert_eq!(q2, Q::M);
            assert_eq!(t2, tape(&[O], I, &[O]));
        }
        Step::Halt(_) => panic!("an entry matches"),
    }
    match step(&delta, &q, tape(&[I, O], O, &[])) {
        Step::Next(q2, t2) => {
            assert_eq!(q2, Q::H);
            assert_eq!(t2, tape(&[O], I, &[I]));
        }
        Step::Halt(_) => panic!("an entry matches"),
    }
}

#[test]
fn step_hands_the_tape_back_when_nothing_matches() {
    let (_, delta) = add_one();
    match step(&delta, &Q::H, tape(&[I, O], I, &[B])) {
        Step::Halt(t) => assert_eq!(t, tape(&[I, O], I, &[B])),
        Step::Next(_, _) => panic!("no entry matches"),
    }
}

#[test]
fn exec_without_a_matching_entry_returns_the_tape() {
    let (_, delta) = add_one();
    let t = tape(&[I, O], I, &[O, B]);
    assert_eq!(exec(&delta, &Q::H, t.clone()), t);
    let (q, delta) = add_one_2_2();
    let t = tape(&[I], I, &[O]);
    assert_eq!(exec(&delta, &q, t.clone()), t);
    let (q, delta) = add_one_2_3();
    let t = tape(&[], O, &[]);
    assert_eq!(exec(&delta, &q, t.clone()), t);
}

#[test]
fn exec_on_an_empty_table_returns_the_tape() {
    let delta: Vec<((Q, S), (Q, A))> = Vec::new();
    let t = tape(&[B], B, &[I]);
    assert_eq!(exec(&delta, &Q::M, t.clone()), t);
}

#[test]
fn exec_twice_gives_the_same_tape() {
    let (q, delta) = add_one();
    let t = tape(&[I, O, I], I, &[O]);
    let first = exec(&delta, &q, t.clone());
    let second = exec(&delta, &q, t);
    assert_eq!(first, second);
    assert_eq!(first, tape(&[], I, &[I, O, O, O]));
    let (q, delta) = add_one_2_3();
    let t = tape(&[O], B, &[I, O]);
    let first = exec(&delta, &q, t.clone());
    let second = exec(&delta, &q, t);
    assert_eq!(first, second);
}

#[test]
fn carrying_alone_turns_the_ones_into_zeros() {
    let delta = vec![((Q::M, I), (Q::M, O, L))];
    let r = exec(&delta, &Q::M, tape(&[I, I, I], I, &[]));
    assert_eq!(r, tape(&[], B, &[O, O, O, O]));
}

#[test]
fn add_one_stops_the_carry_at_a_zero() {
    let (q, delta) = add_one();
    assert_eq!(exec(&delta, &q, tape(&[O, I], I, &[])), tape(&[], I, &[I, O]));
    assert_eq!(exec(&delta, &q, tape(&[I], O, &[])), tape(&[], I, &[I]));
}

#[test]
fn add_one_on_the_blank_tape_writes_a_one() {
    let (q, delta) = add_one();
    assert_eq!(exec(&delta, &q, tape(&[], B, &[])), tape(&[], B, &[I]));
}

#[test]
fn both_forms_of_the_machine_agree() {
    let (q2, delta2) = add_one_2_2();
    let (q3, delta3) = add_one_2_3();
    let t = tape(&[I, O], B, &[O, O, I, I]);
    assert_eq!(exec(&delta2, &q2, t.clone()), exec(&delta3, &q3, t));
}

#[test]
fn blanks_stored_at_the_far_ends_do_not_change_the_run() {
    let (q, delta) = add_one_2_2();
    let plain = exec(&delta, &q, tape(&[], B, &[I, O]));
    let padded = exec(&delta, &q, tape(&[B, B], B, &[I, O, B]));
    assert_eq!(plain, tape(&[], B, &[I, O, I]));
    assert_eq!(padded, tape(&[B], B, &[I, O, I]));
    let (q, delta) = add_one();
    let plain = exec(&delta, &q, tape(&[I], I, &[]));
    let padded = exec(&delta, &q, tape(&[I, B, B], I, &[B]));
    assert_eq!(plain, tape(&[], B, &[I, O, O]));
    assert_eq!(padded, tape(&[], B, &[I, O, O, B]));
}

#[test]
fn a_run_from_a_canonical_tape_ends_on_a_canonical_tape() {
    let (q, delta) = add_one_2_3();
    let r = exec(&delta, &q, tape(&[], B, &[O, O]));
    assert_eq!(r, tape(&[], B, &[I, I, I]));
    assert_eq!(r.0.to_vec(), Vec::<S>::new());
    assert_eq!(r.2.to_vec(), vec![I, I, I]);
}

#[test]
fn add_one_counts_in_binary() {
    let (q, delta) = add_one();
    // 0 -> 1 -> 10 -> 11 -> 100, the head put back on the last digit each time
    let one = exec(&delta, &q, tape(&[], O, &[]));
    assert_eq!(one, tape(&[], B, &[I]));
    let two = exec(&delta, &q, tape(&[], I, &[]));
    assert_eq!(two, tape(&[], B, &[I, O]));
    let three = exec(&delta, &q, tape(&[I], O, &[]));
    assert_eq!(three, tape(&[], I, &[I]));
    let four = exec(&delta, &q, tape(&[I], I, &[]));
    assert_eq!(four, tape(&[], B, &[I, O, O]));
}
