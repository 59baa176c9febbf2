use turing_machine::add_one_2_2::add_one_2_2;
use turing_machine::add_one_2_2::Q::{H, INIT, ML, MR};
use turing_machine::list::List;
use turing_machine::machine::exec;
use turing_machine::symbol::D::{L, R};
use turing_machine::symbol::S;
use turing_machine::symbol::S::{B, I, O};
use turing_machine::tape::Tape;

fn tape(left: &[S], head: S, right: &[S]) -> Tape {
    (List::from(left), head, List::from(right))
}

#[test]
fn add_one_2_2_is_the_table_of_seven_entries() {
    let (q, delta) = add_one_2_2();
    assert_eq!(q, INIT);
    assert_eq!(
        delta,
        vec![
            ((INIT, B), (MR, B, R)),
            ((MR, I), (MR, I, R)),
            ((MR, O), (MR, O, R)),
            ((MR, B), (ML, B, L)),
            ((ML, I), (ML, O, L)),
            ((ML, O), (ML, I, L)),
            ((ML, B), (H, I, L)),
        ]
    );
}

#[test]
fn add_one_2_2_turns_every_digit() {
    let (q, delta) = add_one_2_2();
    assert_eq!(exec(&delta, &q, tape(&[], B, &[I, O, I])), tape(&[], B, &[I, O, I, O]));
    assert_eq!(exec(&delta, &q, tape(&[O], B, &[I, B, I])), tape(&[], O, &[I, O, B, I]));
    assert_eq!(exec(&delta, &q, tape(&[], B, &[])), tape(&[], B, &[I]));
}
