use turing_machine::add_one_2_3::add_one_2_3;
use turing_machine::add_one_2_3::Q::{FIN, H, INIT, ML, MR, W};
use turing_machine::machine::A;
use turing_machine::list::List;
use turing_machine::machine::exec;
use turing_machine::symbol::D::{L, R};
use turing_machine::symbol::S;
use turing_machine::symbol::S::{B, I, O};
use turing_machine::tape::Tape;

fn tape(left: &[S], head: S, right: &[S]) -> Tape {
    (List::from(left), head, List::from(right))
}

#[test]
fn add_one_2_3_is_the_table_of_eleven_entries() {
    let (q, delta) = add_one_2_3();
    assert_eq!(q, INIT);
    assert_eq!(
        delta,
        vec![
            ((INIT, B), (MR, A::Move(R))),
            ((MR, I), (MR, A::Move(R))),
            ((MR, O), (MR, A::Move(R))),
            ((MR, B), (W, A::Move(L))),
            ((W, I), (ML, A::Write(O))),
            ((W, O), (ML, A::Write(I))),
            ((W, B), (FIN, A::Write(I))),
            ((ML, I), (W, A::Move(L))),
            ((ML, O), (W, A::Move(L))),
            ((FIN, I), (H, A::Move(L))),
            ((FIN, O), (H, A::Move(L))),
        ]
    );
}

#[test]
fn add_one_2_3_turns_every_digit() {
    let (q, delta) = add_one_2_3();
    assert_eq!(exec(&delta, &q, tape(&[], B, &[I, O, I])), tape(&[], B, &[I, O, I, O]));
    assert_eq!(exec(&delta, &q, tape(&[O], B, &[I, B, I])), tape(&[], O, &[I, O, B, I]));
    assert_eq!(exec(&delta, &q, tape(&[], B, &[])), tape(&[], B, &[I]));
}
