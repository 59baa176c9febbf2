use turing_machine::add_one::add_one;
use turing_machine::add_one_2_2::add_one_2_2;
use turing_machine::add_one_2_3::add_one_2_3;
use turing_machine::list::List;
use turing_machine::machine::exec;
use turing_machine::symbol::S::{B, I, O};
use turing_machine::tape::Tape;

#[test]
fn test_add_one() {
    let t: Tape = (List::from(&[I, I, I]), I, List::from(&[]));
    let (q, delta) = add_one();
    let r = exec(&delta, &q, t);
    assert_eq!(r, (List::from(&[]), B, List::from(&[I, O, O, O, O])));
}

#[test]
fn test_add_one_2_2() {
    let t: Tape = (List::from(&[]), B, List::from(&[I, I, I, I]));
    let (q, delta) = add_one_2_2();
    let r = exec(&delta, &q, t);
    assert_eq!(r, (List::from(&[]), B, List::from(&[I, O, O, O, O])));
}

#[test]
fn test_add_one_2_3() {
    let t: Tape = (List::from(&[]), B, List::from(&[I, I, I, I]));
    let (q, delta) = add_one_2_3();
    let r = exec(&delta, &q, t);
    assert_eq!(r, (List::from(&[]), B, List::from(&[I, O, O, O, O])));
}
