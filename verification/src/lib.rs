//! An interpreter for single-tape Turing machines.
//!
//! A machine is a start state together with a transition table; its tape is
//! unbounded in both directions and blank wherever nothing was written. The
//! interpreter applies the first table entry that matches the current state
//! and the symbol under the head, and stops when no entry matches.
//!
//! `symbol`, `list` and `tape` hold the tape, `machine` the tables and the
//! interpreter. `add_one`, `add_one_2_2` and `add_one_2_3` are three machines
//! with what the interpreter makes of them on every tape.

pub mod symbol;
pub mod list;
pub mod tape;
pub mod machine;
pub mod add_one;
pub mod block;
pub mod add_one_2_2;
pub mod add_one_2_3;
