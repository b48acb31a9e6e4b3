//! A small POSIX-style shell core: a quoting-aware lexer, an
//! operator-precedence parser, a word expander and an executor modelled as a
//! state machine that decides which processes to run and how their exit
//! statuses combine.
//!
//! One line of input flows [`lexer`] → [`parser`] → [`session`]; the
//! [`executor`] holds the session state and expands words as statements run.
//! Forking, descriptor wiring and waiting are outside work: a driver performs
//! each [`session::Action`] and reports its outcome back as a
//! [`session::Event`], so every decision — what runs, in what order, and how
//! statuses combine — stays verified here.

use vstd::prelude::*;

pub mod ast;
pub mod completion;
pub mod executor;
pub mod lexer;
pub mod parser;
pub mod processor;
pub mod roundtrip;
pub mod session;
pub mod text;
pub mod tokenizer;
pub mod types;
pub mod utils;
pub mod word;

verus! {

/// Relies on `nix::unistd::getpid`: returns the calling process's id.
/// Nothing can be promised of the value; callers treat it as opaque.
#[verifier::external_body]
pub fn shell_pid() -> i32 {
    nix::unistd::getpid().as_raw()
}

} // verus!
