//! A verified interpreter for a small GOTO-style counter-machine language:
//! a program is a flat sequence of optionally labelled `inc` / `dec` / `jmp` /
//! `nop` instructions over natural-number variables, and running it yields the
//! final value of the output variable `Y`.

pub mod ast;
pub mod engine;
pub mod laws;
pub mod lex;
pub mod parse;
pub mod serial;
pub mod store;
