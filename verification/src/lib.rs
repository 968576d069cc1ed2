//! Front end and execution engine for a small accumulator-machine assembly
//! language.
//!
//! A program is a list of text lines, one instruction each. The machine has
//! one accumulator, 26 integer cells named `a` to `z`, a three-way comparison
//! flag and a program counter. [`parser::parser`] turns the lines into a
//! [`program::Program`] with its [`program::LabelTable`]; [`runtime::step`]
//! executes one instruction and [`runtime::run`] a whole program against a
//! prepared list of inputs.

pub mod parser;
pub mod program;
pub mod runtime;
