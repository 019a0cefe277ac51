//! A single-pass assembler for a small one-address accumulator machine.
//!
//! Source text is lexed into tokens, checked against a line grammar by a
//! table-driven state machine, turned into commands with range-checked
//! operands, and encoded into a fixed 100-cell memory image.

pub mod command;
pub mod compiler;
pub mod error;
pub mod token;
