//! The compile errors and their specification-level model.

use crate::token::Token;
use vstd::prelude::*;

verus! {

/// Specification-level model of a compile error.
///
/// It mirrors [`CompileError`] with mathematical payloads, so that the
/// pipeline's specification functions can speak about errors.
#[verifier::ext_equal]
pub enum ErrorModel {
    /// A word that is neither a mnemonic nor parses as a 16-bit integer.
    Lex(Seq<char>),
    /// A token outside the permitted-next-token set for its position.
    Grammar(Token),
    /// An address operand outside `[0, 99]`.
    OperandRange(i16),
    /// A program of more than 100 commands; carries the command count.
    Capacity(int),
}

/// A compile error, carrying the offending word, token or value.
///
/// Compilation fails fast and whole: the first error encountered, scanning
/// the source in order, is the one reported, and no partial output is ever
/// returned beside it.
#[derive(Debug, PartialEq)]
pub enum CompileError {
    /// A word that is neither a mnemonic nor parses as a 16-bit integer.
    Lex(Vec<char>),
    /// A token outside the permitted-next-token set for its position.
    Grammar(Token),
    /// An address operand outside `[0, 99]`.
    OperandRange(i16),
    /// A program of more than 100 commands; carries the command count.
    Capacity(usize),
}

impl View for CompileError {
    type V = ErrorModel;

    open spec fn view(&self) -> ErrorModel {
        match self {
            CompileError::Lex(word) => ErrorModel::Lex(word@),
            CompileError::Grammar(token) => ErrorModel::Grammar(*token),
            CompileError::OperandRange(value) => ErrorModel::OperandRange(*value),
            CompileError::Capacity(count) => ErrorModel::Capacity(*count as int),
        }
    }
}

} // verus!
