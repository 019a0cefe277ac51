//! The lexical alphabet of the assembler and the grammar's transition table.

use vstd::prelude::*;

verus! {

/// A lexical token: one of the eleven reserved mnemonics, a line terminator,
/// or an integer literal.
///
/// `IntLiteralNoData` is the abstract literal tag used inside the grammar's
/// permitted-next-token sets, where the value carried by a concrete literal
/// is irrelevant; the lexer never emits it.
#[derive(Debug, Clone, Copy, PartialEq, Eq, Structural)]
pub enum Token {
    /// `LDA`: load from an address into the accumulator.
    Load,
    /// `STA`: store the accumulator at an address.
    Store,
    /// `ADD`: add the cell at an address to the accumulator.
    Add,
    /// `SUB`: subtract the cell at an address from the accumulator.
    Subtract,
    /// `INP`: read a value into the accumulator.
    Input,
    /// `OUT`: write the accumulator out.
    Output,
    /// `HLT`: stop the machine.
    End,
    /// `BRA`: branch unconditionally.
    BranchAll,
    /// `BRZ`: branch if the accumulator is zero.
    BranchZero,
    /// `BRP`: branch if the accumulator is zero or positive.
    BranchZeroPos,
    /// `DAT`: place a raw data word.
    DataStore,
    /// End of a source line.
    Endline,
    /// A 16-bit signed integer literal.
    IntLiteral(i16),
    /// The abstract literal tag used in permitted-next-token sets.
    IntLiteralNoData,
}

impl DeepView for Token {
    type V = Token;

    open spec fn deep_view(&self) -> Token {
        *self
    }
}

impl Token {
    /// The mnemonics that take an address operand.
    pub open spec fn is_address_mnemonic(self) -> bool {
        ||| self == Token::Load
        ||| self == Token::Store
        ||| self == Token::Add
        ||| self == Token::Subtract
        ||| self == Token::BranchAll
        ||| self == Token::BranchZero
        ||| self == Token::BranchZeroPos
    }

    /// The mnemonics that take no operand.
    pub open spec fn is_plain_mnemonic(self) -> bool {
        ||| self == Token::Input
        ||| self == Token::Output
        ||| self == Token::End
    }

    /// Any of the eleven reserved mnemonics.
    pub open spec fn is_mnemonic(self) -> bool {
        self.is_address_mnemonic() || self.is_plain_mnemonic() || self == Token::DataStore
    }

    /// The grammar's transition table: the tokens permitted directly after
    /// `self`, where `is_first_token` records whether the current line is
    /// still empty after processing `self`.
    ///
    /// The flag only affects `DataStore`: a data directive standing alone on
    /// its line (followed directly by the line end) is accepted only in the
    /// non-initial position.
    pub open spec fn next_valid_spec(self, is_first_token: bool) -> Seq<Token> {
        if self.is_address_mnemonic() {
            seq![Token::IntLiteralNoData]
        } else if self is IntLiteral || self.is_plain_mnemonic() {
            seq![Token::Endline]
        } else if self == Token::DataStore {
            if is_first_token {
                seq![Token::IntLiteralNoData]
            } else {
                seq![Token::IntLiteralNoData, Token::Endline]
            }
        } else {
            seq![
                Token::Load,
                Token::Store,
                Token::Add,
                Token::Subtract,
                Token::Input,
                Token::Output,
                Token::End,
                Token::BranchAll,
                Token::BranchZero,
                Token::BranchZeroPos,
                Token::DataStore,
                Token::Endline,
            ]
        }
    }

    /// Executable form of the transition table.
    pub fn next_valid(&self, is_first_token: bool) -> (r: Vec<Token>)
        requires
            !(self is IntLiteralNoData),
        ensures
            r@ == self.next_valid_spec(is_first_token),
    {
        let r: Vec<Token> = match self {
            Token::Load
            | Token::Store
            | Token::Add
            | Token::Subtract
            | Token::BranchAll
            | Token::BranchZero
            | Token::BranchZeroPos => vec![Token::IntLiteralNoData],
            Token::IntLiteral(_) | Token::End | Token::Output | Token::Input => {
                vec![Token::Endline]
            },
            Token::DataStore => {
                if is_first_token {
                    vec![Token::IntLiteralNoData]
                } else {
                    vec![Token::IntLiteralNoData, Token::Endline]
                }
            },
            _ => {
                vec![
                    Token::Load,
                    Token::Store,
                    Token::Add,
                    Token::Subtract,
                    Token::Input,
                    Token::Output,
                    Token::End,
                    Token::BranchAll,
                    Token::BranchZero,
                    Token::BranchZeroPos,
                    Token::DataStore,
                    Token::Endline,
                ]
            },
        };
        proof {
            assert(r@ =~= self.next_valid_spec(is_first_token));
        }
        r
    }
}

} // verus!
