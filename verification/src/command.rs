//! The semantic instruction set and its numeric encoding.

use crate::token::Token;
use vstd::prelude::*;

verus! {

/// A machine command: an opcode with an optional operand.
///
/// Address-carrying commands hold an 8-bit address; the builder only ever
/// constructs them with addresses inside `[0, 99]` (see [`Command::wf`]).
/// `DAT` holds a raw signed 16-bit data word with no range restriction.
#[derive(Debug, Clone, Copy, PartialEq, Eq, Structural)]
pub enum Command {
    /// Load from address: encodes as `5xx`.
    LDA(u8),
    /// Store at address: encodes as `3xx`.
    STA(u8),
    /// Add cell at address: encodes as `1xx`.
    ADD(u8),
    /// Subtract cell at address: encodes as `2xx`.
    SUB(u8),
    /// Read input: encodes as `901`.
    INP,
    /// Write output: encodes as `902`.
    OUT,
    /// Halt: encodes as `000`.
    HLT,
    /// Branch always: encodes as `6xx`.
    BRA(u8),
    /// Branch if zero: encodes as `7xx`.
    BRZ(u8),
    /// Branch if zero or positive: encodes as `8xx`.
    BRP(u8),
    /// Raw data word, stored unchanged.
    DAT(i16),
}

impl Command {
    /// Every address-carrying command holds an address inside the machine's
    /// 100-cell address space.
    pub open spec fn wf(self) -> bool {
        match self {
            Command::LDA(a) => a <= 99,
            Command::STA(a) => a <= 99,
            Command::ADD(a) => a <= 99,
            Command::SUB(a) => a <= 99,
            Command::BRA(a) => a <= 99,
            Command::BRZ(a) => a <= 99,
            Command::BRP(a) => a <= 99,
            Command::INP => true,
            Command::OUT => true,
            Command::HLT => true,
            Command::DAT(_) => true,
        }
    }

    /// The memory word a command encodes to: the opcode digit in the
    /// hundreds place concatenated with the two-digit address, the fixed
    /// words for the zero-operand opcodes, or the raw data word.
    pub open spec fn encode_spec(self) -> i16 {
        match self {
            Command::LDA(a) => (500 + a) as i16,
            Command::STA(a) => (300 + a) as i16,
            Command::ADD(a) => (100 + a) as i16,
            Command::SUB(a) => (200 + a) as i16,
            Command::BRA(a) => (600 + a) as i16,
            Command::BRZ(a) => (700 + a) as i16,
            Command::BRP(a) => (800 + a) as i16,
            Command::INP => 901,
            Command::OUT => 902,
            Command::HLT => 0,
            Command::DAT(v) => v,
        }
    }

    /// The command an address mnemonic maps to, for a given address.
    pub open spec fn from_token_spec(token: Token, location: u8) -> Command {
        if token == Token::Load {
            Command::LDA(location)
        } else if token == Token::Store {
            Command::STA(location)
        } else if token == Token::Add {
            Command::ADD(location)
        } else if token == Token::Subtract {
            Command::SUB(location)
        } else if token == Token::BranchAll {
            Command::BRA(location)
        } else if token == Token::BranchZero {
            Command::BRZ(location)
        } else {
            Command::BRP(location)
        }
    }

    /// Encode this command into the memory word it occupies.
    pub fn get_byte_data(&self) -> (r: i16)
        requires
            self.wf(),
        ensures
            r == self.encode_spec(),
    {
        match self {
            Command::LDA(value) => 500 + (*value as i16),
            Command::STA(value) => 300 + (*value as i16),
            Command::ADD(value) => 100 + (*value as i16),
            Command::SUB(value) => 200 + (*value as i16),
            Command::INP => 901,
            Command::OUT => 902,
            Command::HLT => 0,
            Command::BRA(value) => 600 + (*value as i16),
            Command::BRZ(value) => 700 + (*value as i16),
            Command::BRP(value) => 800 + (*value as i16),
            Command::DAT(value) => *value,
        }
    }

    /// Build the addressed command for one of the address mnemonics.
    pub fn from_token_location_literal(token: Token, location: u8) -> (r: Command)
        requires
            token.is_address_mnemonic(),
            location <= 99,
        ensures
            r == Command::from_token_spec(token, location),
            r.wf(),
    {
        match token {
            Token::Load => Command::LDA(location),
            Token::Store => Command::STA(location),
            Token::Add => Command::ADD(location),
            Token::Subtract => Command::SUB(location),
            Token::BranchAll => Command::BRA(location),
            Token::BranchZero => Command::BRZ(location),
            Token::BranchZeroPos => Command::BRP(location),
            _ => {
                proof {
                    assert(false);
                }
                Command::HLT
            },
        }
    }
}

} // verus!
