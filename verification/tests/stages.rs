// Unit tests of the pipeline stages: the transition table, the command
// builder with its operand-range rule, and the encoder.

use lmc_assembler::command::Command;
use lmc_assembler::compiler::Compiler;
use lmc_assembler::error::CompileError;
use lmc_assembler::token::Token;

#[test]
fn encoding_table_matches_the_opcode_digits() {
    assert_eq!(Command::LDA(5).get_byte_data(), 505);
    assert_eq!(Command::STA(0).get_byte_data(), 300);
    assert_eq!(Command::ADD(99).get_byte_data(), 199);
    assert_eq!(Command::SUB(10).get_byte_data(), 210);
    assert_eq!(Command::INP.get_byte_data(), 901);
    assert_eq!(Command::OUT.get_byte_data(), 902);
    assert_eq!(Command::HLT.get_byte_data(), 0);
    assert_eq!(Command::BRA(33).get_byte_data(), 633);
    assert_eq!(Command::BRZ(1).get_byte_data(), 701);
    assert_eq!(Command::BRP(12).get_byte_data(), 812);
    assert_eq!(Command::DAT(-7).get_byte_data(), -7);
}

#[test]
fn address_mnemonics_map_to_their_commands() {
    assert_eq!(Command::from_token_location_literal(Token::Load, 7), Command::LDA(7));
    assert_eq!(Command::from_token_location_literal(Token::Store, 8), Command::STA(8));
    assert_eq!(Command::from_token_location_literal(Token::Add, 9), Command::ADD(9));
    assert_eq!(Command::from_token_location_literal(Token::Subtract, 0), Command::SUB(0));
    assert_eq!(Command::from_token_location_literal(Token::BranchAll, 1), Command::BRA(1));
    assert_eq!(Command::from_token_location_literal(Token::BranchZero, 2), Command::BRZ(2));
    assert_eq!(
        Command::from_token_location_literal(Token::BranchZeroPos, 3),
        Command::BRP(3)
    );
}

#[test]
fn address_mnemonics_expect_a_literal_next() {
    for mnemonic in [
        Token::Load,
        Token::Store,
        Token::Add,
        Token::Subtract,
        Token::BranchAll,
        Token::BranchZero,
        Token::BranchZeroPos,
    ] {
        assert_eq!(mnemonic.next_valid(true), vec![Token::IntLiteralNoData]);
        assert_eq!(mnemonic.next_valid(false), vec![Token::IntLiteralNoData]);
    }
}

#[test]
fn literal_and_plain_mnemonics_expect_a_line_end_next() {
    for token in [Token::IntLiteral(3), Token::End, Token::Output, Token::Input] {
        assert_eq!(token.next_valid(true), vec![Token::Endline]);
        assert_eq!(token.next_valid(false), vec![Token::Endline]);
    }
}

#[test]
fn data_directive_permits_a_bare_line_only_non_initially() {
    assert_eq!(Token::DataStore.next_valid(true), vec![Token::IntLiteralNoData]);
    assert_eq!(
        Token::DataStore.next_valid(false),
        vec![Token::IntLiteralNoData, Token::Endline]
    );
}

#[test]
fn line_end_permits_any_mnemonic_or_another_line_end() {
    let next = Token::Endline.next_valid(true);
    assert_eq!(
        next,
        vec![
            Token::Load,
            Token::Store,
            Token::Add,
            Token::Subtract,
            Token::Input,
            Token::Output,
            Token::End,
            Token::BranchAll,
            Token::BranchZero,
            Token::BranchZeroPos,
            Token::DataStore,
            Token::Endline,
        ]
    );
}

fn build_line(mnemonic: Token, value: i16) -> Result<Vec<Command>, CompileError> {
    let tokens = vec![mnemonic, Token::IntLiteral(value), Token::Endline];
    Compiler::create_cmd_structure(&tokens)
}

#[test]
fn builder_accepts_the_address_space_boundaries() {
    assert_eq!(build_line(Token::Load, 0), Ok(vec![Command::LDA(0)]));
    assert_eq!(build_line(Token::Load, 99), Ok(vec![Command::LDA(99)]));
}

#[test]
fn builder_rejects_just_outside_the_address_space() {
    assert_eq!(build_line(Token::Load, -1), Err(CompileError::OperandRange(-1)));
    assert_eq!(build_line(Token::Load, 100), Err(CompileError::OperandRange(100)));
}

#[test]
fn builder_checks_the_range_for_every_address_mnemonic() {
    for mnemonic in [
        Token::Load,
        Token::Store,
        Token::Add,
        Token::Subtract,
        Token::BranchAll,
        Token::BranchZero,
        Token::BranchZeroPos,
    ] {
        assert!(build_line(mnemonic, 50).is_ok());
        assert_eq!(build_line(mnemonic, 100), Err(CompileError::OperandRange(100)));
    }
}

#[test]
fn builder_keeps_source_order() {
    let tokens = vec![
        Token::Input,
        Token::Endline,
        Token::Store,
        Token::IntLiteral(20),
        Token::Endline,
        Token::End,
        Token::Endline,
    ];
    assert_eq!(
        Compiler::create_cmd_structure(&tokens),
        Ok(vec![Command::INP, Command::STA(20), Command::HLT])
    );
}

#[test]
fn validator_groups_lines_and_drops_blank_ones() {
    let tokens = vec![
        Token::Endline,
        Token::Input,
        Token::Endline,
        Token::Endline,
        Token::DataStore,
        Token::IntLiteral(5),
        Token::Endline,
    ];
    let groups = Compiler::create_token_groups_validate(&tokens).unwrap();
    assert_eq!(
        groups,
        vec![
            vec![Token::Input],
            vec![Token::DataStore, Token::IntLiteral(5)],
        ]
    );
}

#[test]
fn validator_rejects_a_data_directive_literal_after_a_literal() {
    let tokens = vec![
        Token::DataStore,
        Token::IntLiteral(5),
        Token::IntLiteral(6),
        Token::Endline,
    ];
    assert_eq!(
        Compiler::create_token_groups_validate(&tokens),
        Err(CompileError::Grammar(Token::IntLiteral(6)))
    );
}

#[test]
fn lexer_stages_split_normalize_and_classify() {
    let prepared = Compiler::prepare_source("LDA 5");
    assert_eq!(prepared, vec!['L', 'D', 'A', ' ', '5', '\n']);
    let words = Compiler::acquire_words(&prepared);
    assert_eq!(words, vec![vec!['L', 'D', 'A'], vec!['5'], vec!['\n']]);
    let tokens = Compiler::tokenise(&words).unwrap();
    assert_eq!(tokens, vec![Token::Load, Token::IntLiteral(5), Token::Endline]);
}
