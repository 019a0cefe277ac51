// End-to-end tests of the compile pipeline, from source text to the
// 100-cell memory image.

use lmc_assembler::compiler::Compiler;
use lmc_assembler::error::CompileError;
use lmc_assembler::token::Token;

fn compile_str(source: &str) -> Result<Vec<i16>, CompileError> {
    Compiler::compile(source.to_string())
}

fn expect_image(source: &str) -> Vec<i16> {
    match compile_str(source) {
        Ok(image) => image,
        Err(e) => panic!("expected an image for {:?}, got {:?}", source, e),
    }
}

fn assert_image_prefix(image: &[i16], prefix: &[i16]) {
    assert_eq!(image.len(), 100);
    for (i, expected) in prefix.iter().enumerate() {
        assert_eq!(image[i], *expected, "cell {}", i);
    }
    for i in prefix.len()..100 {
        assert_eq!(image[i], 0, "cell {}", i);
    }
}

#[test]
fn full_program_compiles_to_expected_image() {
    let image = expect_image("INP\nSTA 99\nLDA 99\nADD 99\nOUT\nHLT\n");
    assert_image_prefix(&image, &[901, 399, 599, 199, 902, 0]);
}

#[test]
fn data_directive_alone_populates_cell_zero() {
    let image = expect_image("DAT 42\n");
    assert_image_prefix(&image, &[42]);
}

#[test]
fn missing_operand_is_a_grammar_error_on_the_line_end() {
    assert_eq!(compile_str("LDA\n"), Err(CompileError::Grammar(Token::Endline)));
}

#[test]
fn mnemonic_after_address_mnemonic_is_a_grammar_error() {
    assert_eq!(compile_str("LDA LDA\n"), Err(CompileError::Grammar(Token::Load)));
}

#[test]
fn literal_opening_a_line_is_a_grammar_error() {
    assert_eq!(compile_str("5\n"), Err(CompileError::Grammar(Token::IntLiteral(5))));
}

#[test]
fn unknown_word_is_a_lex_error_naming_it() {
    assert_eq!(compile_str("FOO\n"), Err(CompileError::Lex(vec!['F', 'O', 'O'])));
}

#[test]
fn oversized_literal_is_a_lex_error_naming_it() {
    assert_eq!(
        compile_str("DAT 99999\n"),
        Err(CompileError::Lex(vec!['9', '9', '9', '9', '9']))
    );
}

#[test]
fn operand_above_address_space_is_an_operand_range_error() {
    assert_eq!(compile_str("LDA 100\n"), Err(CompileError::OperandRange(100)));
}

#[test]
fn negative_address_operand_is_an_operand_range_error() {
    assert_eq!(compile_str("BRZ -1\n"), Err(CompileError::OperandRange(-1)));
}

#[test]
fn boundary_addresses_are_accepted() {
    let image = expect_image("LDA 0\nSTA 99\n");
    assert_image_prefix(&image, &[500, 399]);
}

#[test]
fn short_program_fills_exactly_its_prefix() {
    let image = expect_image("INP\nOUT\nHLT\n");
    assert_image_prefix(&image, &[901, 902, 0]);
}

#[test]
fn one_hundred_commands_fill_the_whole_image() {
    let source = "DAT 7\n".repeat(100);
    let image = expect_image(&source);
    assert_eq!(image.len(), 100);
    for i in 0..100 {
        assert_eq!(image[i], 7, "cell {}", i);
    }
}

#[test]
fn more_than_one_hundred_commands_is_a_capacity_error() {
    let source = "DAT 1\n".repeat(101);
    assert_eq!(compile_str(&source), Err(CompileError::Capacity(101)));
}

#[test]
fn negative_data_word_is_stored_unchanged() {
    let image = expect_image("DAT -42\n");
    assert_image_prefix(&image, &[-42]);
}

#[test]
fn extreme_data_words_round_trip() {
    let image = expect_image("DAT 32767\nDAT -32768\n");
    assert_image_prefix(&image, &[32767, -32768]);
}

#[test]
fn plus_signed_operand_is_accepted() {
    let image = expect_image("STA +5\n");
    assert_image_prefix(&image, &[305]);
}

// A bare data directive is syntactically accepted in the non-initial
// position and deliberately produces no command at all.
#[test]
fn bare_data_directive_produces_no_command() {
    let image = expect_image("DAT\n");
    assert_image_prefix(&image, &[]);
}

#[test]
fn blank_lines_are_dropped() {
    let image = expect_image("\n\nINP\n\nHLT\n\n");
    assert_image_prefix(&image, &[901, 0]);
}

#[test]
fn extra_spaces_between_words_are_dropped() {
    let image = expect_image("STA   5\n");
    assert_image_prefix(&image, &[305]);
}

#[test]
fn carriage_returns_and_tabs_are_stripped() {
    let image = expect_image("LDA\t 5\r\nOUT\r\n");
    assert_image_prefix(&image, &[505, 902]);
}

#[test]
fn missing_trailing_line_end_is_supplied() {
    let image = expect_image("INP");
    assert_image_prefix(&image, &[901]);
}

#[test]
fn empty_source_compiles_to_an_all_zero_image() {
    let image = expect_image("");
    assert_image_prefix(&image, &[]);
}

#[test]
fn first_error_in_source_order_wins() {
    // The lexical error on line one is reported, not the range error below.
    assert_eq!(
        compile_str("QQQ\nLDA 100\n"),
        Err(CompileError::Lex(vec!['Q', 'Q', 'Q']))
    );
}

#[test]
fn operand_after_zero_operand_mnemonic_is_a_grammar_error() {
    assert_eq!(
        compile_str("INP 5\n"),
        Err(CompileError::Grammar(Token::IntLiteral(5)))
    );
}

#[test]
fn constructing_a_compiler_succeeds() {
    let _ = Compiler::new("INP\n".to_string());
}
