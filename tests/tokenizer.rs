use hack_tools::instructions::{AInstruction, CInstruction};
use hack_tools::tokenizer::{strip_comments, tokenize, Token, TokenError};

fn label(s: &str) -> Result<Option<Token>, TokenError> {
    Ok(Some(Token::Label(s.to_string())))
}

fn alias(s: &str) -> Result<Option<Token>, TokenError> {
    Ok(Some(Token::AInstruction(AInstruction::Alias(s.to_string()))))
}

fn cinstr(dest: Option<&str>, comp: &str, jump: Option<&str>) -> Result<Option<Token>, TokenError> {
    Ok(Some(Token::CInstruction(CInstruction::new(
        dest.map(|d| d.to_string()),
        comp.to_string(),
        jump.map(|j| j.to_string()),
    ))))
}

fn ignores_comments() {
    assert_eq!(strip_comments("//test"), "");
    assert_eq!(strip_comments("//test    "), "");
    assert_eq!(strip_comments("    //test    "), "    ");
    assert_eq!(strip_comments("before comment//test"), "before comment");
    assert_eq!(strip_comments("before comment    //test"), "before comment    ");
    assert_eq!(strip_comments("    before comment    //test"), "    before comment    ");
}

#[test]
fn tokenizer_it_ignores_comments() {
    ignores_comments();
}

#[test]
fn lib_it_ignores_comments() {
    ignores_comments();
}

fn ignores_trailing_whitespace() {
    assert_eq!(tokenize("//test    "), Ok(None));
    assert_eq!(tokenize("    //test    "), Ok(None));
}

#[test]
fn tokenizer_it_ignores_trailing_whitespace() {
    ignores_trailing_whitespace();
}

#[test]
fn lib_it_ignores_trailing_whitespace() {
    ignores_trailing_whitespace();
}

fn empty_is_none() {
    assert_eq!(tokenize("   "), Ok(None));
    assert_eq!(tokenize(""), Ok(None));
}

#[test]
fn tokenizer_it_treats_empty_string_as_none() {
    empty_is_none();
}

#[test]
fn lib_it_treats_empty_string_as_none() {
    empty_is_none();
}

fn extracts_label() {
    assert_eq!(tokenize("(test)"), label("test"));
    assert_eq!(tokenize("(test1)"), label("test1"));
    assert_eq!(tokenize("(test$)"), label("test$"));
    assert_eq!(tokenize("(test_)"), label("test_"));
    assert_eq!(tokenize("(test.)"), label("test."));
    assert_eq!(tokenize("(test:)"), label("test:"));
    assert_eq!(tokenize("(test)//with comment"), label("test"));
    assert_eq!(tokenize("(test)   //with trailing whitespace and comment"), label("test"));
    assert_eq!(tokenize("    (test)//with leading whitespace and comment"), label("test"));
    assert_eq!(tokenize("    (test)    //with leading and trailing whitespace and comment"), label("test"));
}

#[test]
fn tokenizer_it_extracts_label() {
    extracts_label();
}

#[test]
fn lib_it_extracts_label() {
    extracts_label();
}

fn unexpected_after_label() {
    assert!(matches!(tokenize("(test)1"), Err(TokenError::UnexpectedCharacter(_))))
}

#[test]
fn tokenizer_it_detects_unexpected_character_after_label_close() {
    unexpected_after_label();
}

#[test]
fn lib_it_detects_unexpected_character_after_label_close() {
    unexpected_after_label();
}

fn unclosed_label() {
    assert_eq!(tokenize("(test"), Err(TokenError::UnclosedLabelError))
}

#[test]
fn tokenizer_it_detects_missing_closing_character_for_label() {
    unclosed_label();
}

#[test]
fn lib_it_detects_missing_closing_character_for_label() {
    unclosed_label();
}

fn invalid_in_label() {
    assert!(matches!(tokenize("(1test)"), Err(TokenError::InvalidSymbolFirstChar(_))));
    assert!(matches!(tokenize("(t\"est)"), Err(TokenError::InvalidSymbolChar(_))));
}

#[test]
fn tokenizer_it_detects_invalid_characters_in_label() {
    invalid_in_label();
}

#[test]
fn lib_it_detects_invalid_characters_in_label() {
    invalid_in_label();
}

fn extracts_a_instr() {
    assert_eq!(tokenize("@test"), alias("test"));
    assert_eq!(tokenize("@test1"), alias("test1"));
    assert_eq!(tokenize("@test$"), alias("test$"));
    assert_eq!(tokenize("@test_"), alias("test_"));
    assert_eq!(tokenize("@test."), alias("test."));
    assert_eq!(tokenize("@test:"), alias("test:"));
    assert_eq!(tokenize("@test//with comment"), alias("test"));
    assert_eq!(tokenize("@test   //with trailing whitespace and comment"), alias("test"));
    assert_eq!(tokenize("    @test//with leading whitespace and comment"), alias("test"));
    assert_eq!(tokenize("    @test    //with leading and trailing whitespace and comment"), alias("test"));
}

#[test]
fn tokenizer_it_extracts_a_instr() {
    extracts_a_instr();
    assert_eq!(tokenize("@123"), Ok(Some(Token::AInstruction(AInstruction::RawAddr(123)))));
}

#[test]
fn lib_it_extracts_a_instr() {
    extracts_a_instr();
}

fn invalid_in_a_instr() {
    assert!(matches!(tokenize("@1test"), Err(TokenError::InvalidSymbolFirstChar(_))));
    assert!(matches!(tokenize("@t\"est"), Err(TokenError::InvalidSymbolChar(_))));
}

#[test]
fn tokenizer_it_detects_invalid_characters_in_a_instr() {
    invalid_in_a_instr();
}

#[test]
fn lib_it_detects_invalid_characters_in_a_instr() {
    invalid_in_a_instr();
}

fn single_compute() {
    assert_eq!(tokenize("D"), cinstr(None, "D", None));
    assert_eq!(tokenize(" A "), cinstr(None, "A", None));
    assert_eq!(tokenize(" A //some comment"), cinstr(None, "A", None));
}

#[test]
fn tokenizer_it_extracts_single_compute_command() {
    single_compute();
}

#[test]
fn lib_it_extracts_single_compute_command() {
    single_compute();
}

fn compute_with_destination() {
    assert_eq!(tokenize("D=0"), cinstr(Some("D"), "0", None));
    assert_eq!(tokenize("D=M"), cinstr(Some("D"), "M", None));
}

#[test]
fn tokenizer_it_extracts_compute_command_with_destination() {
    compute_with_destination();
}

#[test]
fn lib_it_extracts_compute_command_with_destination() {
    compute_with_destination();
}

fn compute_with_jump() {
    assert_eq!(tokenize("0;JMP"), cinstr(None, "0", Some("JMP")));
    assert_eq!(tokenize("D;JMP"), cinstr(None, "D", Some("JMP")));
}

#[test]
fn tokenizer_it_extracts_compute_command_with_jump() {
    compute_with_jump();
}

#[test]
fn lib_it_extracts_compute_command_with_jump() {
    compute_with_jump();
}

fn compute_with_destination_and_jump() {
    assert_eq!(tokenize("D=0;JMP"), cinstr(Some("D"), "0", Some("JMP")));
    assert_eq!(tokenize("D=A+1;JLE"), cinstr(Some("D"), "A+1", Some("JLE")));
    assert_eq!(tokenize("AMD=D+1;JEQ"), cinstr(Some("AMD"), "D+1", Some("JEQ")));
}

#[test]
fn tokenizer_it_extracts_compute_command_with_destination_and_jump() {
    compute_with_destination_and_jump();
}

#[test]
fn lib_it_extracts_compute_command_with_destination_and_jump() {
    compute_with_destination_and_jump();
}

#[test]
fn errors_carry_character_and_column() {
    match tokenize("  (1test)") {
        Err(TokenError::InvalidSymbolFirstChar(c)) => {
            assert_eq!(c.ch, '1');
            assert_eq!(c.column, 4);
            assert_eq!(c.line, "  (1test)");
        }
        other => panic!("unexpected {:?}", other),
    }
    match tokenize("(test)x") {
        Err(TokenError::UnexpectedCharacter(c)) => {
            assert_eq!(c.ch, 'x');
            assert_eq!(c.column, 7);
        }
        other => panic!("unexpected {:?}", other),
    }
    match tokenize("@ab#c") {
        Err(TokenError::InvalidSymbolChar(c)) => {
            assert_eq!(c.ch, '#');
            assert_eq!(c.column, 4);
        }
        other => panic!("unexpected {:?}", other),
    }
}

#[test]
fn other_token_errors() {
    assert_eq!(tokenize("@"), Err(TokenError::EmptyAInstructionError));
    assert_eq!(tokenize("   @   // nothing"), Err(TokenError::EmptyAInstructionError));
    assert_eq!(tokenize("("), Err(TokenError::UnclosedLabelError));
    assert_eq!(tokenize("D="), Err(TokenError::MissingCmpInstruction));
    assert_eq!(tokenize(";JMP"), Err(TokenError::MissingCmpInstruction));
    assert!(matches!(tokenize("()"), Err(TokenError::InvalidSymbolFirstChar(_))));
}

#[test]
fn a_instruction_literals_are_fifteen_bits() {
    assert_eq!(tokenize("@32767"), Ok(Some(Token::AInstruction(AInstruction::RawAddr(32767)))));
    assert_eq!(tokenize("@0"), Ok(Some(Token::AInstruction(AInstruction::RawAddr(0)))));
    assert!(matches!(tokenize("@32768"), Err(TokenError::InvalidSymbolFirstChar(_))));
}
