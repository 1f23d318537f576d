use hack_tools::assembler::{assemble, bin_string, parse, AssemblerError, ParseError};
use hack_tools::symbol_table::SymbolTableError;
use hack_tools::tokenizer::TokenError;

fn lines(text: &str) -> Vec<String> {
    text.lines().map(|l| l.to_string()).collect()
}

const MAX_ASM: &str = "// This file is part of www.nand2tetris.org
// and the book \"The Elements of Computing Systems\"
// by Nisan and Schocken, MIT Press.
// File name: projects/06/max/Max.asm

// Computes R2 = max(R0, R1)  (R0,R1,R2 refer to RAM[0],RAM[1],RAM[2])

   @R0
   D=M              // D = first number
   @R1
   D=D-M            // D = first number - second number
   @OUTPUT_FIRST
   D;JGT            // if D>0 (first is greater) goto output_first
   @R1
   D=M              // D = second number
   @OUTPUT_D
   0;JMP            // goto output_d
(OUTPUT_FIRST)
   @R0             
   D=M              // D = first number
(OUTPUT_D)
   @R2
   M=D              // M[2] = D (greatest number)
(INFINITE_LOOP)
   @INFINITE_LOOP
   0;JMP            // infinite loop
";

const MAX_HACK: &str = "0000000000000000
1111110000010000
0000000000000001
1111010011010000
0000000000001010
1110001100000001
0000000000000001
1111110000010000
0000000000001100
1110101010000111
0000000000000000
1111110000010000
0000000000000010
1110001100001000
0000000000001110
1110101010000111
";

#[test]
fn parser_it_generates_expected_binary_code_for_input() {
    let parsed = parse(&lines(MAX_ASM)).unwrap();
    let expected: Vec<String> = MAX_HACK
        .split_terminator("\n")
        .map(|s| s.to_owned())
        .collect();
    assert_eq!(parsed, expected);
}

#[test]
fn assemble_max_program() {
    let out = assemble(&lines(MAX_ASM)).unwrap();
    assert_eq!(out.len(), 16);
    let joined: String = out.iter().map(|l| format!("{}\n", l)).collect();
    assert_eq!(joined, MAX_HACK);
}

#[test]
fn variables_take_consecutive_addresses() {
    let out = parse(&lines("@x\nD=A\n@y\nM=D\n")).unwrap();
    assert_eq!(out[0], "0000000000010000");
    assert_eq!(out[2], "0000000000010001");
    assert_eq!(out.len(), 4);
}

#[test]
fn variable_seen_twice_keeps_its_address() {
    let out = parse(&lines("@x\n@y\n@x\n@R5\n@z\n")).unwrap();
    assert_eq!(
        out,
        vec![
            "0000000000010000",
            "0000000000010001",
            "0000000000010000",
            "0000000000000101",
            "0000000000010010",
        ]
    );
}

#[test]
fn c_instruction_encoding() {
    let out = parse(&lines("D=A+1;JLE")).unwrap();
    assert_eq!(out, vec!["1110110111010110"]);
    assert!(out[0].starts_with("111"));
    assert_eq!(&out[0][3..10], "0110111");
    assert_eq!(&out[0][10..13], "010");
    assert_eq!(&out[0][13..16], "110");
}

#[test]
fn unknown_fields_encode_as_zero() {
    let out = parse(&lines("X=D;JXX\nAMX=0")).unwrap();
    assert_eq!(out, vec!["1110001100000000", "1110101010000000"]);
}

#[test]
fn labels_point_at_the_next_instruction() {
    let out = parse(&lines("(START)\n@END\n0;JMP\n(END)\n@START\n0;JMP")).unwrap();
    assert_eq!(out[0], "0000000000000010");
    assert_eq!(out[2], "0000000000000000");
    assert_eq!(out.len(), 4);
}

#[test]
fn variable_first_then_label() {
    let out = parse(&lines("@LOOP\n(LOOP)\n@LOOP")).unwrap();
    assert_eq!(out, vec!["0000000000000001", "0000000000000001"]);
    let out = parse(&lines("@SP\n(SP)\n@SP")).unwrap();
    assert_eq!(out, vec!["0000000000000000", "0000000000000000"]);
}

#[test]
fn redeclared_label_is_rejected() {
    let r = parse(&lines("(L)\n@1\nD=A\n(L)\n@2"));
    assert_eq!(r, Err(ParseError::SymbolTableError(SymbolTableError::AlreadySetErr)));
    let r = parse(&lines("(L)\n(L)"));
    assert_eq!(r, Err(ParseError::SymbolTableError(SymbolTableError::AlreadySetErr)));
}

#[test]
fn token_errors_stop_assembly() {
    let r = parse(&lines("@1\n(oops"));
    assert_eq!(r, Err(ParseError::TokenError(TokenError::UnclosedLabelError)));
    let r = assemble(&lines("D="));
    assert_eq!(
        r,
        Err(AssemblerError::ParseError(ParseError::TokenError(TokenError::MissingCmpInstruction)))
    );
}

#[test]
fn output_lines_are_sixteen_binary_digits() {
    let out = parse(&lines(MAX_ASM)).unwrap();
    for l in out {
        assert_eq!(l.len(), 16);
        assert!(l.chars().all(|c| c == '0' || c == '1'));
    }
}

#[test]
fn empty_program_gives_no_lines() {
    assert_eq!(parse(&lines("// nothing\n\n   \n")).unwrap(), Vec::<String>::new());
}

#[test]
fn binary_strings() {
    assert_eq!(bin_string(0), "0000000000000000");
    assert_eq!(bin_string(5), "0000000000000101");
    assert_eq!(bin_string(0xffff), "1111111111111111");
    assert_eq!(bin_string(0x8001), "1000000000000001");
}
