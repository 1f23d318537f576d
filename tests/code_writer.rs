use hack_tools::memory::MemoryError;
use hack_tools::translator::{translate_sources, TranslatorError};
use hack_tools::vm_parser::{Arithmetic, Command, Flow, Goto, Marker, ParseError, ParsedCmd, Segment};
use hack_tools::writer::{CodeWriter, CodeWriterError};

fn text(writer: &CodeWriter) -> String {
    writer.lines().iter().map(|l| format!("{}\n", l)).collect()
}

fn lowered(cmd: ParsedCmd) -> String {
    let mut writer = CodeWriter::new();
    writer.write(Command::new("".to_owned(), cmd)).unwrap();
    text(&writer)
}

const PUSH_D: &str = "@SP\nA=M\nM=D\n@SP\nM=M+1\n";

#[test]
fn push_constant_to_stack() {
    assert_eq!(lowered(ParsedCmd::PushConstant(5)), "//\n@5\nD=A\n@SP\nA=M\nM=D\n@SP\nM=M+1\n");
    assert_eq!(lowered(ParsedCmd::PushConstant(0)), format!("//\nD=0\n{}", PUSH_D));
    assert_eq!(lowered(ParsedCmd::PushConstant(-1)), format!("//\nD=-1\n{}", PUSH_D));
    assert_eq!(lowered(ParsedCmd::PushConstant(-3)), format!("//\n@-3\nD=A\n{}", PUSH_D));
}

#[test]
fn push_and_pop_arguments() {
    assert_eq!(
        lowered(ParsedCmd::Push(Segment::Argument, 0)),
        "//\n@ARG\nA=M\nD=M\n@SP\nA=M\nM=D\n@SP\nM=M+1\n"
    );
    assert_eq!(
        lowered(ParsedCmd::Pop(Segment::Argument, 0)),
        "//\n@ARG\nD=M\n@R13\nM=D\n@SP\nM=M-1\nA=M\nD=M\n@R13\nA=M\nM=D\n"
    );
    assert_eq!(
        lowered(ParsedCmd::Push(Segment::Argument, 1)),
        "//\n@ARG\nD=M\nA=D+1\nD=M\n@SP\nA=M\nM=D\n@SP\nM=M+1\n"
    );
    assert_eq!(
        lowered(ParsedCmd::Pop(Segment::Argument, 1)),
        "//\n@ARG\nD=M+1\n@R13\nM=D\n@SP\nM=M-1\nA=M\nD=M\n@R13\nA=M\nM=D\n"
    );
    assert_eq!(
        lowered(ParsedCmd::Push(Segment::Argument, 2)),
        "//\n@ARG\nD=M\n@2\nA=D+A\nD=M\n@SP\nA=M\nM=D\n@SP\nM=M+1\n"
    );
    assert_eq!(
        lowered(ParsedCmd::Pop(Segment::Argument, 2)),
        "//\n@ARG\nD=M\n@2\nD=D+A\n@R13\nM=D\n@SP\nM=M-1\nA=M\nD=M\n@R13\nA=M\nM=D\n"
    );
}

#[test]
fn push_and_pop_statics_pointers_and_temps() {
    assert_eq!(lowered(ParsedCmd::Push(Segment::Static, 1)), "//\n@ASM.1\nD=M\n@SP\nA=M\nM=D\n@SP\nM=M+1\n");
    assert_eq!(lowered(ParsedCmd::Pop(Segment::Static, 1)), "//\n@SP\nM=M-1\nA=M\nD=M\n@ASM.1\nM=D\n");
    assert_eq!(lowered(ParsedCmd::Push(Segment::Static, 5)), "//\n@ASM.5\nD=M\n@SP\nA=M\nM=D\n@SP\nM=M+1\n");
    assert_eq!(lowered(ParsedCmd::Pop(Segment::Static, 5)), "//\n@SP\nM=M-1\nA=M\nD=M\n@ASM.5\nM=D\n");
    assert_eq!(lowered(ParsedCmd::Push(Segment::Pointer, 0)), "//\n@THIS\nD=M\n@SP\nA=M\nM=D\n@SP\nM=M+1\n");
    assert_eq!(lowered(ParsedCmd::Pop(Segment::Pointer, 0)), "//\n@SP\nM=M-1\nA=M\nD=M\n@THIS\nM=D\n");
    assert_eq!(lowered(ParsedCmd::Pop(Segment::Pointer, 1)), "//\n@SP\nM=M-1\nA=M\nD=M\n@THAT\nM=D\n");
    assert_eq!(lowered(ParsedCmd::Push(Segment::Temp, 3)), format!("//\n@8\nD=M\n{}", PUSH_D));
    assert_eq!(lowered(ParsedCmd::Pop(Segment::Temp, 7)), "//\n@SP\nM=M-1\nA=M\nD=M\n@12\nM=D\n");
}

#[test]
fn out_of_bounds_segments() {
    for cmd in [
        ParsedCmd::Push(Segment::Temp, 8),
        ParsedCmd::Pop(Segment::Temp, 8),
        ParsedCmd::Push(Segment::Pointer, 2),
        ParsedCmd::Pop(Segment::Pointer, 2),
    ] {
        let mut writer = CodeWriter::new();
        let r = writer.write(Command::new("x".to_owned(), cmd.clone()));
        let (seg, idx) = match cmd {
            ParsedCmd::Push(s, i) | ParsedCmd::Pop(s, i) => (s, i),
            _ => unreachable!(),
        };
        assert_eq!(r, Err(CodeWriterError::Memory(MemoryError::OutOfBounds(idx, seg))));
        assert_eq!(text(&writer), "//x\n");
    }
}

#[test]
fn binary_and_unary_arithmetic() {
    let bin = |op: &str| format!("//\n@SP\nM=M-1\nA=M\nD=M\n@SP\nM=M-1\nA=M\nM=M{}D\n@SP\nM=M+1\n", op);
    assert_eq!(lowered(ParsedCmd::Arithmetic(Arithmetic::Add)), bin("+"));
    assert_eq!(lowered(ParsedCmd::Arithmetic(Arithmetic::Sub)), bin("-"));
    assert_eq!(lowered(ParsedCmd::Arithmetic(Arithmetic::And)), bin("&"));
    assert_eq!(lowered(ParsedCmd::Arithmetic(Arithmetic::Or)), bin("|"));
    assert_eq!(lowered(ParsedCmd::Arithmetic(Arithmetic::Neg)), "//\n@SP\nM=M-1\nA=M\nM=-M\n@SP\nM=M+1\n");
    assert_eq!(lowered(ParsedCmd::Arithmetic(Arithmetic::Not)), "//\n@SP\nM=M-1\nA=M\nM=!M\n@SP\nM=M+1\n");
}

fn comparison(jump: &str, t: &str, e: &str) -> String {
    format!(
        "@SP\nM=M-1\nA=M\nD=M\n@SP\nM=M-1\nA=M\nD=M-D\n@{t}\nD;{jump}\nD=0\n@{e}\n0;JMP\n({t})\nD=-1\n({e})\n@SP\nA=M\nM=D\n@SP\nM=M+1\n"
    )
}

#[test]
fn comparisons_use_fresh_labels() {
    assert_eq!(lowered(ParsedCmd::Arithmetic(Arithmetic::Lt)), format!("//\n{}", comparison("JLT", "ASM.1", "ASM.2")));
    assert_eq!(lowered(ParsedCmd::Arithmetic(Arithmetic::Gt)), format!("//\n{}", comparison("JGT", "ASM.1", "ASM.2")));
    assert_eq!(lowered(ParsedCmd::Arithmetic(Arithmetic::Eq)), format!("//\n{}", comparison("JEQ", "ASM.1", "ASM.2")));
    let mut writer = CodeWriter::new();
    writer.write(Command::new("eq".to_owned(), ParsedCmd::Arithmetic(Arithmetic::Eq))).unwrap();
    writer.write(Command::new("lt".to_owned(), ParsedCmd::Arithmetic(Arithmetic::Lt))).unwrap();
    assert_eq!(
        text(&writer),
        format!("//eq\n{}//lt\n{}", comparison("JEQ", "ASM.1", "ASM.2"), comparison("JLT", "ASM.3", "ASM.4"))
    );
}

#[test]
fn jumps_and_labels_take_the_scope_prefix() {
    assert_eq!(
        lowered(ParsedCmd::Flow(Flow::Goto(Goto::Conditional, "test".to_owned()))),
        "//\n@SP\nM=M-1\nA=M\nD=M\n@ASM.test\nD;JGT\nD;JLT\n"
    );
    assert_eq!(lowered(ParsedCmd::Flow(Flow::Goto(Goto::Direct, "test".to_owned()))), "//\n@ASM.test\n0;JMP\n");
    assert_eq!(lowered(ParsedCmd::Marker(Marker::Label("test".to_owned()))), "//\n(ASM.test)\n");
    let mut writer = CodeWriter::new();
    writer.set_namespace("Main");
    writer.write(Command::new("".to_owned(), ParsedCmd::Marker(Marker::Function("Main.f".to_owned(), 0)))).unwrap();
    writer.write(Command::new("".to_owned(), ParsedCmd::Marker(Marker::Label("LOOP".to_owned())))).unwrap();
    writer.write(Command::new("".to_owned(), ParsedCmd::Flow(Flow::Goto(Goto::Direct, "LOOP".to_owned())))).unwrap();
    assert_eq!(text(&writer), "//\n(Main.f)\n//\n(MAIN.Main.f$.LOOP)\n//\n@MAIN.Main.f$.LOOP\n0;JMP\n");
}

const RETURN_ASM: &str = "@LCL\nD=M\n@R13\nM=D\n@5\nA=D-A\nD=M\n@R14\nM=D\n@ARG\nD=M\n@R15\nM=D\n@SP\nM=M-1\nA=M\nD=M\n@R15\nA=M\nM=D\n@ARG\nD=M+1\n@SP\nM=D\n@R13\nA=M-1\nD=M\n@THAT\nM=D\n@R13\nD=M\n@2\nA=D-A\nD=M\n@THIS\nM=D\n@R13\nD=M\n@3\nA=D-A\nD=M\n@ARG\nM=D\n@R13\nD=M\n@4\nA=D-A\nD=M\n@LCL\nM=D\n@R14\nA=M\n0;JMP\n";

#[test]
fn return_from_function() {
    assert_eq!(lowered(ParsedCmd::Flow(Flow::Return)), format!("//\n{}", RETURN_ASM));
}

fn call_asm(name: &str, ret: &str, args_back: u32) -> String {
    format!(
        "@{ret}\nD=A\n@SP\nA=M\nM=D\n@SP\nM=M+1\n@LCL\nD=M\n@SP\nA=M\nM=D\n@SP\nM=M+1\n@ARG\nD=M\n@SP\nA=M\nM=D\n@SP\nM=M+1\n@THIS\nD=M\n@SP\nA=M\nM=D\n@SP\nM=M+1\n@THAT\nD=M\n@SP\nA=M\nM=D\n@SP\nM=M+1\n@SP\nD=M\n@{args_back}\nD=D-A\n@ARG\nM=D\n@SP\nD=M\n@LCL\nM=D\n@{name}\n0;JMP\n({ret})\n"
    )
}

#[test]
fn call_function_with_no_arguments() {
    assert_eq!(
        lowered(ParsedCmd::Flow(Flow::Call("Main.test".to_owned(), 0))),
        format!("//\n{}", call_asm("Main.test", "ASM.Main.test$ret.1", 5))
    );
}

#[test]
fn call_then_return_restores_the_frame() {
    let mut writer = CodeWriter::new();
    writer.write(Command::new("call Main.test 0".to_owned(), ParsedCmd::Flow(Flow::Call("Main.test".to_owned(), 0)))).unwrap();
    writer.write(Command::new("call Main.test 2".to_owned(), ParsedCmd::Flow(Flow::Call("Main.test".to_owned(), 2)))).unwrap();
    writer.write(Command::new("return".to_owned(), ParsedCmd::Flow(Flow::Return))).unwrap();
    assert_eq!(
        text(&writer),
        format!(
            "//call Main.test 0\n{}//call Main.test 2\n{}//return\n{}",
            call_asm("Main.test", "ASM.Main.test$ret.1", 5),
            call_asm("Main.test", "ASM.Main.test$ret.2", 7),
            RETURN_ASM
        )
    );
}

#[test]
fn declare_function() {
    assert_eq!(
        lowered(ParsedCmd::Marker(Marker::Function("test".to_owned(), 4))),
        format!("//\n(test)\n{}", format!("D=0\n{}", PUSH_D).repeat(4))
    );
}

#[test]
fn bootstrap_calls_sys_init() {
    let mut writer = CodeWriter::new();
    writer.init().unwrap();
    assert_eq!(
        text(&writer),
        format!("@256\nD=A\n@SP\nM=D\n//call Sys.init 0\n{}", call_asm("Sys.init", "ASM.Sys.init$ret.1", 5))
    );
}

#[test]
fn static_variables_follow_the_file() {
    let mut writer = CodeWriter::new();
    writer.set_namespace("Foo");
    writer.write(Command::new("".to_owned(), ParsedCmd::Push(Segment::Static, 3))).unwrap();
    assert_eq!(text(&writer), format!("//\n@FOO.3\nD=M\n{}", PUSH_D));
}

#[test]
fn translate_whole_program() {
    let sources = vec![
        ("Main".to_string(), vec!["function Main.main 0".to_string(), "push constant 7".to_string(), "return".to_string()]),
        ("Sys".to_string(), vec!["function Sys.init 0".to_string(), "call Main.main 0".to_string(), "label END".to_string(), "goto END".to_string()]),
    ];
    let out = translate_sources(&sources).unwrap();
    let text: String = out.iter().map(|l| format!("{}\n", l)).collect();
    let expected = format!(
        "@256\nD=A\n@SP\nM=D\n//call Sys.init 0\n{}//function Main.main 0\n(Main.main)\n//push constant 7\n@7\nD=A\n{}//return\n{}//function Sys.init 0\n(Sys.init)\n//call Main.main 0\n{}//label END\n(SYS.Sys.init$.END)\n//goto END\n@SYS.Sys.init$.END\n0;JMP\n",
        call_asm("Sys.init", "ASM.Sys.init$ret.1", 5),
        PUSH_D,
        RETURN_ASM,
        call_asm("Main.main", "SYS.Sys.init$.Main.main$ret.1", 5),
    );
    assert_eq!(text, expected);
}

#[test]
fn translate_reports_parse_errors() {
    let sources = vec![("Main".to_string(), vec!["push nowhere 1".to_string()])];
    assert_eq!(
        translate_sources(&sources),
        Err(TranslatorError::ParseError(ParseError::UnknownSegmentError("nowhere".to_string())))
    );
}
