use hack_tools::vm_parser::{
    parse_line, Arithmetic, Command, Flow, Goto, Marker, ParseError, ParsedCmd, Parser, Segment,
};

fn make_cmd(cmd: &str) -> Command {
    let mut parser = Parser::new(vec![cmd.to_string()]);
    parser.next().transpose().unwrap().unwrap()
}

#[test]
fn it_should_return_none_when_no_more_commands_available() {
    let mut parser = Parser::new(Vec::new());
    assert!(parser.next().is_none())
}

#[test]
fn it_should_return_push_constant_for_push_constant_string() {
    assert_eq!(make_cmd("push constant 3").parsed(), &ParsedCmd::PushConstant(3))
}

#[test]
fn it_should_return_error_when_unknown_single_command_supplied() {
    let mut parser = Parser::new(vec!["wrong".to_string()]);
    match parser.next().transpose() {
        Err(ParseError::UnknownCommandError(s)) => assert_eq!(s, "wrong".to_owned()),
        other => panic!("unexpected {:?}", other),
    }
}

#[test]
fn it_should_return_error_when_unknown_segment_supplied() {
    for segment in vec!["nosegment", "constant"] {
        let v = format!("pop {} 3", segment);
        let mut parser = Parser::new(vec![v]);
        match parser.next().transpose() {
            Err(ParseError::UnknownSegmentError(s)) => assert_eq!(s, segment),
            other => panic!("unexpected {:?}", other),
        }
    }
}

#[test]
fn arithmetic_commands() {
    let cases = [
        ("add", Arithmetic::Add),
        ("sub", Arithmetic::Sub),
        ("neg", Arithmetic::Neg),
        ("eq", Arithmetic::Eq),
        ("gt", Arithmetic::Gt),
        ("lt", Arithmetic::Lt),
        ("and", Arithmetic::And),
        ("or", Arithmetic::Or),
        ("not", Arithmetic::Not),
    ];
    for (s, a) in cases {
        assert_eq!(make_cmd(s).parsed(), &ParsedCmd::Arithmetic(a));
    }
}

#[test]
fn flow_and_marker_commands() {
    assert_eq!(
        make_cmd("if-goto LOOP_START").parsed(),
        &ParsedCmd::Flow(Flow::Goto(Goto::Conditional, "LOOP_START".to_string()))
    );
    assert_eq!(
        make_cmd("goto LOOP_START").parsed(),
        &ParsedCmd::Flow(Flow::Goto(Goto::Direct, "LOOP_START".to_string()))
    );
    assert_eq!(make_cmd("return").parsed(), &ParsedCmd::Flow(Flow::Return));
    assert_eq!(
        make_cmd("label LOOP_START").parsed(),
        &ParsedCmd::Marker(Marker::Label("LOOP_START".to_string()))
    );
    assert_eq!(
        make_cmd("function test 3").parsed(),
        &ParsedCmd::Marker(Marker::Function("test".to_string(), 3))
    );
    assert_eq!(
        make_cmd("call Main.test 2").parsed(),
        &ParsedCmd::Flow(Flow::Call("Main.test".to_string(), 2))
    );
}

#[test]
fn push_and_pop_segments() {
    let cases = [
        ("argument", Segment::Argument),
        ("local", Segment::Local),
        ("static", Segment::Static),
        ("this", Segment::This),
        ("that", Segment::That),
        ("pointer", Segment::Pointer),
        ("temp", Segment::Temp),
    ];
    for (s, seg) in cases {
        assert_eq!(make_cmd(&format!("push {} 3", s)).parsed(), &ParsedCmd::Push(seg, 3));
        assert_eq!(make_cmd(&format!("pop {} 3", s)).parsed(), &ParsedCmd::Pop(seg, 3));
    }
}

#[test]
fn comments_whitespace_and_original_line() {
    let c = make_cmd("   push   local 2   // save it");
    assert_eq!(c.parsed(), &ParsedCmd::Push(Segment::Local, 2));
    assert_eq!(c.original(), "   push   local 2   // save it");
    assert_eq!(make_cmd("// only a comment").parsed(), &ParsedCmd::Noop);
    assert_eq!(make_cmd("").parsed(), &ParsedCmd::Noop);
    assert_eq!(make_cmd("\tadd\t").parsed(), &ParsedCmd::Arithmetic(Arithmetic::Add));
}

#[test]
fn numbers_and_their_limits() {
    assert_eq!(parse_line("push constant -7"), Ok(ParsedCmd::PushConstant(-7)));
    assert_eq!(parse_line("push constant 32767"), Ok(ParsedCmd::PushConstant(32767)));
    assert_eq!(parse_line("push constant -32768"), Ok(ParsedCmd::PushConstant(-32768)));
    assert_eq!(
        parse_line("push constant 32768"),
        Err(ParseError::InvalidMemoryLocation("32768".to_string()))
    );
    assert_eq!(parse_line("push local 65535"), Ok(ParsedCmd::Push(Segment::Local, 65535)));
    assert_eq!(
        parse_line("pop local 65536"),
        Err(ParseError::InvalidMemoryLocation("65536".to_string()))
    );
    assert_eq!(
        parse_line("function f 256"),
        Err(ParseError::InvalidMemoryLocation("256".to_string()))
    );
    assert_eq!(
        parse_line("call f x"),
        Err(ParseError::InvalidMemoryLocation("x".to_string()))
    );
    assert_eq!(
        parse_line("pop nowhere x"),
        Err(ParseError::InvalidMemoryLocation("x".to_string()))
    );
}

#[test]
fn unknown_commands_are_joined() {
    assert_eq!(
        parse_line("jump  to   there now"),
        Err(ParseError::UnknownCommandError("jump to there now".to_string()))
    );
    assert_eq!(
        parse_line("jump there"),
        Err(ParseError::UnknownCommandError("jump there".to_string()))
    );
    assert_eq!(
        parse_line("move a 1"),
        Err(ParseError::UnknownCommandError("move a 1".to_string()))
    );
}

#[test]
fn parser_walks_every_line() {
    let mut parser = Parser::new(vec!["push constant 1".to_string(), "".to_string(), "bogus".to_string()]);
    assert_eq!(parser.next().unwrap().unwrap().parsed(), &ParsedCmd::PushConstant(1));
    assert_eq!(parser.next().unwrap().unwrap().parsed(), &ParsedCmd::Noop);
    assert!(parser.next().unwrap().is_err());
    assert!(parser.next().is_none());
}
