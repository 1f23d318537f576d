use hack_tools::label_manager::LabelManager;
use hack_tools::memory::{MemCmdWriter, MemoryError};
use hack_tools::reg_mgr::RegMgr;
use hack_tools::vm_parser::Segment;

#[test]
fn static_labels_count_up_in_the_file_scope() {
    let mut m = LabelManager::new("main");
    assert_eq!(m.generate_static(), "MAIN.1");
    m.start_function("Main.f");
    assert_eq!(m.generate_static(), "MAIN.2");
    assert_eq!(m.static_count(), 2);
}

#[test]
fn unique_labels_count_per_name_and_scope() {
    let mut m = LabelManager::new("main");
    assert_eq!(m.generate_label("f$ret", true), "MAIN.f$ret.1");
    assert_eq!(m.generate_label("f$ret", true), "MAIN.f$ret.2");
    assert_eq!(m.generate_label("g$ret", true), "MAIN.g$ret.1");
    assert_eq!(m.generate_label("LOOP", false), "MAIN.LOOP");
    m.start_function("Main.f");
    assert_eq!(m.generate_label("f$ret", true), "MAIN.Main.f$.f$ret.1");
    assert_eq!(m.generate_label("LOOP", false), "MAIN.Main.f$.LOOP");
    m.start_function("g");
    assert_eq!(m.generate_label("X", false), "MAIN.Main.f$.g$.X");
    m.end_function();
    assert_eq!(m.generate_label("LOOP", false), "MAIN.Main.f$.LOOP");
    m.end_function();
    m.end_function();
    assert_eq!(m.generate_label("f$ret", true), "MAIN.f$ret.3");
}

#[test]
fn new_file_starts_over() {
    let mut m = LabelManager::new("a");
    m.generate_static();
    m.start_function("f");
    m.set_filename("b");
    assert_eq!(m.generate_static(), "B.1");
    assert_eq!(m.generate_label("L", false), "B.L");
}

#[test]
fn memory_writer_lowers_directly() {
    let w = MemCmdWriter::new("prog");
    let mut regs = RegMgr::new(13, 15).unwrap();
    assert_eq!(w.push_constant(2).join("\n"), "@2\nD=A\n@SP\nA=M\nM=D\n@SP\nM=M+1");
    assert_eq!(w.push_to_stack(Segment::Static, 0).unwrap()[0], "@PROG.0");
    assert_eq!(w.push_to_stack(Segment::Pointer, 2), Err(MemoryError::OutOfBounds(2, Segment::Pointer)));
    let popped = w.pop_stack_to(&mut regs, Segment::Local, 3).unwrap();
    assert_eq!(popped[0..5].join("\n"), "@LCL\nD=M\n@3\nD=D+A\n@R13");
    let again = w.pop_stack_to(&mut regs, Segment::That, 0).unwrap();
    assert_eq!(again[2], "@R13");
}
