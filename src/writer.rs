//! Lowers VM commands to Hack assembly, one command at a time.

use vstd::prelude::*;
use crate::arithmetic::{arithmetic, arithmetic_spec, is_comparison};
use crate::text::lines_view;
use crate::flow::{asm_goto, asm_if_goto, call_spec, flow, flow_fits, flow_spec, ret_name, return_spec};
use crate::label_manager::{
    gen_count, gen_create, gen_unique, lm_end, lm_fresh, lm_label, lm_start, lm_top, uppercase_of, GenView, LabelManager,
    LmView,
};
use crate::marker::{asm_locals, marker, marker_spec};
use crate::memory::{pop_spec, push_spec, MemCmdWriter, MemoryError};
use crate::reg_mgr::{reg_name, RegMgr, RegMgrError};
use crate::snippets::{asm_d_to_constant, asm_push_d, extend, paren};
use crate::vm_parser::{cmd_shape, CmdShape, Command, Flow, Goto, Marker, ParsedCmd, Segment};

verus! {

/// First general-purpose scratch register.
pub const FIRST_SCRATCH: u8 = 13;

/// Last general-purpose scratch register.
pub const LAST_SCRATCH: u8 = 15;

#[derive(Debug, Clone, PartialEq, Eq)]
pub enum CodeWriterError {
    Temp(RegMgrError),
    Memory(MemoryError),
    Flow(crate::flow::FlowError),
    /// A label counter has reached its largest value.
    LabelsExhausted,
}

/// The bootstrap: `SP = 256`.
pub open spec fn asm_bootstrap() -> Seq<Seq<char>> {
    seq!["@256"@, "D=A"@, "@SP"@, "M=D"@]
}

pub open spec fn comment_line(c: Seq<char>) -> Seq<char> {
    seq!['/', '/'] + c
}

/// Lines of a command and the label scopes after it, given the scopes before
/// and the prefix of the file's static variables.
pub open spec fn lower_spec(cmd: ParsedCmd, m: LmView, namespace: Seq<char>) -> Result<(Seq<Seq<char>>, LmView), CodeWriterError> {
    match cmd {
        ParsedCmd::Arithmetic(a) => if is_comparison(a) && m.base.id + 2 > u64::MAX {
            Err(CodeWriterError::LabelsExhausted)
        } else {
            Ok(arithmetic_spec(a, m))
        },
        ParsedCmd::PushConstant(v) => Ok((asm_d_to_constant(v as int) + asm_push_d(), m)),
        ParsedCmd::Push(s, i) => match push_spec(namespace, s, i) {
            Ok(lines) => Ok((lines, m)),
            Err(e) => Err(CodeWriterError::Memory(e)),
        },
        ParsedCmd::Pop(s, i) => match pop_spec(namespace, s, i, reg_name(FIRST_SCRATCH as nat)) {
            Ok(lines) => Ok((lines, m)),
            Err(e) => Err(CodeWriterError::Memory(e)),
        },
        ParsedCmd::Flow(f) => if !flow_fits(f, m) {
            Err(CodeWriterError::LabelsExhausted)
        } else {
            Ok(flow_spec(f, m, FIRST_SCRATCH as nat))
        },
        ParsedCmd::Marker(mk) => Ok(marker_spec(mk, m)),
        ParsedCmd::Noop => Ok((Seq::empty(), m)),
    }
}

/// [`lower_spec`] over what a command says rather than the command itself.
pub open spec fn lower_shape(c: CmdShape, m: LmView, namespace: Seq<char>) -> Result<(Seq<Seq<char>>, LmView), CodeWriterError> {
    match c {
        CmdShape::Arith(a) => if is_comparison(a) && m.base.id + 2 > u64::MAX {
            Err(CodeWriterError::LabelsExhausted)
        } else {
            Ok(arithmetic_spec(a, m))
        },
        CmdShape::PushConst(v) => Ok((asm_d_to_constant(v as int) + asm_push_d(), m)),
        CmdShape::Push(s, i) => match push_spec(namespace, s, i) {
            Ok(lines) => Ok((lines, m)),
            Err(e) => Err(CodeWriterError::Memory(e)),
        },
        CmdShape::Pop(s, i) => match pop_spec(namespace, s, i, reg_name(FIRST_SCRATCH as nat)) {
            Ok(lines) => Ok((lines, m)),
            Err(e) => Err(CodeWriterError::Memory(e)),
        },
        CmdShape::Goto(Goto::Direct, l) => Ok((asm_goto(lm_label(m, l, false).0), m)),
        CmdShape::Goto(Goto::Conditional, l) => Ok((asm_if_goto(lm_label(m, l, false).0), m)),
        CmdShape::Call(n, k) => if gen_count(lm_top(m), ret_name(n)) >= u64::MAX {
            Err(CodeWriterError::LabelsExhausted)
        } else {
            Ok(call_spec(n, k, m))
        },
        CmdShape::Return => Ok((return_spec(FIRST_SCRATCH as nat), lm_end(m))),
        CmdShape::Label(l) => Ok((seq![paren(lm_label(m, l, false).0)], m)),
        CmdShape::Function(n, k) => Ok((seq![paren(n)] + asm_locals(k as nat), lm_start(m, n))),
        CmdShape::Noop => Ok((Seq::empty(), m)),
    }
}

/// A command is lowered as what it says.
pub proof fn lemma_lower_shape(cmd: ParsedCmd, m: LmView, namespace: Seq<char>)
    ensures
        lower_spec(cmd, m, namespace) == lower_shape(cmd_shape(cmd), m, namespace),
{
}

pub struct CodeWriter {
    out: Vec<String>,
    label_manager: LabelManager,
    gen_purp_reg: RegMgr,
    mem_cmd_writer: MemCmdWriter,
}

impl CodeWriter {
    /// The assembly written so far.
    pub closed spec fn spec_out(&self) -> Seq<Seq<char>> {
        lines_view(self.out@)
    }

    pub closed spec fn spec_labels(&self) -> LmView {
        self.label_manager@
    }

    /// Prefix of the current file's static variables.
    pub closed spec fn spec_namespace(&self) -> Seq<char> {
        self.mem_cmd_writer.spec_namespace()
    }

    /// Between commands every scratch register is free.
    pub closed spec fn wf(&self) -> bool {
        &&& self.gen_purp_reg.wf()
        &&& self.gen_purp_reg.all_free()
        &&& self.gen_purp_reg.spec_start() == FIRST_SCRATCH
        &&& self.gen_purp_reg.spec_leased().len() == (LAST_SCRATCH - FIRST_SCRATCH + 1) as nat
    }

    /// A writer with nothing written, in the scope `asm`.
    pub fn new() -> (r: Self)
        ensures
            r.wf(),
            r.spec_out() == Seq::<Seq<char>>::empty(),
            r.spec_labels() == lm_fresh("asm"@),
            r.spec_namespace() == uppercase_of("asm"@),
    {
        let gen_purp_reg = RegMgr::new(FIRST_SCRATCH, LAST_SCRATCH).unwrap();
        let r = Self {
            out: Vec::new(),
            label_manager: LabelManager::new("asm"),
            gen_purp_reg,
            mem_cmd_writer: MemCmdWriter::new("asm"),
        };
        proof {
            assert(r.spec_out() =~= Seq::<Seq<char>>::empty());
        }
        r
    }

    /// Everything written so far, one line per element.
    pub fn lines(&self) -> (r: &Vec<String>)
        ensures
            lines_view(r@) == self.spec_out(),
    {
        &self.out
    }

    /// Everything written, one line per element.
    pub fn into_lines(self) -> (r: Vec<String>)
        ensures
            lines_view(r@) == self.spec_out(),
    {
        self.out
    }

    /// Switches to a new source file: its static variables and labels take
    /// its name as prefix.
    pub fn set_namespace(&mut self, namespace: &str)
        requires
            old(self).wf(),
        ensures
            final(self).wf(),
            final(self).spec_out() == old(self).spec_out(),
            final(self).spec_labels() == lm_fresh(namespace@),
            final(self).spec_namespace() == uppercase_of(namespace@),
    {
        self.mem_cmd_writer = MemCmdWriter::new(namespace);
        self.label_manager.set_filename(namespace);
    }

    /// Writes `//comment`.
    pub fn comment(&mut self, comment: &str)
        requires
            old(self).wf(),
        ensures
            final(self).wf(),
            final(self).spec_out() == old(self).spec_out().push(comment_line(comment@)),
            final(self).spec_labels() == old(self).spec_labels(),
            final(self).spec_namespace() == old(self).spec_namespace(),
    {
        let mut s = String::new();
        proof { reveal_strlit("//"); }
        s.append("//");
        s.append(comment);
        proof {
            assert(s@ =~= comment_line(comment@));
        }
        let ghost before = self.out@;
        self.out.push(s);
        proof {
            assert(lines_view(self.out@) =~= lines_view(before).push(comment_line(comment@)));
        }
    }

    fn cmd_to_asm(&mut self, cmd: &ParsedCmd) -> (r: Result<Vec<String>, CodeWriterError>)
        requires
            old(self).wf(),
        ensures
            final(self).wf(),
            final(self).spec_out() == old(self).spec_out(),
            final(self).spec_namespace() == old(self).spec_namespace(),
            match r {
                Ok(lines) => lower_spec(*cmd, old(self).spec_labels(), old(self).spec_namespace())
                    == Ok::<_, CodeWriterError>((lines_view(lines@), final(self).spec_labels())),
                Err(e) => lower_spec(*cmd, old(self).spec_labels(), old(self).spec_namespace())
                    == Err::<(Seq<Seq<char>>, LmView), _>(e) && final(self).spec_labels()
                    == old(self).spec_labels(),
            },
    {
        match cmd {
            ParsedCmd::Arithmetic(a) => {
                let a = *a;
                if is_comparison_cmd(a) && self.label_manager.static_count() > u64::MAX - 2 {
                    return Err(CodeWriterError::LabelsExhausted);
                }
                Ok(arithmetic(a, &mut self.label_manager))
            },
            ParsedCmd::PushConstant(v) => Ok(self.mem_cmd_writer.push_constant(*v)),
            ParsedCmd::Push(s, i) => match self.mem_cmd_writer.push_to_stack(*s, *i) {
                Ok(lines) => Ok(lines),
                Err(e) => Err(CodeWriterError::Memory(e)),
            },
            ParsedCmd::Pop(s, i) => {
                proof {
                    assert(crate::reg_mgr::first_free_from(self.gen_purp_reg.spec_leased(), 0) == 0);
                }
                match self.mem_cmd_writer.pop_stack_to(&mut self.gen_purp_reg, *s, *i) {
                    Ok(lines) => Ok(lines),
                    Err(e) => Err(CodeWriterError::Memory(e)),
                }
            },
            ParsedCmd::Flow(f) => {
                if let Flow::Call(name, _) = f {
                    let mut n = name.clone();
                    n.append("$ret");
                    if self.label_manager.unique_count(n.as_str()) == u64::MAX {
                        return Err(CodeWriterError::LabelsExhausted);
                    }
                }
                match flow(f, &mut self.label_manager, &mut self.gen_purp_reg, &self.mem_cmd_writer) {
                    Ok(lines) => Ok(lines),
                    Err(e) => Err(CodeWriterError::Flow(e)),
                }
            },
            ParsedCmd::Marker(mk) => Ok(marker(mk, &mut self.label_manager)),
            ParsedCmd::Noop => {
                let r: Vec<String> = Vec::new();
                proof {
                    assert(lines_view(r@) =~= Seq::<Seq<char>>::empty());
                }
                Ok(r)
            },
        }
    }

    /// Writes a command: its source line as a comment, then its lowering.
    pub fn write(&mut self, cmd: Command) -> (r: Result<(), CodeWriterError>)
        requires
            old(self).wf(),
        ensures
            final(self).wf(),
            final(self).spec_namespace() == old(self).spec_namespace(),
            ({
                let out = old(self).spec_out().push(comment_line(cmd.spec_original()));
                match lower_spec(cmd.spec_parsed(), old(self).spec_labels(), old(self).spec_namespace()) {
                    Ok((lines, m)) => r is Ok && final(self).spec_out() == out + lines
                        && final(self).spec_labels() == m,
                    Err(e) => r == Err::<(), CodeWriterError>(e) && final(self).spec_out() == out
                        && final(self).spec_labels() == old(self).spec_labels(),
                }
            }),
    {
        self.comment(cmd.original().as_str());
        match self.cmd_to_asm(cmd.parsed()) {
            Ok(lines) => {
                extend(&mut self.out, lines);
                Ok(())
            },
            Err(e) => Err(e),
        }
    }

    /// Starts the program: `SP = 256`, then `call Sys.init 0`.
    pub fn init(&mut self) -> (r: Result<(), CodeWriterError>)
        requires
            old(self).wf(),
        ensures
            final(self).wf(),
            ({
                let fits = crate::label_manager::gen_count(
                    crate::label_manager::lm_top(old(self).spec_labels()),
                    crate::flow::ret_name("Sys.init"@),
                ) < u64::MAX;
                let out = old(self).spec_out() + asm_bootstrap() + seq![comment_line("call Sys.init 0"@)];
                &&& fits ==> r is Ok && final(self).spec_out() == out + call_spec(
                    "Sys.init"@,
                    0,
                    old(self).spec_labels(),
                ).0 && final(self).spec_labels() == call_spec("Sys.init"@, 0, old(self).spec_labels()).1
                &&& !fits ==> r == Err::<(), CodeWriterError>(CodeWriterError::LabelsExhausted)
                    && final(self).spec_out() == out
            }),
    {
        let mut boot: Vec<String> = Vec::new();
        boot.push("@256".to_owned());
        boot.push("D=A".to_owned());
        boot.push("@SP".to_owned());
        boot.push("M=D".to_owned());
        proof {
            assert(lines_view(boot@) =~= asm_bootstrap());
        }
        extend(&mut self.out, boot);
        let cmd = Command::new(
            "call Sys.init 0".to_owned(),
            ParsedCmd::Flow(Flow::Call("Sys.init".to_owned(), 0)),
        );
        proof {
            reveal_strlit("call Sys.init 0");
            reveal_strlit("Sys.init");
        }
        self.write(cmd)
    }
}

fn is_comparison_cmd(a: crate::vm_parser::Arithmetic) -> (r: bool)
    ensures
        r == is_comparison(a),
{
    match a {
        crate::vm_parser::Arithmetic::Eq | crate::vm_parser::Arithmetic::Gt | crate::vm_parser::Arithmetic::Lt => true,
        _ => false,
    }
}

/// A command whose indices lie inside their segments.
pub open spec fn cmd_in_bounds(c: ParsedCmd) -> bool {
    match c {
        ParsedCmd::Push(Segment::Temp, i) => i < 8,
        ParsedCmd::Pop(Segment::Temp, i) => i < 8,
        ParsedCmd::Push(Segment::Pointer, i) => i <= 1,
        ParsedCmd::Pop(Segment::Pointer, i) => i <= 1,
        _ => true,
    }
}

pub open spec fn counts_below(g: GenView, n: nat) -> bool {
    forall|key: Seq<char>| #[trigger] g.counts.contains_key(key) ==> g.counts[key] <= n
}

/// The label counters after `n` commands of a file: the file's counter has
/// moved at most twice per command, and no name was made unique more than
/// once per command.
pub open spec fn counters_below(m: LmView, n: nat) -> bool {
    &&& m.base.id <= 2 * n
    &&& counts_below(m.base, n)
    &&& forall|i: int| 0 <= i < m.scopes.len() ==> counts_below(#[trigger] m.scopes[i], n)
}

/// A command in bounds is lowered without error while the counters are low,
/// and keeps them low.
pub proof fn lemma_lower_succeeds(cmd: ParsedCmd, m: LmView, namespace: Seq<char>, n: nat)
    requires
        cmd_in_bounds(cmd),
        counters_below(m, n),
        n < 0x4000_0000_0000_0000,
    ensures
        lower_spec(cmd, m, namespace) is Ok,
        counters_below(lower_spec(cmd, m, namespace)->Ok_0.1, n + 1),
{
    match cmd {
        ParsedCmd::Flow(f) => {
            match f {
                Flow::Call(name, k) => {
                    let top = lm_top(m);
                    assert(counts_below(top, n)) by {
                        if m.scopes.len() > 0 {
                            assert(counts_below(m.scopes[m.scopes.len() - 1], n));
                        }
                    }
                    let l = gen_create(top, ret_name(name@));
                    assert(gen_count(top, ret_name(name@)) <= n);
                    let (ret, m2) = lm_label(m, ret_name(name@), true);
                    let g2 = gen_unique(top, ret_name(name@)).1;
                    assert(counts_below(g2, n + 1));
                    if m.scopes.len() > 0 {
                        assert forall|i: int| 0 <= i < m2.scopes.len() implies counts_below(#[trigger] m2.scopes[i], n + 1) by {
                            if i < m.scopes.len() - 1 {
                                assert(m2.scopes[i] == m.scopes[i]);
                                assert(counts_below(m.scopes[i], n));
                            }
                        }
                    } else {
                        assert forall|i: int| 0 <= i < m2.scopes.len() implies counts_below(#[trigger] m2.scopes[i], n + 1) by {
                            assert(counts_below(m.scopes[i], n));
                        }
                    }
                },
                Flow::Return => {
                    let m2 = lm_end(m);
                    assert forall|i: int| 0 <= i < m2.scopes.len() implies counts_below(#[trigger] m2.scopes[i], n + 1) by {
                        assert(m2.scopes[i] == m.scopes[i]);
                        assert(counts_below(m.scopes[i], n));
                    }
                },
                _ => {
                    assert forall|i: int| 0 <= i < m.scopes.len() implies counts_below(#[trigger] m.scopes[i], n + 1) by {
                        assert(counts_below(m.scopes[i], n));
                    }
                },
            }
        },
        ParsedCmd::Marker(mk) => {
            let m2 = marker_spec(mk, m).1;
            match mk {
                Marker::Function(name, k) => {
                    assert forall|i: int| 0 <= i < m2.scopes.len() implies counts_below(#[trigger] m2.scopes[i], n + 1) by {
                        if i < m.scopes.len() {
                            assert(m2.scopes[i] == m.scopes[i]);
                            assert(counts_below(m.scopes[i], n));
                        } else {
                            assert(m2.scopes[i].counts == Map::<Seq<char>, u64>::empty());
                        }
                    }
                },
                Marker::Label(_) => {
                    assert forall|i: int| 0 <= i < m.scopes.len() implies counts_below(#[trigger] m.scopes[i], n + 1) by {
                        assert(counts_below(m.scopes[i], n));
                    }
                },
            }
        },
        _ => {
            assert forall|i: int| 0 <= i < m.scopes.len() implies counts_below(#[trigger] m.scopes[i], n + 1) by {
                assert(counts_below(m.scopes[i], n));
            }
        },
    }
}

} // verus!
