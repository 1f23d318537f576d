//! Translates a whole VM program, given as the lines of its source files.

use vstd::prelude::*;
use crate::text::lines_view;
use crate::flow::call_spec;
use crate::label_manager::{gen_create, lm_fresh, lm_top, uppercase_of, LmView};
use crate::vm_parser::{
    cmd_shape, parse_line, parse_line_spec, vm_error_shape, CmdShape, Command, ParseError, Segment, VmErrorShape,
};
use crate::writer::{
    asm_bootstrap, cmd_in_bounds, comment_line, counters_below, lemma_lower_shape, lemma_lower_succeeds, lower_shape,
    CodeWriter, CodeWriterError,
};

verus! {

#[derive(Debug, Clone, PartialEq, Eq)]
pub enum TranslatorError {
    InvalidPathError(String),
    ParseError(ParseError),
    CodeWriter(CodeWriterError),
}

/// What every translated program starts with: `SP = 256`, then the call of
/// `Sys.init` with no arguments, as a fresh writer lowers it.
pub open spec fn program_prologue() -> Seq<Seq<char>> {
    asm_bootstrap() + seq![comment_line("call Sys.init 0"@)] + call_spec("Sys.init"@, 0, lm_fresh("asm"@)).0
}

/// A command shape whose indices lie inside their segments.
pub open spec fn shape_in_bounds(c: CmdShape) -> bool {
    match c {
        CmdShape::Push(Segment::Temp, i) => i < 8,
        CmdShape::Pop(Segment::Temp, i) => i < 8,
        CmdShape::Push(Segment::Pointer, i) => i <= 1,
        CmdShape::Pop(Segment::Pointer, i) => i <= 1,
        _ => true,
    }
}

/// A line that parses to a command inside its segment's bounds.
pub open spec fn line_translatable(l: Seq<char>) -> bool {
    parse_line_spec(l) is Ok && shape_in_bounds(parse_line_spec(l)->Ok_0)
}

/// Every line of every file is translatable, and no file is absurdly long.
pub open spec fn sources_translatable(sources: Seq<(String, Vec<String>)>) -> bool {
    &&& forall|f: int, j: int|
        0 <= f < sources.len() && 0 <= j < sources[f].1@.len() ==> line_translatable(#[trigger] sources[f].1@[j]@)
    &&& forall|f: int| 0 <= f < sources.len() ==> (#[trigger] sources[f].1@.len()) < 0x4000_0000_0000_0000
}

/// Why a translation fails: a line that does not parse, or a command that
/// cannot be lowered.
pub enum TranslateFailure {
    Parse(VmErrorShape),
    Write(CodeWriterError),
}

/// Lines of a file, each as its `//` comment and then its lowering, with the
/// label scopes carried from line to line; the first failing line decides.
pub open spec fn translate_lines(lines: Seq<Seq<char>>, m: LmView, namespace: Seq<char>) -> Result<(Seq<Seq<char>>, LmView), TranslateFailure>
    decreases lines.len(),
{
    if lines.len() == 0 {
        Ok((Seq::empty(), m))
    } else {
        match translate_lines(lines.drop_last(), m, namespace) {
            Err(e) => Err(e),
            Ok((out, m1)) => match parse_line_spec(lines.last()) {
                Err(e) => Err(TranslateFailure::Parse(e)),
                Ok(c) => match lower_shape(c, m1, namespace) {
                    Err(e) => Err(TranslateFailure::Write(e)),
                    Ok((code, m2)) => Ok((out + seq![comment_line(lines.last())] + code, m2)),
                },
            },
        }
    }
}

/// A file's output: its labels start fresh in the scope of its name, and its
/// static variables take the upper-cased name as prefix.
pub open spec fn translate_file(name: Seq<char>, lines: Seq<Seq<char>>) -> Result<Seq<Seq<char>>, TranslateFailure> {
    match translate_lines(lines, lm_fresh(name), uppercase_of(name)) {
        Ok((out, _)) => Ok(out),
        Err(e) => Err(e),
    }
}

/// The files' outputs one after the other.
pub open spec fn translate_files(files: Seq<(Seq<char>, Seq<Seq<char>>)>) -> Result<Seq<Seq<char>>, TranslateFailure>
    decreases files.len(),
{
    if files.len() == 0 {
        Ok(Seq::empty())
    } else {
        match translate_files(files.drop_last()) {
            Err(e) => Err(e),
            Ok(out) => match translate_file(files.last().0, files.last().1) {
                Err(e) => Err(e),
                Ok(more) => Ok(out + more),
            },
        }
    }
}

/// A whole program: the prologue, then every file in order.
pub open spec fn translate_spec(files: Seq<(Seq<char>, Seq<Seq<char>>)>) -> Result<Seq<Seq<char>>, TranslateFailure> {
    match translate_files(files) {
        Ok(out) => Ok(program_prologue() + out),
        Err(e) => Err(e),
    }
}

pub open spec fn sources_view(sources: Seq<(String, Vec<String>)>) -> Seq<(Seq<char>, Seq<Seq<char>>)> {
    sources.map_values(|p: (String, Vec<String>)| (p.0@, lines_view(p.1@)))
}

proof fn lemma_lines_stop(lines: Seq<Seq<char>>, m: LmView, namespace: Seq<char>, k: int)
    requires
        0 <= k <= lines.len(),
        translate_lines(lines.subrange(0, k), m, namespace) is Err,
    ensures
        translate_lines(lines, m, namespace) == translate_lines(lines.subrange(0, k), m, namespace),
    decreases lines.len() - k,
{
    if k < lines.len() {
        assert(lines.subrange(0, k + 1).drop_last() =~= lines.subrange(0, k));
        lemma_lines_stop(lines, m, namespace, k + 1);
    } else {
        assert(lines.subrange(0, k) =~= lines);
    }
}

proof fn lemma_files_stop(files: Seq<(Seq<char>, Seq<Seq<char>>)>, k: int)
    requires
        0 <= k <= files.len(),
        translate_files(files.subrange(0, k)) is Err,
    ensures
        translate_files(files) == translate_files(files.subrange(0, k)),
    decreases files.len() - k,
{
    if k < files.len() {
        assert(files.subrange(0, k + 1).drop_last() =~= files.subrange(0, k));
        lemma_files_stop(files, k + 1);
    } else {
        assert(files.subrange(0, k) =~= files);
    }
}

/// Translates the source files in the order given; each is a file stem (the
/// prefix of its static variables and labels) and its lines.
pub fn translate_sources(sources: &Vec<(String, Vec<String>)>) -> (r: Result<Vec<String>, TranslatorError>)
    ensures
        match r {
            Ok(out) => translate_spec(sources_view(sources@)) == Ok::<_, TranslateFailure>(lines_view(out@)),
            Err(TranslatorError::ParseError(e)) => translate_spec(sources_view(sources@)) == Err::<
                Seq<Seq<char>>,
                _,
            >(TranslateFailure::Parse(vm_error_shape(e))),
            Err(TranslatorError::CodeWriter(e)) => translate_spec(sources_view(sources@)) == Err::<
                Seq<Seq<char>>,
                _,
            >(TranslateFailure::Write(e)),
            Err(TranslatorError::InvalidPathError(_)) => false,
        },
        sources_translatable(sources@) ==> r is Ok,
{
    let ghost sv = sources_view(sources@);
    let mut writer = CodeWriter::new();
    proof {
        assert(!lm_fresh("asm"@).base.counts.contains_key(
            gen_create(lm_top(lm_fresh("asm"@)), crate::flow::ret_name("Sys.init"@)),
        ));
    }
    match writer.init() {
        Ok(()) => {},
        Err(e) => return Err(TranslatorError::CodeWriter(e)),
    }
    let ghost pro = program_prologue();
    proof {
        assert(writer.spec_out() =~= pro);
        assert(sv.subrange(0, 0) =~= Seq::<(Seq<char>, Seq<Seq<char>>)>::empty());
        assert(pro + Seq::<Seq<char>>::empty() =~= pro);
    }
    let mut f: usize = 0;
    while f < sources.len()
        invariant
            writer.wf(),
            pro == program_prologue(),
            sv == sources_view(sources@),
            f <= sources@.len(),
            translate_files(sv.subrange(0, f as int)) is Ok,
            writer.spec_out() == pro + translate_files(sv.subrange(0, f as int))->Ok_0,
        decreases sources@.len() - f,
    {
        let (name, lines) = &sources[f];
        writer.set_namespace(name.as_str());
        let ghost base = writer.spec_out();
        let ghost nm = name@;
        let ghost lv = lines_view(lines@);
        proof {
            assert(counters_below(writer.spec_labels(), 0));
            assert(sv[f as int] == (nm, lv));
            assert(lv.subrange(0, 0) =~= Seq::<Seq<char>>::empty());
            assert(base + Seq::<Seq<char>>::empty() =~= base);
        }
        let mut j: usize = 0;
        while j < lines.len()
            invariant
                writer.wf(),
                pro == program_prologue(),
                sv == sources_view(sources@),
                f < sources@.len(),
                *lines == sources@[f as int].1,
                lv == lines_view(lines@),
                sv[f as int] == (nm, lv),
                translate_files(sv.subrange(0, f as int)) is Ok,
                j <= lines@.len(),
                writer.spec_namespace() == uppercase_of(nm),
                translate_lines(lv.subrange(0, j as int), lm_fresh(nm), uppercase_of(nm)) is Ok,
                writer.spec_out() == base + translate_lines(lv.subrange(0, j as int), lm_fresh(nm), uppercase_of(nm))->Ok_0.0,
                writer.spec_labels() == translate_lines(lv.subrange(0, j as int), lm_fresh(nm), uppercase_of(nm))->Ok_0.1,
                sources_translatable(sources@) ==> counters_below(writer.spec_labels(), j as nat),
            decreases lines@.len() - j,
        {
            let line = &lines[j];
            let ghost pre = lv.subrange(0, j as int);
            let ghost cur = lv.subrange(0, j as int + 1);
            proof {
                assert(cur.drop_last() =~= pre);
                assert(cur.last() == line@);
            }
            let parsed = match parse_line(line.as_str()) {
                Ok(p) => p,
                Err(e) => {
                    proof {
                        assert(translate_lines(cur, lm_fresh(nm), uppercase_of(nm)) is Err);
                        lemma_lines_stop(lv, lm_fresh(nm), uppercase_of(nm), j as int + 1);
                        assert(sv.subrange(0, f as int + 1).drop_last() =~= sv.subrange(0, f as int));
                        assert(sv.subrange(0, f as int + 1).last() == (nm, lv));
                        assert(translate_files(sv.subrange(0, f as int + 1)) is Err);
                        lemma_files_stop(sv, f as int + 1);
                    }
                    return Err(TranslatorError::ParseError(e));
                },
            };
            proof {
                lemma_lower_shape(parsed, writer.spec_labels(), writer.spec_namespace());
                if sources_translatable(sources@) {
                    assert(line_translatable(sources@[f as int].1@[j as int]@));
                    assert(cmd_in_bounds(parsed));
                    assert(sources@[f as int].1@.len() < 0x4000_0000_0000_0000);
                    lemma_lower_succeeds(parsed, writer.spec_labels(), writer.spec_namespace(), j as nat);
                }
            }
            let ghost before = writer.spec_out();
            match writer.write(Command::new(line.clone(), parsed)) {
                Ok(()) => {},
                Err(e) => {
                    proof {
                        assert(translate_lines(cur, lm_fresh(nm), uppercase_of(nm)) is Err);
                        lemma_lines_stop(lv, lm_fresh(nm), uppercase_of(nm), j as int + 1);
                        assert(sv.subrange(0, f as int + 1).drop_last() =~= sv.subrange(0, f as int));
                        assert(sv.subrange(0, f as int + 1).last() == (nm, lv));
                        assert(translate_files(sv.subrange(0, f as int + 1)) is Err);
                        lemma_files_stop(sv, f as int + 1);
                    }
                    return Err(TranslatorError::CodeWriter(e));
                },
            }
            proof {
                let prev = translate_lines(pre, lm_fresh(nm), uppercase_of(nm))->Ok_0.0;
                let code = lower_shape(cmd_shape(parsed), translate_lines(pre, lm_fresh(nm), uppercase_of(nm))->Ok_0.1, uppercase_of(nm))->Ok_0.0;
                assert(before.push(comment_line(line@)) + code =~= base + (prev + seq![comment_line(line@)] + code));
            }
            j = j + 1;
        }
        proof {
            assert(lv.subrange(0, j as int) =~= lv);
            assert(sv.subrange(0, f as int + 1).drop_last() =~= sv.subrange(0, f as int));
            assert(sv.subrange(0, f as int + 1).last() == (nm, lv));
            let done = translate_files(sv.subrange(0, f as int))->Ok_0;
            let more = translate_file(nm, lv)->Ok_0;
            assert(pro + done + more =~= pro + (done + more));
        }
        f = f + 1;
    }
    proof {
        assert(sv.subrange(0, f as int) =~= sv);
    }
    Ok(writer.into_lines())
}

} // verus!
