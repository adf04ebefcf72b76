//! Building a program from raw source text: line splitting, comment
//! stripping, and the per-line parse.

use crate::chars::CharClass;
use crate::instruction::DecodeError;
use crate::line::{line_of_text, Line, LineModel};
use crate::scan::{lemma_run_len_is, lemma_run_len_props, run_len, scan_run};
use vstd::prelude::*;

verus! {

/// A parsed program: the parsed lines, in source order, one per non-empty,
/// non-comment-only source line.
#[derive(Debug, PartialEq)]
pub struct Program {
    pub lines: Vec<Line>,
}

impl View for Program {
    type V = Seq<LineModel>;

    open spec fn view(&self) -> Seq<LineModel> {
        self.lines.deep_view()
    }
}

impl Program {
    /// An empty program.
    pub fn new() -> (r: Program)
        ensures
            r@ == Seq::<LineModel>::empty(),
    {
        let r = Program { lines: Vec::new() };
        proof {
            assert(r@ =~= Seq::<LineModel>::empty());
        }
        r
    }
}

/// A parse failure, with the offending source line's raw text attached.
#[derive(Debug, PartialEq)]
pub struct ParseError {
    pub kind: DecodeError,
    pub line: String,
}

/// The mathematical content of a `ParseError`.
pub struct ParseErrorModel {
    pub kind: DecodeError,
    pub line: Seq<char>,
}

impl View for ParseError {
    type V = ParseErrorModel;

    open spec fn view(&self) -> ParseErrorModel {
        ParseErrorModel { kind: self.kind, line: self.line@ }
    }
}

/// The text before the first comment opener `(`; the whole line when there
/// is none.
pub open spec fn comment_free(s: Seq<char>) -> Seq<char> {
    s.take(run_len(s, CharClass::NonComment) as int)
}

/// Law: comment stripping is idempotent — stripping an already-stripped
/// line changes nothing.
pub proof fn lemma_strip_idempotent(s: Seq<char>)
    ensures
        comment_free(comment_free(s)) == comment_free(s),
{
    lemma_run_len_props(s, CharClass::NonComment);
    let t = comment_free(s);
    lemma_run_len_is(t, CharClass::NonComment, t.len());
    assert(t.take(t.len() as int) =~= t);
}

/// Strips the comment, if any, from one source line.
pub fn strip_comment(s: &str) -> (r: String)
    ensures
        r@ == comment_free(s@),
{
    let p = scan_run(s, 0, CharClass::NonComment);
    proof {
        assert(s@.skip(0) =~= s@);
        assert(s@.subrange(0, p as int) =~= comment_free(s@));
    }
    String::from_str(s.substring_char(0, p))
}

/// `t` without one trailing carriage return.
pub open spec fn chop_cr(t: Seq<char>) -> Seq<char> {
    if t.len() > 0 && t.last() == '\r' {
        t.drop_last()
    } else {
        t
    }
}

/// The source split at line feeds, one trailing carriage return removed
/// from each terminated line, with no final empty line for a terminating
/// line feed.
pub open spec fn split_lines(s: Seq<char>) -> Seq<Seq<char>>
    decreases s.len(),
        via split_lines_decreases
{
    if s.len() == 0 {
        Seq::empty()
    } else {
        let n = run_len(s, CharClass::NonNewline) as int;
        if n == s.len() {
            seq![s]
        } else {
            seq![chop_cr(s.take(n))] + split_lines(s.skip(n + 1))
        }
    }
}

#[via_fn]
proof fn split_lines_decreases(s: Seq<char>) {
    lemma_run_len_props(s, CharClass::NonNewline);
}

/// Splits raw source text into its lines.
pub fn split_source(s: &str) -> (r: Vec<String>)
    ensures
        r.deep_view() == split_lines(s@),
    decreases s@.len(),
{
    let n = s.unicode_len();
    if n == 0 {
        let r: Vec<String> = Vec::new();
        proof {
            assert(r.deep_view() =~= split_lines(s@));
        }
        return r;
    }
    let e = scan_run(s, 0, CharClass::NonNewline);
    proof {
        assert(s@.skip(0) =~= s@);
    }
    if e == n {
        let mut r: Vec<String> = Vec::new();
        r.push(String::from_str(s));
        proof {
            assert(r.deep_view() =~= split_lines(s@));
        }
        r
    } else {
        let keep: usize = if e > 0 && s.get_char(e - 1) == '\r' {
            e - 1
        } else {
            e
        };
        proof {
            if e > 0 {
                assert(s@.take(e as int).last() == s@[e - 1]);
                assert(s@.take(e as int).drop_last() =~= s@.take(e - 1));
            }
            assert(chop_cr(s@.take(e as int)) =~= s@.take(keep as int));
            assert(s@.subrange(0, keep as int) =~= s@.take(keep as int));
        }
        let first = String::from_str(s.substring_char(0, keep));
        let rest = s.substring_char(e + 1, n);
        proof {
            assert(rest@ =~= s@.skip(e + 1));
        }
        let mut tail = split_source(rest);
        let mut r: Vec<String> = Vec::new();
        r.push(first);
        r.append(&mut tail);
        proof {
            assert(r.deep_view() =~= split_lines(s@));
        }
        r
    }
}

/// The lines of a program built from the given source lines: comments
/// stripped, empty results skipped, every other line parsed; the first
/// failing line aborts the build, its raw text attached.
pub open spec fn build_lines(ls: Seq<Seq<char>>) -> Result<Seq<LineModel>, ParseErrorModel>
    decreases ls.len(),
{
    if ls.len() == 0 {
        Ok(Seq::empty())
    } else {
        let t = comment_free(ls[0]);
        if t.len() == 0 {
            build_lines(ls.drop_first())
        } else {
            match line_of_text(t) {
                Ok(lm) => match build_lines(ls.drop_first()) {
                    Ok(ms) => Ok(seq![lm] + ms),
                    Err(e) => Err(e),
                },
                Err(k) => Err(ParseErrorModel { kind: k, line: ls[0] }),
            }
        }
    }
}

/// The program denoted by raw source text.
pub open spec fn program_of_text(s: Seq<char>) -> Result<Seq<LineModel>, ParseErrorModel> {
    build_lines(split_lines(s))
}

/// The lines already built, followed by whatever the remaining source
/// lines yield.
pub open spec fn build_onto(acc: Seq<LineModel>, ls: Seq<Seq<char>>) -> Result<
    Seq<LineModel>,
    ParseErrorModel,
> {
    match build_lines(ls) {
        Ok(ms) => Ok(acc + ms),
        Err(e) => Err(e),
    }
}

/// Parses raw program text: one parsed line per non-empty, non-comment-only
/// source line, in source order; the first line that fails to decode aborts
/// the whole parse, with that line's raw text attached.
pub fn parse_string(s: &str) -> (r: Result<Program, ParseError>)
    ensures
        match r {
            Ok(p) => program_of_text(s@) == Ok::<Seq<LineModel>, ParseErrorModel>(p@),
            Err(e) => program_of_text(s@) == Err::<Seq<LineModel>, ParseErrorModel>(e@),
        },
{
    let lines = split_source(s);
    let ghost lv = split_lines(s@);
    let mut program = Program::new();
    proof {
        assert(lv.skip(0) =~= lv);
        assert(program@ + Seq::<LineModel>::empty() =~= program@);
    }
    let mut i: usize = 0;
    while i < lines.len()
        invariant
            0 <= i <= lines@.len(),
            lines.deep_view() == lv,
            lines@.len() == lv.len(),
            build_onto(program@, lv.skip(i as int)) == program_of_text(s@),
        decreases lines@.len() - i,
    {
        let ghost pre = program@;
        proof {
            assert(lines@[i as int]@ == lv[i as int]);
            assert(lv.skip(i as int)[0] == lv[i as int]);
            assert(lv.skip(i as int).drop_first() =~= lv.skip(i + 1));
        }
        let raw = lines[i].as_str();
        let stripped = strip_comment(raw);
        if !stripped.as_str().is_empty() {
            match Line::from_str(stripped.as_str()) {
                Ok(l) => {
                    program.lines.push(l);
                    proof {
                        assert(program@ =~= pre.push(l@));
                        let rest = build_lines(lv.skip(i + 1));
                        if rest is Ok {
                            assert(pre + (seq![l@] + rest->Ok_0) =~= pre.push(l@)
                                + rest->Ok_0);
                        }
                    }
                },
                Err(k) => {
                    return Err(ParseError { kind: k, line: lines[i].clone() });
                },
            }
        }
        i += 1;
    }
    proof {
        assert(lv.skip(lines@.len() as int).len() == 0);
        assert(program@ + Seq::<LineModel>::empty() =~= program@);
    }
    Ok(program)
}

} // verus!
