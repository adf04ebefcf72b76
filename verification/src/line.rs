//! One parsed source line: an optional line number and the decoded
//! instructions in order of appearance.

use crate::instruction::{decode_pair, DecodeError, InstrModel, Instruction};
use crate::numbers::{parse_u32, u32_of_text};
use crate::tokenize::{lemma_tokens_odd, pairwise, tokenize, tokens_of};
use vstd::prelude::*;

verus! {

/// One parsed source line.
#[derive(Debug, PartialEq)]
pub struct Line {
    /// The decoded instructions, in order of appearance; duplicates of the
    /// same code are all retained.
    pub instructions: Vec<Instruction>,
    /// The `N` line number, when the line carries one; the last occurrence
    /// wins when it is repeated.
    pub number: Option<u32>,
}

/// The mathematical content of a `Line`.
pub struct LineModel {
    pub instructions: Seq<InstrModel>,
    pub number: Option<u32>,
}

impl View for Line {
    type V = LineModel;

    open spec fn view(&self) -> LineModel {
        LineModel { instructions: self.instructions.deep_view(), number: self.number }
    }
}

impl DeepView for Line {
    type V = LineModel;

    open spec fn deep_view(&self) -> LineModel {
        self.view()
    }
}

/// A line with no number and no instructions.
pub open spec fn empty_line_model() -> LineModel {
    LineModel { instructions: Seq::empty(), number: None }
}

impl Line {
    /// An empty line: no number, no instructions.
    pub fn new() -> (r: Line)
        ensures
            r@ == empty_line_model(),
    {
        let r = Line { instructions: Vec::new(), number: None };
        proof {
            assert(r@.instructions =~= empty_line_model().instructions);
        }
        r
    }
}

/// One (code, value) pair applied to a line under construction: the
/// line-number code sets the number, a recognized code appends its
/// instruction, an unrecognized code changes nothing.
pub open spec fn apply_pair(m: LineModel, code: Seq<char>, value: Seq<char>) -> Result<
    LineModel,
    DecodeError,
> {
    if code.len() == 1 && code[0] == 'N' {
        match u32_of_text(value) {
            Some(n) => Ok(LineModel { number: Some(n), ..m }),
            None => Err(DecodeError::MalformedValue),
        }
    } else {
        match decode_pair(code, value) {
            Ok(Some(i)) => Ok(LineModel { instructions: m.instructions.push(i), ..m }),
            Ok(None) => Ok(m),
            Err(e) => Err(e),
        }
    }
}

/// All (code, value) pairs of a token tail applied in order.
pub open spec fn apply_pairs(m: LineModel, toks: Seq<Seq<char>>) -> Result<LineModel, DecodeError>
    decreases toks.len(),
{
    if toks.len() < 2 {
        Ok(m)
    } else {
        match apply_pair(m, toks[0], toks[1]) {
            Ok(m2) => apply_pairs(m2, toks.skip(2)),
            Err(e) => Err(e),
        }
    }
}

/// The line denoted by one comment-free source line: the tokens must pair
/// up, which requires the line to begin with a code letter; every (code,
/// value) pair is then applied in order.
pub open spec fn line_of_text(s: Seq<char>) -> Result<LineModel, DecodeError> {
    let toks = tokens_of(s);
    if toks[0].len() != 0 {
        Err(DecodeError::MalformedTokenStream)
    } else {
        apply_pairs(empty_line_model(), toks.drop_first())
    }
}

impl Line {
    /// Parses one comment-free source line.
    pub fn from_str(s: &str) -> (r: Result<Line, DecodeError>)
        ensures
            match r {
                Ok(l) => line_of_text(s@) == Ok::<LineModel, DecodeError>(l@),
                Err(e) => line_of_text(s@) == Err::<LineModel, DecodeError>(e),
            },
    {
        let toks = tokenize(s);
        proof {
            lemma_tokens_odd(s@);
            assert(toks@.len() == tokens_of(s@).len());
            assert(toks.deep_view()[0] == tokens_of(s@)[0]);
        }
        if !toks[0].as_str().is_empty() {
            return Err(DecodeError::MalformedTokenStream);
        }
        let mut rest: Vec<String> = Vec::new();
        let mut i: usize = 1;
        while i < toks.len()
            invariant
                1 <= i <= toks@.len(),
                rest@.len() == i - 1,
                forall|k: int| 0 <= k < rest@.len() ==> rest@[k] == toks@[k + 1],
            decreases toks@.len() - i,
        {
            rest.push(toks[i].clone());
            i += 1;
        }
        let ghost tail = tokens_of(s@).drop_first();
        proof {
            assert(rest.deep_view() =~= tail);
        }
        let pairs = pairwise(&rest);
        let mut line = Line::new();
        proof {
            assert(tail.skip(0) =~= tail);
            assert(toks@[0]@ == tokens_of(s@)[0]);
        }
        let mut j: usize = 0;
        while j < pairs.len()
            invariant
                0 <= j <= pairs@.len(),
                tail.len() % 2 == 0,
                pairs@.len() == tail.len() / 2,
                forall|k: int|
                    0 <= k < pairs@.len() ==> pairs@[k].0@ == tail[2 * k] && pairs@[k].1@
                        == tail[2 * k + 1],
                line_of_text(s@) == apply_pairs(line@, tail.skip(2 * j)),
            decreases pairs@.len() - j,
        {
            let ghost pre = line@;
            proof {
                assert(tail.skip(2 * j as int)[0] == tail[2 * j]);
                assert(tail.skip(2 * j as int)[1] == tail[2 * j + 1]);
                assert(tail.skip(2 * j as int).skip(2) =~= tail.skip(2 * j + 2));
                assert(tail.skip(2 * j as int).len() >= 2);
            }
            let code = pairs[j].0.as_str();
            let value = pairs[j].1.as_str();
            if code.unicode_len() == 1 && code.get_char(0) == 'N' {
                match parse_u32(value) {
                    Some(n) => {
                        line.number = Some(n);
                        proof {
                            assert(line@ =~= (LineModel { number: Some(n), ..pre }));
                        }
                    },
                    None => {
                        return Err(DecodeError::MalformedValue);
                    },
                }
            } else {
                match Instruction::from_pair(code, value) {
                    Ok(Some(ins)) => {
                        line.instructions.push(ins);
                        proof {
                            assert(line@.instructions =~= pre.instructions.push(ins@));
                        }
                    },
                    Ok(None) => {},
                    Err(e) => {
                        return Err(e);
                    },
                }
            }
            j += 1;
        }
        proof {
            assert(tail.skip(2 * pairs@.len() as int).len() == 0);
        }
        Ok(line)
    }
}

} // verus!
