//! Splitting one source line into alternating value and code segments.
//!
//! A code segment is a maximal run of letters; every stretch between two
//! code segments (or before the first, or after the last) is a value
//! segment, empty only at the two boundaries. The token list therefore
//! always has odd length: value, code, value, ..., code, value.

use crate::chars::{is_letter, CharClass};
use crate::scan::{lemma_run_len_props, run_len, scan_run};
use vstd::prelude::*;

verus! {

/// The token segments of one source line, in order: a value segment, then
/// alternating code and value segments, ending with a value segment. The
/// leading and trailing value segments may be empty; every inner one is
/// non-empty, and every code segment is a non-empty maximal run of letters.
pub open spec fn tokens_of(s: Seq<char>) -> Seq<Seq<char>>
    decreases s.len(),
        via tokens_of_decreases
{
    let v = run_len(s, CharClass::NonLetter) as int;
    if v == s.len() {
        seq![s]
    } else {
        let c = run_len(s.skip(v), CharClass::Letter) as int;
        seq![s.take(v), s.subrange(v, v + c)] + tokens_of(s.skip(v + c))
    }
}

#[via_fn]
proof fn tokens_of_decreases(s: Seq<char>) {
    lemma_run_len_props(s, CharClass::NonLetter);
    let v = run_len(s, CharClass::NonLetter) as int;
    if v < s.len() {
        assert(is_letter(s.skip(v)[0]));
        lemma_run_len_props(s.skip(v), CharClass::Letter);
    }
}

/// Concatenation of a list of segments.
pub open spec fn concat_segments(toks: Seq<Seq<char>>) -> Seq<char>
    decreases toks.len(),
{
    if toks.len() == 0 {
        Seq::empty()
    } else {
        toks[0] + concat_segments(toks.drop_first())
    }
}

/// Law: the split is lossless — concatenating all emitted segments
/// reproduces the original line exactly.
pub proof fn lemma_tokens_lossless(s: Seq<char>)
    ensures
        concat_segments(tokens_of(s)) == s,
    decreases s.len(),
{
    lemma_run_len_props(s, CharClass::NonLetter);
    let v = run_len(s, CharClass::NonLetter) as int;
    let toks = tokens_of(s);
    if v == s.len() {
        assert(toks =~= seq![s]);
        assert(toks.drop_first() =~= Seq::<Seq<char>>::empty());
        assert(concat_segments(toks) == s + concat_segments(toks.drop_first()));
        assert(s + Seq::<char>::empty() =~= s);
    } else {
        assert(is_letter(s.skip(v)[0]));
        lemma_run_len_props(s.skip(v), CharClass::Letter);
        let c = run_len(s.skip(v), CharClass::Letter) as int;
        lemma_tokens_lossless(s.skip(v + c));
        assert(toks[0] == s.take(v));
        let toks1 = toks.drop_first();
        assert(toks1 =~= seq![s.subrange(v, v + c)] + tokens_of(s.skip(v + c)));
        assert(toks1.drop_first() =~= tokens_of(s.skip(v + c)));
        assert(concat_segments(toks) == s.take(v) + concat_segments(toks1));
        assert(concat_segments(toks1) == s.subrange(v, v + c) + concat_segments(
            toks1.drop_first(),
        ));
        assert(s.take(v) + (s.subrange(v, v + c) + s.skip(v + c)) =~= s);
    }
}

/// The token list always has odd length: k codes and k + 1 values.
pub proof fn lemma_tokens_odd(s: Seq<char>)
    ensures
        tokens_of(s).len() % 2 == 1,
    decreases s.len(),
{
    lemma_run_len_props(s, CharClass::NonLetter);
    let v = run_len(s, CharClass::NonLetter) as int;
    if v < s.len() {
        assert(is_letter(s.skip(v)[0]));
        lemma_run_len_props(s.skip(v), CharClass::Letter);
        let c = run_len(s.skip(v), CharClass::Letter) as int;
        lemma_tokens_odd(s.skip(v + c));
    }
}

/// Splits one source line into its token segments, in order.
///
/// The result is exactly `tokens_of(s@)`; in particular, concatenating the
/// segments gives back `s` (`lemma_tokens_lossless`).
pub fn tokenize(s: &str) -> (r: Vec<String>)
    ensures
        r.deep_view() == tokens_of(s@),
    decreases s@.len(),
{
    let n = s.unicode_len();
    let v = scan_run(s, 0, CharClass::NonLetter);
    proof {
        assert(s@.skip(0) =~= s@);
    }
    if v == n {
        let mut r: Vec<String> = Vec::new();
        r.push(String::from_str(s));
        proof {
            assert(r.deep_view() =~= tokens_of(s@));
        }
        r
    } else {
        proof {
            lemma_run_len_props(s@, CharClass::NonLetter);
            assert(is_letter(s@.skip(v as int)[0]));
        }
        let ce = scan_run(s, v, CharClass::Letter);
        proof {
            assert(run_len(s@.skip(v as int), CharClass::Letter) >= 1);
        }
        let value = String::from_str(s.substring_char(0, v));
        let code = String::from_str(s.substring_char(v, ce));
        let rest = s.substring_char(ce, n);
        proof {
            assert(rest@ =~= s@.skip(ce as int));
        }
        let mut tail = tokenize(rest);
        let mut r: Vec<String> = Vec::new();
        r.push(value);
        r.push(code);
        r.append(&mut tail);
        proof {
            assert(s@.take(v as int) =~= s@.subrange(0, v as int));
            assert(r.deep_view() =~= tokens_of(s@));
        }
        r
    }
}

/// Groups an even-length token list into consecutive (code, value) pairs,
/// in order.
pub fn pairwise(t: &Vec<String>) -> (r: Vec<(String, String)>)
    requires
        t@.len() % 2 == 0,
    ensures
        r@.len() == t@.len() / 2,
        forall|i: int| 0 <= i < r@.len() ==> r@[i].0 == t@[2 * i] && r@[i].1 == t@[2 * i + 1],
{
    let mut r: Vec<(String, String)> = Vec::new();
    let mut i: usize = 0;
    while i < t.len()
        invariant
            t@.len() % 2 == 0,
            i % 2 == 0,
            i <= t@.len(),
            r@.len() == i / 2,
            forall|j: int| 0 <= j < r@.len() ==> r@[j].0 == t@[2 * j] && r@[j].1 == t@[2 * j + 1],
        decreases t@.len() - i,
    {
        let a = t[i].clone();
        let b = t[i + 1].clone();
        r.push((a, b));
        i += 2;
    }
    r
}

} // verus!
