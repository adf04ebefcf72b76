//! Maximal runs of a character class, and the scanner that finds them.

use crate::chars::{in_class, CharClass};
use vstd::prelude::*;

verus! {

/// Length of the maximal prefix of `s` whose characters all belong to
/// class `k`.
pub open spec fn run_len(s: Seq<char>, k: CharClass) -> nat
    decreases s.len(),
{
    if s.len() > 0 && in_class(s[0], k) {
        1 + run_len(s.drop_first(), k)
    } else {
        0
    }
}

/// The run is within bounds, all its characters belong to the class, and
/// it is maximal.
pub proof fn lemma_run_len_props(s: Seq<char>, k: CharClass)
    ensures
        run_len(s, k) <= s.len(),
        forall|i: int| 0 <= i < run_len(s, k) ==> in_class(s[i], k),
        run_len(s, k) < s.len() ==> !in_class(s[run_len(s, k) as int], k),
    decreases s.len(),
{
    if s.len() > 0 && in_class(s[0], k) {
        lemma_run_len_props(s.drop_first(), k);
        assert forall|i: int| 0 <= i < run_len(s, k) implies in_class(s[i], k) by {
            if i > 0 {
                assert(s.drop_first()[i - 1] == s[i]);
            }
        }
        if run_len(s, k) < s.len() {
            assert(s.drop_first()[run_len(s.drop_first(), k) as int] == s[run_len(s, k) as int]);
        }
    }
}

/// A bounded, maximal stretch of class members starting the sequence is
/// exactly the run.
pub proof fn lemma_run_len_is(s: Seq<char>, k: CharClass, n: nat)
    requires
        n <= s.len(),
        forall|i: int| 0 <= i < n ==> in_class(s[i], k),
        n == s.len() || !in_class(s[n as int], k),
    ensures
        run_len(s, k) == n,
    decreases s.len(),
{
    if n == 0 {
    } else {
        assert(in_class(s[0], k));
        assert(forall|i: int|
            0 <= i < n - 1 ==> s.drop_first()[i] == s[i + 1] && in_class(s.drop_first()[i], k));
        lemma_run_len_is(s.drop_first(), k, (n - 1) as nat);
    }
}

/// Scans from `start` to the end of the maximal run of class `k`
/// characters.
pub fn scan_run(s: &str, start: usize, k: CharClass) -> (end: usize)
    requires
        start <= s@.len(),
    ensures
        start <= end <= s@.len(),
        run_len(s@.skip(start as int), k) == end - start,
{
    let n = s.unicode_len();
    let mut i = start;
    while i < n
        invariant
            start <= i <= n,
            n == s@.len(),
            forall|j: int| start <= j < i ==> in_class(s@[j], k),
        decreases n - i,
    {
        if !crate::chars::class_member(s.get_char(i), k) {
            proof {
                assert(forall|j: int|
                    0 <= j < i - start ==> s@.skip(start as int)[j] == s@[start + j]);
                lemma_run_len_is(s@.skip(start as int), k, (i - start) as nat);
            }
            return i;
        }
        i += 1;
    }
    proof {
        assert(forall|j: int| 0 <= j < n - start ==> s@.skip(start as int)[j] == s@[start + j]);
        lemma_run_len_is(s@.skip(start as int), k, (n - start) as nat);
    }
    i
}

} // verus!
