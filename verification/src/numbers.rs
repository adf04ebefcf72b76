//! Numeric value texts: whitespace trimming, unsigned decimal parsing, and
//! the accepted syntax of floating-point payloads.

use crate::chars::{digit_val, is_digit, is_space, CharClass};
use crate::scan::{lemma_run_len_is, lemma_run_len_props, run_len, scan_run};
use vstd::arithmetic::div_mod::{
    lemma_div_decreases, lemma_div_pos_is_pos, lemma_fundamental_div_mod,
    lemma_mod_division_less_than_divisor,
};
use vstd::prelude::*;

verus! {

/// Count of trailing whitespace characters.
pub open spec fn space_suffix_len(s: Seq<char>) -> nat
    decreases s.len(),
{
    if s.len() > 0 && is_space(s.last()) {
        1 + space_suffix_len(s.drop_last())
    } else {
        0
    }
}

/// A bounded, maximal stretch of trailing whitespace is exactly the suffix.
pub proof fn lemma_space_suffix_is(s: Seq<char>, m: nat)
    requires
        m <= s.len(),
        forall|j: int| s.len() - m <= j < s.len() ==> is_space(s[j]),
        m == s.len() || !is_space(s[s.len() - m - 1]),
    ensures
        space_suffix_len(s) == m,
    decreases s.len(),
{
    if m == 0 {
    } else {
        assert(is_space(s.last()));
        assert(forall|j: int| 0 <= j < s.len() - 1 ==> s.drop_last()[j] == s[j]);
        lemma_space_suffix_is(s.drop_last(), (m - 1) as nat);
    }
}

/// `s` with surrounding whitespace removed.
pub open spec fn trim_spaces(s: Seq<char>) -> Seq<char> {
    if run_len(s, CharClass::Space) == s.len() {
        Seq::empty()
    } else {
        s.subrange(
            run_len(s, CharClass::Space) as int,
            s.len() - space_suffix_len(s),
        )
    }
}

/// Removes surrounding whitespace.
pub fn trim(s: &str) -> (r: String)
    ensures
        r@ == trim_spaces(s@),
{
    let n = s.unicode_len();
    let b = scan_run(s, 0, CharClass::Space);
    proof {
        assert(s@.skip(0) =~= s@);
    }
    if b == n {
        return String::new();
    }
    proof {
        lemma_run_len_props(s@, CharClass::Space);
    }
    let mut e = n;
    while e > b
        invariant
            b <= e <= n,
            n == s@.len(),
            b == run_len(s@, CharClass::Space),
            b < n,
            !is_space(s@[b as int]),
            forall|j: int| e <= j < n ==> is_space(s@[j]),
        decreases e,
    {
        if !crate::chars::class_member(s.get_char(e - 1), CharClass::Space) {
            proof {
                lemma_space_suffix_is(s@, (n - e) as nat);
            }
            return String::from_str(s.substring_char(b, e));
        }
        e -= 1;
    }
    proof {
        assert(is_space(s@[b as int]));
        assert(false);
    }
    String::new()
}

/// Every character is a decimal digit.
pub open spec fn all_digits(s: Seq<char>) -> bool {
    forall|i: int| 0 <= i < s.len() ==> is_digit(s[i])
}

/// Numeric value of a digit string read in base ten.
pub open spec fn dec_val(s: Seq<char>) -> int
    decreases s.len(),
{
    if s.len() == 0 {
        0
    } else {
        dec_val(s.drop_last()) * 10 + digit_val(s.last())
    }
}

pub proof fn lemma_dec_val_nonneg(s: Seq<char>)
    requires
        all_digits(s),
    ensures
        dec_val(s) >= 0,
    decreases s.len(),
{
    if s.len() > 0 {
        assert(forall|j: int| 0 <= j < s.len() - 1 ==> s.drop_last()[j] == s[j]);
        lemma_dec_val_nonneg(s.drop_last());
    }
}

/// A digit string is worth at least any of its prefixes.
pub proof fn lemma_dec_val_prefix_le(s: Seq<char>, j: int)
    requires
        0 <= j <= s.len(),
        all_digits(s),
    ensures
        dec_val(s.take(j)) <= dec_val(s),
    decreases s.len(),
{
    if j == s.len() {
        assert(s.take(j) =~= s);
    } else {
        assert(forall|i: int| 0 <= i < s.len() - 1 ==> s.drop_last()[i] == s[i]);
        lemma_dec_val_nonneg(s.drop_last());
        lemma_dec_val_prefix_le(s.drop_last(), j);
        assert(s.drop_last().take(j) =~= s.take(j));
        assert(digit_val(s.last()) >= 0);
    }
}

/// What unsigned decimal parsing accepts, after surrounding whitespace is
/// trimmed: an optional leading `+`, then one or more digits, with a value
/// that fits in a `u32`.
pub open spec fn u32_of_text(s: Seq<char>) -> Option<u32> {
    let t = trim_spaces(s);
    let d = if t.len() > 0 && t[0] == '+' {
        t.drop_first()
    } else {
        t
    };
    if d.len() > 0 && all_digits(d) && dec_val(d) <= u32::MAX as int {
        Some(dec_val(d) as u32)
    } else {
        None
    }
}

/// Parses the text of a numeric value as an unsigned integer.
pub fn parse_u32(s: &str) -> (r: Option<u32>)
    ensures
        r == u32_of_text(s@),
{
    let t = trim(s);
    let ts = t.as_str();
    let n = ts.unicode_len();
    let start: usize = if n > 0 && ts.get_char(0) == '+' {
        1
    } else {
        0
    };
    let ghost d = if ts@.len() > 0 && ts@[0] == '+' {
        ts@.drop_first()
    } else {
        ts@
    };
    proof {
        assert(d =~= ts@.skip(start as int));
    }
    if start == n {
        return None;
    }
    let mut acc: u64 = 0;
    let mut i: usize = start;
    while i < n
        invariant
            start <= i <= n,
            start < n,
            n == ts@.len(),
            ts@ == trim_spaces(s@),
            d == ts@.skip(start as int),
            d == (if ts@.len() > 0 && ts@[0] == '+' {
                ts@.drop_first()
            } else {
                ts@
            }),
            forall|k: int| 0 <= k < i - start ==> is_digit(d[k]),
            acc == dec_val(d.take(i - start)),
            acc <= u32::MAX as u64,
        decreases n - i,
    {
        let c = ts.get_char(i);
        proof {
            assert(d[i - start] == ts@[i as int]);
        }
        if !crate::chars::class_member(c, CharClass::Digit) {
            return None;
        }
        let dv: u64 = (c as u32) as u64 - 48;
        proof {
            assert(dv == digit_val(c));
            assert(d.take(i + 1 - start).drop_last() =~= d.take(i - start));
            assert(d.take(i + 1 - start).last() == d[i - start]);
        }
        acc = acc * 10 + dv;
        if acc > 0xFFFF_FFFF {
            proof {
                if all_digits(d) {
                    lemma_dec_val_prefix_le(d, i + 1 - start);
                }
            }
            return None;
        }
        i += 1;
    }
    proof {
        assert(d.take(n - start) =~= d);
    }
    Some(acc as u32)
}

/// Strips one leading sign character.
pub open spec fn strip_sign(s: Seq<char>) -> Seq<char> {
    if s.len() > 0 && (s[0] == '+' || s[0] == '-') {
        s.drop_first()
    } else {
        s
    }
}

/// An exponent suffix: nothing at all, or `e`/`E`, an optional sign, and
/// at least one digit.
pub open spec fn is_exponent(s: Seq<char>) -> bool {
    if s.len() == 0 {
        true
    } else if s[0] == 'e' || s[0] == 'E' {
        let u = strip_sign(s.drop_first());
        u.len() > 0 && all_digits(u)
    } else {
        false
    }
}

/// A significand holding at least one digit, with an optional fraction,
/// then an optional exponent.
pub open spec fn is_float_body(s: Seq<char>) -> bool {
    let d1 = run_len(s, CharClass::Digit) as int;
    let rest = s.skip(d1);
    if rest.len() > 0 && rest[0] == '.' {
        let frac = rest.drop_first();
        let d2 = run_len(frac, CharClass::Digit) as int;
        d1 + d2 > 0 && is_exponent(frac.skip(d2))
    } else {
        d1 > 0 && is_exponent(rest)
    }
}

/// A well-formed floating-point value text, whitespace already trimmed:
/// an optional sign, decimal digits with an optional fraction, and an
/// optional exponent part.
pub open spec fn is_float_text(s: Seq<char>) -> bool {
    is_float_body(strip_sign(s))
}

/// Decides whether `s@.skip(j)` is an exponent suffix.
fn exponent_at(s: &str, j: usize) -> (b: bool)
    requires
        j <= s@.len(),
    ensures
        b == is_exponent(s@.skip(j as int)),
{
    let n = s.unicode_len();
    if j == n {
        return true;
    }
    let c = s.get_char(j);
    proof {
        assert(s@.skip(j as int)[0] == s@[j as int]);
    }
    if !(c == 'e' || c == 'E') {
        return false;
    }
    let k: usize = if j + 1 < n {
        let c2 = s.get_char(j + 1);
        if c2 == '+' || c2 == '-' {
            j + 2
        } else {
            j + 1
        }
    } else {
        j + 1
    };
    let ghost u = strip_sign(s@.skip(j as int).drop_first());
    proof {
        assert(s@.skip(j as int).drop_first() =~= s@.skip(j + 1));
        assert(u =~= s@.skip(k as int));
    }
    if k == n {
        return false;
    }
    let de = scan_run(s, k, CharClass::Digit);
    proof {
        lemma_run_len_props(s@.skip(k as int), CharClass::Digit);
        if de == n {
            assert forall|i: int| 0 <= i < u.len() implies is_digit(u[i]) by {
                assert(u[i] == s@.skip(k as int)[i]);
            }
        } else {
            assert(!is_digit(u[de - k]));
        }
    }
    de == n
}

/// Decides `is_float_text`, for a value text already trimmed.
pub fn float_text(s: &str) -> (b: bool)
    ensures
        b == is_float_text(s@),
{
    let n = s.unicode_len();
    let start: usize = if n > 0 {
        let c = s.get_char(0);
        if c == '+' || c == '-' {
            1
        } else {
            0
        }
    } else {
        0
    };
    let ghost body = strip_sign(s@);
    proof {
        assert(body =~= s@.skip(start as int));
    }
    let d1e = scan_run(s, start, CharClass::Digit);
    let ghost d1 = run_len(body, CharClass::Digit) as int;
    proof {
        assert(d1 == d1e - start);
        assert(body.skip(d1) =~= s@.skip(d1e as int));
    }
    if d1e < n && s.get_char(d1e) == '.' {
        proof {
            assert(body.skip(d1)[0] == s@[d1e as int]);
        }
        let fs = d1e + 1;
        let d2e = scan_run(s, fs, CharClass::Digit);
        let ghost frac = body.skip(d1).drop_first();
        proof {
            assert(frac =~= s@.skip(fs as int));
            assert(frac.skip(d2e - fs) =~= s@.skip(d2e as int));
        }
        if d1e == start && d2e == fs {
            return false;
        }
        exponent_at(s, d2e)
    } else {
        proof {
            if d1 < body.len() {
                assert(body.skip(d1)[0] == s@[d1e as int]);
            }
        }
        if d1e == start {
            return false;
        }
        exponent_at(s, d1e)
    }
}

/// The canonical decimal rendering of a non-negative integer.
pub open spec fn digit_char(d: int) -> char {
    if d == 0 {
        '0'
    } else if d == 1 {
        '1'
    } else if d == 2 {
        '2'
    } else if d == 3 {
        '3'
    } else if d == 4 {
        '4'
    } else if d == 5 {
        '5'
    } else if d == 6 {
        '6'
    } else if d == 7 {
        '7'
    } else if d == 8 {
        '8'
    } else {
        '9'
    }
}

/// The decimal digit string of a non-negative integer.
pub open spec fn dec_digits_of(n: int) -> Seq<char>
    decreases n,
        via dec_digits_of_decreases
{
    if n < 10 {
        seq![digit_char(n)]
    } else {
        dec_digits_of(n / 10) + seq![digit_char(n % 10)]
    }
}

#[via_fn]
proof fn dec_digits_of_decreases(n: int) {
    if n >= 10 {
        lemma_div_decreases(n, 10);
        lemma_div_pos_is_pos(n, 10);
    }
}

/// The rendering consists of digits and reads back to the same value.
pub proof fn lemma_dec_digits_props(n: int)
    requires
        n >= 0,
    ensures
        dec_digits_of(n).len() >= 1,
        all_digits(dec_digits_of(n)),
        dec_val(dec_digits_of(n)) == n,
    decreases n,
{
    if n < 10 {
        let s = dec_digits_of(n);
        assert(s =~= seq![digit_char(n)]);
        assert(s.drop_last() =~= Seq::<char>::empty());
        assert(dec_val(Seq::<char>::empty()) == 0);
        assert(s.last() == digit_char(n));
        assert(digit_val(digit_char(n)) == n);
        assert(dec_val(s) == dec_val(s.drop_last()) * 10 + digit_val(s.last()));
    } else {
        lemma_div_decreases(n, 10);
        lemma_div_pos_is_pos(n, 10);
        lemma_mod_division_less_than_divisor(n, 10);
        lemma_fundamental_div_mod(n, 10);
        lemma_dec_digits_props(n / 10);
        let a = dec_digits_of(n / 10);
        let s = dec_digits_of(n);
        assert(s =~= a + seq![digit_char(n % 10)]);
        assert(s.drop_last() =~= a);
        assert(s.last() == digit_char(n % 10));
        assert(digit_val(digit_char(n % 10)) == n % 10);
        assert(dec_val(s) == dec_val(s.drop_last()) * 10 + digit_val(s.last()));
        assert(dec_val(s.drop_last()) == n / 10);
        assert(n / 10 * 10 + n % 10 == n);
        assert forall|i: int| 0 <= i < s.len() implies is_digit(s[i]) by {
            if i < a.len() {
                assert(s[i] == a[i]);
            }
        }
    }
}

/// Law: decoding the decimal rendering of an unsigned integer payload
/// recovers the integer exactly.
pub proof fn lemma_u32_round_trip(n: u32)
    ensures
        u32_of_text(dec_digits_of(n as int)) == Some(n),
{
    lemma_dec_digits_props(n as int);
    let s = dec_digits_of(n as int);
    lemma_run_len_is(s, CharClass::Space, 0);
    lemma_space_suffix_is(s, 0);
    assert(trim_spaces(s) =~= s);
    assert(!(s[0] == '+'));
}

} // verus!
