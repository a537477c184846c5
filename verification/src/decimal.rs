//! The written form of a floating-point number as the standard library's
//! `f64` parser accepts it, checked without converting: command output keeps
//! round-trip times as text until they are shown.
use vstd::prelude::*;

use crate::text::{all_dec_digits, all_dec_digits_in, is_dec_digit};

verus! {

/// `s` equals the lower-case ASCII word `w`, ignoring ASCII case.
pub open spec fn ascii_ci_eq(s: Seq<char>, w: Seq<char>) -> bool {
    s.len() == w.len() && forall|j: int| 0 <= j < s.len() ==> (#[trigger] s[j] == w[j] || s[j] as int + 32 == w[j] as int)
}

/// The number of leading ASCII digits of `s`.
pub open spec fn digit_run(s: Seq<char>) -> int
    decreases s.len(),
{
    if s.len() == 0 || !is_dec_digit(s[0]) {
        0
    } else {
        1 + digit_run(s.drop_first())
    }
}

/// An exponent part: nothing, or `e`/`E`, an optional sign and one or more
/// digits.
pub open spec fn float_exponent(e: Seq<char>) -> bool {
    e.len() == 0 || ((e[0] == 'e' || e[0] == 'E') && {
        let f = if e.len() > 1 && (e[1] == '+' || e[1] == '-') {
            e.skip(2)
        } else {
            e.drop_first()
        };
        f.len() > 0 && all_dec_digits(f)
    })
}

/// A decimal number without sign: digits, optionally a point and more
/// digits, at least one digit in all, then an exponent part.
pub open spec fn decimal_float(u: Seq<char>) -> bool {
    let a = digit_run(u);
    let r = u.skip(a);
    let point = r.len() > 0 && r[0] == '.';
    let b = if point {
        digit_run(r.drop_first())
    } else {
        0
    };
    let e = if point {
        r.drop_first().skip(b)
    } else {
        r
    };
    a + b > 0 && float_exponent(e)
}

/// `inf`, `infinity` or `nan`, in any ASCII case.
pub open spec fn special_float_word(u: Seq<char>) -> bool {
    ascii_ci_eq(u, seq!['i', 'n', 'f']) || ascii_ci_eq(u, seq!['i', 'n', 'f', 'i', 'n', 'i', 't', 'y'])
        || ascii_ci_eq(u, seq!['n', 'a', 'n'])
}

/// The strings that `str::parse::<f64>` accepts: an optional sign, then a
/// special word or a decimal number, with nothing around them.
pub open spec fn is_float_literal(s: Seq<char>) -> bool {
    let u = if s.len() > 0 && (s[0] == '+' || s[0] == '-') {
        s.drop_first()
    } else {
        s
    };
    special_float_word(u) || decimal_float(u)
}

proof fn lemma_digit_run_is(s: Seq<char>, m: int)
    requires
        0 <= m <= s.len(),
        m < s.len() ==> !is_dec_digit(s[m]),
        forall|j: int| 0 <= j < m ==> is_dec_digit(#[trigger] s[j]),
    ensures
        digit_run(s) == m,
    decreases s.len(),
{
    if m > 0 {
        assert forall|j: int| 0 <= j < m - 1 implies is_dec_digit(#[trigger] s.drop_first()[j]) by {
            assert(s.drop_first()[j] == s[j + 1]);
        }
        lemma_digit_run_is(s.drop_first(), m - 1);
    }
}

/// The end of the run of digits that starts at `lo` in `v[lo..hi]`.
fn digit_run_end(v: &[char], lo: usize, hi: usize) -> (r: usize)
    requires
        lo <= hi <= v@.len(),
    ensures
        lo <= r <= hi,
        r - lo == digit_run(v@.subrange(lo as int, hi as int)),
{
    let mut i = lo;
    while i < hi && v[i] >= '0' && v[i] <= '9'
        invariant
            lo <= i <= hi <= v@.len(),
            forall|k: int| lo <= k < i ==> is_dec_digit(#[trigger] v@[k]),
        decreases hi - i,
    {
        i = i + 1;
    }
    let ghost s = v@.subrange(lo as int, hi as int);
    proof {
        assert forall|j: int| 0 <= j < i - lo implies is_dec_digit(#[trigger] s[j]) by {
            assert(s[j] == v@[lo + j]);
        }
        if i < hi {
            assert(s[i - lo] == v@[i as int]);
        }
        lemma_digit_run_is(s, i - lo);
    }
    i
}

/// Whether `v[lo..hi]` equals the lower-case word `w` ignoring ASCII case.
fn ci_word_in(v: &[char], lo: usize, hi: usize, w: &[char]) -> (r: bool)
    requires
        lo <= hi <= v@.len(),
        forall|k: int| 0 <= k < w@.len() ==> 'a' <= #[trigger] w@[k] <= 'z',
    ensures
        r == ascii_ci_eq(v@.subrange(lo as int, hi as int), w@),
{
    let ghost s = v@.subrange(lo as int, hi as int);
    if hi - lo != w.len() {
        return false;
    }
    let mut j: usize = 0;
    while j < w.len()
        invariant
            hi - lo == w@.len(),
            lo <= hi <= v@.len(),
            s == v@.subrange(lo as int, hi as int),
            j <= w@.len(),
            forall|k: int| 0 <= k < w@.len() ==> 'a' <= #[trigger] w@[k] <= 'z',
            forall|k: int| 0 <= k < j ==> (#[trigger] s[k] == w@[k] || s[k] as int + 32 == w@[k] as int),
        decreases w@.len() - j,
    {
        let c = v[lo + j];
        let d = w[j];
        assert(s[j as int] == c);
        if !(c == d || ('A' <= c && c <= 'Z' && (c as u32) + 32 == (d as u32))) {
            assert(!(s[j as int] == w@[j as int] || s[j as int] as int + 32 == w@[j as int] as int));
            return false;
        }
        j = j + 1;
    }
    true
}

/// Whether `v[lo..hi]` is an exponent part.
fn exponent_in(v: &[char], lo: usize, hi: usize) -> (r: bool)
    requires
        lo <= hi <= v@.len(),
    ensures
        r == float_exponent(v@.subrange(lo as int, hi as int)),
{
    let ghost e = v@.subrange(lo as int, hi as int);
    if lo == hi {
        return true;
    }
    assert(e[0] == v@[lo as int]);
    if v[lo] != 'e' && v[lo] != 'E' {
        return false;
    }
    let mut start = lo + 1;
    if hi - lo > 1 && (v[lo + 1] == '+' || v[lo + 1] == '-') {
        assert(e[1] == v@[lo + 1]);
        start = lo + 2;
        assert(e.skip(2) =~= v@.subrange(start as int, hi as int));
    } else {
        if hi - lo > 1 {
            assert(e[1] == v@[lo + 1]);
        }
        assert(e.drop_first() =~= v@.subrange(start as int, hi as int));
    }
    start < hi && all_dec_digits_in(v, start, hi)
}

/// Whether `v[lo..hi]` is a decimal number without sign.
fn decimal_in(v: &[char], lo: usize, hi: usize) -> (r: bool)
    requires
        lo <= hi <= v@.len(),
    ensures
        r == decimal_float(v@.subrange(lo as int, hi as int)),
{
    let ghost u = v@.subrange(lo as int, hi as int);
    let a_end = digit_run_end(v, lo, hi);
    let ghost rr = u.skip(a_end - lo);
    assert(rr =~= v@.subrange(a_end as int, hi as int));
    let mut e_start = a_end;
    let mut b: usize = 0;
    if a_end < hi && v[a_end] == '.' {
        assert(rr[0] == v@[a_end as int]);
        let b_end = digit_run_end(v, a_end + 1, hi);
        assert(rr.drop_first() =~= v@.subrange(a_end + 1, hi as int));
        b = b_end - (a_end + 1);
        e_start = b_end;
        assert(rr.drop_first().skip(b as int) =~= v@.subrange(e_start as int, hi as int));
    } else {
        if a_end < hi {
            assert(rr[0] == v@[a_end as int]);
        }
    }
    if (a_end - lo) + b == 0 {
        return false;
    }
    exponent_in(v, e_start, hi)
}

/// Whether `v[lo..hi]` is a number as `str::parse::<f64>` accepts it.
pub fn is_float_in(v: &[char], lo: usize, hi: usize) -> (r: bool)
    requires
        lo <= hi <= v@.len(),
    ensures
        r == is_float_literal(v@.subrange(lo as int, hi as int)),
{
    let ghost s = v@.subrange(lo as int, hi as int);
    let mut start = lo;
    if lo < hi && (v[lo] == '+' || v[lo] == '-') {
        assert(s[0] == v@[lo as int]);
        start = lo + 1;
        assert(s.drop_first() =~= v@.subrange(start as int, hi as int));
    } else {
        if lo < hi {
            assert(s[0] == v@[lo as int]);
        }
        assert(s =~= v@.subrange(start as int, hi as int));
    }
    let inf = ['i', 'n', 'f'];
    let infinity = ['i', 'n', 'f', 'i', 'n', 'i', 't', 'y'];
    let nan = ['n', 'a', 'n'];
    assert(inf@ =~= seq!['i', 'n', 'f']);
    assert(infinity@ =~= seq!['i', 'n', 'f', 'i', 'n', 'i', 't', 'y']);
    assert(nan@ =~= seq!['n', 'a', 'n']);
    if ci_word_in(v, start, hi, &inf) || ci_word_in(v, start, hi, &infinity) || ci_word_in(v, start, hi, &nan) {
        return true;
    }
    decimal_in(v, start, hi)
}

} // verus!
