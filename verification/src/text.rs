//! Character-level building blocks for reading command output: character
//! sequences of strings, splitting on a separator, decimal and hexadecimal
//! digits.
use vstd::prelude::*;

verus! {

/// The characters of `s`.
pub fn chars_of(s: &str) -> (v: Vec<char>)
    ensures
        v@ == s@,
{
    let n = s.unicode_len();
    let mut v: Vec<char> = Vec::new();
    let mut i: usize = 0;
    while i < n
        invariant
            n == s@.len(),
            i <= n,
            v@ == s@.take(i as int),
        decreases n - i,
    {
        v.push(s.get_char(i));
        i = i + 1;
        assert(v@ =~= s@.take(i as int));
    }
    assert(v@ =~= s@);
    v
}

/// The index of the first `c` in `s`, or the length of `s` when there is none.
pub open spec fn find_char(s: Seq<char>, c: char) -> int
    decreases s.len(),
{
    if s.len() == 0 {
        0
    } else if s[0] == c {
        0
    } else {
        1 + find_char(s.drop_first(), c)
    }
}

/// `find_char` is the first occurrence.
pub proof fn lemma_find_char(s: Seq<char>, c: char)
    ensures
        0 <= find_char(s, c) <= s.len(),
        find_char(s, c) < s.len() ==> s[find_char(s, c)] == c,
        forall|j: int| 0 <= j < find_char(s, c) ==> s[j] != c,
    decreases s.len(),
{
    if s.len() > 0 && s[0] != c {
        lemma_find_char(s.drop_first(), c);
        assert forall|j: int| 0 <= j < find_char(s, c) implies s[j] != c by {
            if j > 0 {
                assert(s[j] == s.drop_first()[j - 1]);
            }
        }
    }
}

/// A position before which `c` does not occur, and at which it does (or the
/// end), is `find_char`.
pub proof fn lemma_find_char_is(s: Seq<char>, c: char, m: int)
    requires
        0 <= m <= s.len(),
        m < s.len() ==> s[m] == c,
        forall|j: int| 0 <= j < m ==> s[j] != c,
    ensures
        find_char(s, c) == m,
    decreases s.len(),
{
    if s.len() > 0 && m > 0 {
        lemma_find_char_is(s.drop_first(), c, m - 1);
    }
}

/// The index of the first `c` in `v[from..to]`, counted from `from`, or `to`.
pub fn find_char_in(v: &[char], from: usize, to: usize, c: char) -> (r: usize)
    requires
        from <= to <= v@.len(),
    ensures
        from <= r <= to,
        r - from == find_char(v@.subrange(from as int, to as int), c),
{
    let mut i = from;
    while i < to
        invariant
            from <= i <= to,
            to <= v@.len(),
            forall|k: int| from <= k < i ==> v@[k] != c,
        ensures
            from <= i <= to,
            i < to ==> v@[i as int] == c,
            forall|k: int| from <= k < i ==> v@[k] != c,
        decreases to - i,
    {
        if v[i] == c {
            break;
        }
        i = i + 1;
    }
    proof {
        lemma_find_char_is(v@.subrange(from as int, to as int), c, i - from);
    }
    i
}

/// The fields of `s` between occurrences of `sep` (`n` separators give
/// `n + 1` fields, some possibly empty).
pub open spec fn fields(s: Seq<char>, sep: char) -> Seq<Seq<char>>
    decreases s.len(),
{
    let i = find_char(s, sep);
    if i >= s.len() {
        seq![s]
    } else {
        proof {
            lemma_find_char(s, sep);
        }
        seq![s.take(i)] + fields(s.skip(i + 1), sep)
    }
}

/// The character ranges `[start, end)` of `v` named by `bounds`.
pub open spec fn ranges_of(v: Seq<char>, bounds: Seq<(usize, usize)>) -> Seq<Seq<char>> {
    bounds.map_values(|b: (usize, usize)| v.subrange(b.0 as int, b.1 as int))
}

/// The bounds of the fields of `v[lo..hi]` between occurrences of `sep`.
pub fn field_bounds(v: &[char], lo: usize, hi: usize, sep: char) -> (r: Vec<(usize, usize)>)
    requires
        lo <= hi <= v@.len(),
    ensures
        ranges_of(v@, r@) == fields(v@.subrange(lo as int, hi as int), sep),
        r@.len() >= 1,
        forall|k: int| 0 <= k < r@.len() ==> lo <= (#[trigger] r@[k]).0 <= r@[k].1 <= hi,
{
    let mut out: Vec<(usize, usize)> = Vec::new();
    let mut cur = lo;
    loop
        invariant_except_break
            fields(v@.subrange(lo as int, hi as int), sep) == ranges_of(v@, out@) + fields(
                v@.subrange(cur as int, hi as int),
                sep,
            ),
        invariant
            lo <= cur <= hi <= v@.len(),
            forall|k: int| 0 <= k < out@.len() ==> lo <= (#[trigger] out@[k]).0 <= out@[k].1 <= hi,
        ensures
            fields(v@.subrange(lo as int, hi as int), sep) == ranges_of(v@, out@),
            out@.len() >= 1,
            forall|k: int| 0 <= k < out@.len() ==> lo <= (#[trigger] out@[k]).0 <= out@[k].1 <= hi,
        decreases hi - cur,
    {
        let j = find_char_in(v, cur, hi, sep);
        let ghost rest = v@.subrange(cur as int, hi as int);
        proof {
            lemma_find_char(rest, sep);
        }
        if j == hi {
            let ghost before = out@;
            out.push((cur, hi));
            assert(ranges_of(v@, out@) =~= ranges_of(v@, before) + seq![rest]);
            assert(fields(rest, sep) == seq![rest]);
            break;
        }
        let ghost before = out@;
        out.push((cur, j));
        assert(rest.take(j - cur) =~= v@.subrange(cur as int, j as int));
        assert(rest.skip(j - cur + 1) =~= v@.subrange(j + 1, hi as int));
        assert(ranges_of(v@, out@) =~= ranges_of(v@, before) + seq![v@.subrange(cur as int, j as int)]);
        cur = j + 1;
    }
    out
}

/// An ASCII decimal digit.
pub open spec fn is_dec_digit(c: char) -> bool {
    '0' <= c <= '9'
}

/// An ASCII hexadecimal digit, in either case.
pub open spec fn is_hex_digit(c: char) -> bool {
    ('0' <= c <= '9') || ('a' <= c <= 'f') || ('A' <= c <= 'F')
}

/// The value of a decimal digit.
pub open spec fn digit_value(c: char) -> nat {
    (c as int - '0' as int) as nat
}

/// The value of a string of decimal digits.
pub open spec fn dec_value(s: Seq<char>) -> nat
    decreases s.len(),
{
    if s.len() == 0 {
        0
    } else {
        dec_value(s.drop_last()) * 10 + digit_value(s.last())
    }
}

/// All characters are decimal digits.
pub open spec fn all_dec_digits(s: Seq<char>) -> bool {
    forall|i: int| 0 <= i < s.len() ==> is_dec_digit(#[trigger] s[i])
}

/// Whether `v[from..to]` consists of decimal digits only.
pub fn all_dec_digits_in(v: &[char], from: usize, to: usize) -> (r: bool)
    requires
        from <= to <= v@.len(),
    ensures
        r == all_dec_digits(v@.subrange(from as int, to as int)),
{
    let mut i = from;
    while i < to
        invariant
            from <= i <= to <= v@.len(),
            forall|k: int| from <= k < i ==> is_dec_digit(#[trigger] v@[k]),
        decreases to - i,
    {
        if !(v[i] >= '0' && v[i] <= '9') {
            assert(!is_dec_digit(v@.subrange(from as int, to as int)[i - from]));
            return false;
        }
        i = i + 1;
    }
    assert forall|k: int| 0 <= k < to - from implies is_dec_digit(
        #[trigger] v@.subrange(from as int, to as int)[k],
    ) by {
        assert(v@.subrange(from as int, to as int)[k] == v@[from + k]);
    }
    true
}

/// Whether `v[from..to]` consists of hexadecimal digits only.
pub fn all_hex_digits_in(v: &[char], from: usize, to: usize) -> (r: bool)
    requires
        from <= to <= v@.len(),
    ensures
        r == (forall|i: int| 0 <= i < to - from ==> is_hex_digit(#[trigger] v@.subrange(from as int, to as int)[i])),
{
    let mut i = from;
    while i < to
        invariant
            from <= i <= to <= v@.len(),
            forall|k: int| from <= k < i ==> is_hex_digit(#[trigger] v@[k]),
        decreases to - i,
    {
        let c = v[i];
        if !((c >= '0' && c <= '9') || (c >= 'a' && c <= 'f') || (c >= 'A' && c <= 'F')) {
            assert(!is_hex_digit(v@.subrange(from as int, to as int)[i - from]));
            return false;
        }
        i = i + 1;
    }
    assert forall|k: int| 0 <= k < to - from implies is_hex_digit(
        #[trigger] v@.subrange(from as int, to as int)[k],
    ) by {
        assert(v@.subrange(from as int, to as int)[k] == v@[from + k]);
    }
    true
}

/// The value of the decimal digits `v[from..to]`, saturating at `u64::MAX`.
pub fn dec_value_in(v: &[char], from: usize, to: usize) -> (r: u64)
    requires
        from <= to <= v@.len(),
        all_dec_digits(v@.subrange(from as int, to as int)),
    ensures
        r == (if dec_value(v@.subrange(from as int, to as int)) <= u64::MAX {
            dec_value(v@.subrange(from as int, to as int))
        } else {
            u64::MAX as nat
        }),
{
    let mut acc: u64 = 0;
    let mut saturated = false;
    let mut i = from;
    while i < to
        invariant
            from <= i <= to <= v@.len(),
            all_dec_digits(v@.subrange(from as int, to as int)),
            saturated == (dec_value(v@.subrange(from as int, i as int)) > u64::MAX),
            !saturated ==> acc == dec_value(v@.subrange(from as int, i as int)),
        decreases to - i,
    {
        let ghost s = v@.subrange(from as int, i as int);
        let ghost s2 = v@.subrange(from as int, i + 1);
        assert(s2.drop_last() =~= s);
        assert(s2.last() == v@[i as int]);
        assert(is_dec_digit(v@.subrange(from as int, to as int)[i - from]));
        assert(v@.subrange(from as int, to as int)[i - from] == v@[i as int]);
        let d = (v[i] as u32 - '0' as u32) as u64;
        if !saturated {
            if acc > (u64::MAX - d) / 10 {
                saturated = true;
                assert(dec_value(s2) > u64::MAX) by (nonlinear_arith)
                    requires
                        dec_value(s2) == acc * 10 + d,
                        acc > (u64::MAX - d) / 10,
                        d <= 9,
                ;
            } else {
                assert(acc * 10 + d <= u64::MAX) by (nonlinear_arith)
                    requires
                        acc <= (u64::MAX - d) / 10,
                        d <= 9,
                ;
                acc = acc * 10 + d;
            }
        } else {
            assert(dec_value(s2) > u64::MAX) by (nonlinear_arith)
                requires
                    dec_value(s2) == dec_value(s) * 10 + digit_value(v@[i as int]),
                    dec_value(s) > u64::MAX,
            ;
        }
        i = i + 1;
    }
    assert(v@.subrange(from as int, to as int) =~= v@.subrange(from as int, i as int));
    if saturated {
        u64::MAX
    } else {
        acc
    }
}

/// Unicode `White_Space`, the whitespace of `char::is_whitespace`: tab, line
/// feed, vertical tab, form feed, carriage return, space, next line,
/// no-break space, ogham space mark, the spaces U+2000 to U+200A, line and
/// paragraph separators, narrow no-break space, medium mathematical space
/// and ideographic space.
pub open spec fn is_space(c: char) -> bool {
    ('\u{9}' <= c <= '\u{d}') || c == ' ' || c == '\u{85}' || c == '\u{a0}' || c == '\u{1680}' || ('\u{2000}' <= c
        <= '\u{200a}') || c == '\u{2028}' || c == '\u{2029}' || c == '\u{202f}' || c == '\u{205f}' || c == '\u{3000}'
}

/// Whether `c` is whitespace.
pub fn is_space_char(c: char) -> (r: bool)
    ensures
        r == is_space(c),
{
    (c >= '\u{9}' && c <= '\u{d}') || c == ' ' || c == '\u{85}' || c == '\u{a0}' || c == '\u{1680}' || (c >= '\u{2000}'
        && c <= '\u{200a}') || c == '\u{2028}' || c == '\u{2029}' || c == '\u{202f}' || c == '\u{205f}' || c
        == '\u{3000}'
}

/// `s` without its leading whitespace.
pub open spec fn trim_start(s: Seq<char>) -> Seq<char>
    decreases s.len(),
{
    if s.len() > 0 && is_space(s[0]) {
        trim_start(s.drop_first())
    } else {
        s
    }
}

/// `s` without its trailing whitespace.
pub open spec fn trim_end(s: Seq<char>) -> Seq<char>
    decreases s.len(),
{
    if s.len() > 0 && is_space(s.last()) {
        trim_end(s.drop_last())
    } else {
        s
    }
}

/// `s` without leading and trailing whitespace.
pub open spec fn trim(s: Seq<char>) -> Seq<char> {
    trim_end(trim_start(s))
}

proof fn lemma_trim_start_skip(s: Seq<char>, i: int)
    requires
        0 <= i <= s.len(),
        forall|k: int| 0 <= k < i ==> is_space(#[trigger] s[k]),
    ensures
        trim_start(s) == trim_start(s.skip(i)),
    decreases i,
{
    if i > 0 {
        assert(s.skip(1) =~= s.drop_first());
        lemma_trim_start_skip(s.drop_first(), i - 1);
        assert(s.drop_first().skip(i - 1) =~= s.skip(i));
    } else {
        assert(s.skip(0) =~= s);
    }
}

proof fn lemma_trim_end_take(s: Seq<char>, j: int)
    requires
        0 <= j <= s.len(),
        forall|k: int| j <= k < s.len() ==> is_space(#[trigger] s[k]),
    ensures
        trim_end(s) == trim_end(s.take(j)),
    decreases s.len() - j,
{
    if j < s.len() {
        assert(s.drop_last().take(j) =~= s.take(j));
        lemma_trim_end_take(s.drop_last(), j);
    } else {
        assert(s.take(j) =~= s);
    }
}

/// The whitespace-free bounds `[a, b)` of `v[lo..hi]`.
pub fn trim_bounds(v: &[char], lo: usize, hi: usize) -> (r: (usize, usize))
    requires
        lo <= hi <= v@.len(),
    ensures
        lo <= r.0 <= r.1 <= hi,
        v@.subrange(r.0 as int, r.1 as int) == trim(v@.subrange(lo as int, hi as int)),
{
    let ghost s = v@.subrange(lo as int, hi as int);
    let mut a = lo;
    while a < hi && is_space_char(v[a])
        invariant
            lo <= a <= hi <= v@.len(),
            forall|k: int| lo <= k < a ==> is_space(#[trigger] v@[k]),
        decreases hi - a,
    {
        a = a + 1;
    }
    let ghost t = v@.subrange(a as int, hi as int);
    proof {
        assert forall|k: int| 0 <= k < a - lo implies is_space(#[trigger] s[k]) by {
            assert(s[k] == v@[lo + k]);
        }
        lemma_trim_start_skip(s, a - lo);
        assert(s.skip(a - lo) =~= t);
        if a < hi {
            assert(t[0] == v@[a as int]);
        }
        assert(trim_start(t) == t);
    }
    let mut b = hi;
    while b > a && is_space_char(v[b - 1])
        invariant
            a <= b <= hi <= v@.len(),
            forall|k: int| b <= k < hi ==> is_space(#[trigger] v@[k]),
        decreases b - a,
    {
        b = b - 1;
    }
    proof {
        assert forall|k: int| b - a <= k < t.len() implies is_space(#[trigger] t[k]) by {
            assert(t[k] == v@[a + k]);
        }
        lemma_trim_end_take(t, b - a);
        assert(t.take(b - a) =~= v@.subrange(a as int, b as int));
        let u = v@.subrange(a as int, b as int);
        if b > a {
            assert(u.last() == v@[b - 1]);
        }
        assert(trim_end(u) == u);
    }
    (a, b)
}

/// `s` without leading and trailing whitespace.
pub fn trimmed(s: &str) -> (r: String)
    ensures
        r@ == trim(s@),
{
    let v = chars_of(s);
    assert(v@.subrange(0, v@.len() as int) =~= v@);
    let (a, b) = trim_bounds(v.as_slice(), 0, v.len());
    s.substring_char(a, b).to_owned()
}

/// The number of characters before the first whitespace in `s` (or its length).
pub open spec fn word_len(s: Seq<char>) -> int
    decreases s.len(),
{
    if s.len() == 0 || is_space(s[0]) {
        0
    } else {
        1 + word_len(s.drop_first())
    }
}

proof fn lemma_word_len_is(s: Seq<char>, m: int)
    requires
        0 <= m <= s.len(),
        m < s.len() ==> is_space(s[m]),
        forall|j: int| 0 <= j < m ==> !is_space(#[trigger] s[j]),
    ensures
        word_len(s) == m,
    decreases s.len(),
{
    if m > 0 {
        assert forall|j: int| 0 <= j < m - 1 implies !is_space(#[trigger] s.drop_first()[j]) by {
            assert(s.drop_first()[j] == s[j + 1]);
        }
        lemma_word_len_is(s.drop_first(), m - 1);
    }
}

/// The words of `s`: its maximal runs of non-whitespace characters, in order
/// (what `str::split_whitespace` yields).
pub open spec fn words(s: Seq<char>) -> Seq<Seq<char>>
    decreases s.len(),
{
    if s.len() == 0 {
        seq![]
    } else if is_space(s[0]) {
        words(s.drop_first())
    } else {
        let n = word_len(s);
        if 0 < n <= s.len() {
            seq![s.take(n)] + words(s.skip(n))
        } else {
            seq![]
        }
    }
}

proof fn lemma_word_len_bounds(s: Seq<char>)
    ensures
        0 <= word_len(s) <= s.len(),
        s.len() > 0 && !is_space(s[0]) ==> word_len(s) > 0,
    decreases s.len(),
{
    if s.len() > 0 && !is_space(s[0]) {
        lemma_word_len_bounds(s.drop_first());
    }
}

/// The views of a list of strings.
pub open spec fn string_views(v: Seq<String>) -> Seq<Seq<char>> {
    v.map_values(|w: String| w@)
}

/// The words of `s`, in order.
pub fn split_whitespace(s: &str) -> (r: Vec<String>)
    ensures
        string_views(r@) == words(s@),
{
    let v = chars_of(s);
    let n = v.len();
    let mut out: Vec<String> = Vec::new();
    let mut i: usize = 0;
    assert(s@.skip(0) =~= s@);
    while i < n
        invariant
            n == v@.len(),
            v@ == s@,
            i <= n,
            words(s@) == string_views(out@) + words(s@.skip(i as int)),
        decreases n - i,
    {
        if is_space_char(v[i]) {
            assert(s@.skip(i as int).drop_first() =~= s@.skip(i + 1));
            i = i + 1;
        } else {
            let mut j = i;
            while j < n && !is_space_char(v[j])
                invariant
                    i <= j <= n,
                    n == v@.len(),
                    forall|k: int| i <= k < j ==> !is_space(#[trigger] v@[k]),
                decreases n - j,
            {
                j = j + 1;
            }
            let ghost rest = s@.skip(i as int);
            proof {
                assert forall|k: int| 0 <= k < j - i implies !is_space(#[trigger] rest[k]) by {
                    assert(rest[k] == v@[i + k]);
                }
                if j < n {
                    assert(rest[j - i] == v@[j as int]);
                }
                lemma_word_len_is(rest, j - i);
                assert(rest.take(j - i) =~= s@.subrange(i as int, j as int));
                assert(rest.skip(j - i) =~= s@.skip(j as int));
            }
            let w = s.substring_char(i, j).to_owned();
            let ghost before = out@;
            out.push(w);
            assert(string_views(out@) =~= string_views(before) + seq![s@.subrange(i as int, j as int)]);
            i = j;
        }
    }
    assert(s@.skip(n as int) =~= Seq::<char>::empty());
    assert(string_views(out@) + words(Seq::<char>::empty()) =~= string_views(out@));
    out
}

/// The number an unsigned integer parse (`str::parse::<u16>` and its kin)
/// reads from `s`: an optional `+`, then one or more ASCII digits. `None`
/// when `s` has another shape.
pub open spec fn unsigned_value(s: Seq<char>) -> Option<nat> {
    let d = if s.len() > 0 && s[0] == '+' {
        s.drop_first()
    } else {
        s
    };
    if d.len() > 0 && all_dec_digits(d) {
        Some(dec_value(d))
    } else {
        None
    }
}

/// What an unsigned parse into a type whose largest value is `max` gives:
/// the number, when `s` spells one and it fits.
pub open spec fn parse_unsigned(s: Seq<char>, max: nat) -> Option<nat> {
    match unsigned_value(s) {
        Some(n) => if n <= max {
            Some(n)
        } else {
            None
        },
        None => None,
    }
}

/// The unsigned number spelled by `v[from..to]`, when it is at most `max`.
pub fn parse_unsigned_in(v: &[char], from: usize, to: usize, max: u64) -> (r: Option<u64>)
    requires
        from <= to <= v@.len(),
        max < u64::MAX,
    ensures
        match r {
            Some(n) => parse_unsigned(v@.subrange(from as int, to as int), max as nat) == Some(n as nat),
            None => parse_unsigned(v@.subrange(from as int, to as int), max as nat) is None,
        },
{
    let ghost s = v@.subrange(from as int, to as int);
    let mut start = from;
    if from < to && v[from] == '+' {
        start = from + 1;
        assert(s.drop_first() =~= v@.subrange(start as int, to as int));
    } else {
        assert(s =~= v@.subrange(start as int, to as int));
    }
    if start == to || !all_dec_digits_in(v, start, to) {
        return None;
    }
    let n = dec_value_in(v, start, to);
    if n <= max {
        Some(n)
    } else {
        None
    }
}

/// `str::parse::<u16>`.
pub fn parse_u16(s: &str) -> (r: Option<u16>)
    ensures
        match r {
            Some(n) => parse_unsigned(s@, 65535) == Some(n as nat),
            None => parse_unsigned(s@, 65535) is None,
        },
{
    let v = chars_of(s);
    assert(v@.subrange(0, v@.len() as int) =~= s@);
    match parse_unsigned_in(v.as_slice(), 0, v.len(), 65535) {
        Some(n) => Some(n as u16),
        None => None,
    }
}

/// `str::parse::<u32>`.
pub fn parse_u32(s: &str) -> (r: Option<u32>)
    ensures
        match r {
            Some(n) => parse_unsigned(s@, 4294967295) == Some(n as nat),
            None => parse_unsigned(s@, 4294967295) is None,
        },
{
    let v = chars_of(s);
    assert(v@.subrange(0, v@.len() as int) =~= s@);
    match parse_unsigned_in(v.as_slice(), 0, v.len(), 4294967295) {
        Some(n) => Some(n as u32),
        None => None,
    }
}

/// The index of the last `c` in `s`, or -1 when there is none.
pub open spec fn last_index_of(s: Seq<char>, c: char) -> int
    decreases s.len(),
{
    if s.len() == 0 {
        -1
    } else if s.last() == c {
        s.len() - 1
    } else {
        last_index_of(s.drop_last(), c)
    }
}

/// A position at which `c` occurs (or -1) after which it does not is
/// `last_index_of`.
pub proof fn lemma_last_index_is(s: Seq<char>, c: char, m: int)
    requires
        -1 <= m < s.len(),
        m >= 0 ==> s[m] == c,
        forall|j: int| m < j < s.len() ==> s[j] != c,
    ensures
        last_index_of(s, c) == m,
    decreases s.len(),
{
    if s.len() > 0 && s.last() != c {
        assert forall|j: int| m < j < s.drop_last().len() implies s.drop_last()[j] != c by {
            assert(s.drop_last()[j] == s[j]);
        }
        lemma_last_index_is(s.drop_last(), c, m);
    }
}

/// The index of the last `c` in `v`.
pub fn rfind_char(v: &[char], c: char) -> (r: Option<usize>)
    ensures
        match r {
            Some(i) => i < v@.len() && last_index_of(v@, c) == i,
            None => last_index_of(v@, c) == -1,
        },
{
    let mut i = v.len();
    while i > 0
        invariant
            i <= v@.len(),
            forall|j: int| i <= j < v@.len() ==> v@[j] != c,
        decreases i,
    {
        if v[i - 1] == c {
            proof {
                lemma_last_index_is(v@, c, i - 1);
            }
            return Some(i - 1);
        }
        i = i - 1;
    }
    proof {
        lemma_last_index_is(v@, c, -1);
    }
    None
}

/// Whether two texts are equal.
pub fn text_eq(a: &str, b: &str) -> (r: bool)
    ensures
        r == (a@ == b@),
{
    let n = a.unicode_len();
    if n != b.unicode_len() {
        return false;
    }
    let mut i: usize = 0;
    while i < n
        invariant
            n == a@.len() == b@.len(),
            i <= n,
            forall|k: int| 0 <= k < i ==> a@[k] == b@[k],
        decreases n - i,
    {
        if a.get_char(i) != b.get_char(i) {
            return false;
        }
        i = i + 1;
    }
    assert(a@ =~= b@);
    true
}

/// Whether `s` contains the character `c`.
pub fn contains_char(s: &str, c: char) -> (r: bool)
    ensures
        r == s@.contains(c),
{
    let n = s.unicode_len();
    let mut i: usize = 0;
    while i < n
        invariant
            n == s@.len(),
            i <= n,
            forall|k: int| 0 <= k < i ==> s@[k] != c,
        decreases n - i,
    {
        if s.get_char(i) == c {
            assert(s@[i as int] == c);
            return true;
        }
        i = i + 1;
    }
    false
}

/// `n` occurs in `h` as a contiguous piece.
pub open spec fn has_infix(h: Seq<char>, n: Seq<char>) -> bool {
    exists|i: int| 0 <= i && i + n.len() <= h.len() && #[trigger] h.subrange(i, i + n.len()) == n
}

/// Whether `needle` occurs in `hay` (`str::contains` with a string pattern).
pub fn contains_text(hay: &str, needle: &str) -> (r: bool)
    ensures
        r == has_infix(hay@, needle@),
{
    let h = chars_of(hay);
    let n = chars_of(needle);
    if n.len() > h.len() {
        return false;
    }
    let last = h.len() - n.len();
    let mut i: usize = 0;
    loop
        invariant
            h@ == hay@,
            n@ == needle@,
            last == h@.len() - n@.len(),
            h@.len() <= usize::MAX,
            i <= last,
            forall|k: int| 0 <= k < i ==> #[trigger] h@.subrange(k, k + n@.len()) != n@,
        ensures
            forall|k: int| 0 <= k <= last ==> #[trigger] h@.subrange(k, k + n@.len()) != n@,
        decreases last - i,
    {
        let mut j: usize = 0;
        while j < n.len()
            invariant
                h@ == hay@,
                n@ == needle@,
                last == h@.len() - n@.len(),
                i <= last,
                i + n@.len() <= h@.len(),
                h@.len() <= usize::MAX,
                j <= n@.len(),
                forall|k: int| 0 <= k < j ==> h@[i + k] == n@[k],
            ensures
                j <= n@.len(),
                forall|k: int| 0 <= k < j ==> h@[i + k] == n@[k],
                j < n@.len() ==> h@[i + j] != n@[j as int],
            decreases n@.len() - j,
        {
            if h[i + j] != n[j] {
                break;
            }
            j = j + 1;
        }
        if j == n.len() {
            assert(h@.subrange(i as int, i + n@.len()) =~= n@);
            return true;
        }
        assert(h@.subrange(i as int, i + n@.len())[j as int] != n@[j as int]);
        if i == last {
            break;
        }
        i = i + 1;
    }
    assert forall|k: int| 0 <= k && k + needle@.len() <= hay@.len() implies #[trigger] hay@.subrange(
        k,
        k + needle@.len(),
    ) != needle@ by {
        assert(k <= last);
        assert(h@.subrange(k, k + n@.len()) != n@);
    }
    false
}

/// `s` with every `[` and `]` removed.
pub open spec fn without_brackets(s: Seq<char>) -> Seq<char>
    decreases s.len(),
{
    if s.len() == 0 {
        s
    } else if s.last() == '[' || s.last() == ']' {
        without_brackets(s.drop_last())
    } else {
        without_brackets(s.drop_last()).push(s.last())
    }
}

/// `s` without its square brackets.
pub fn strip_brackets(s: &str) -> (r: String)
    ensures
        r@ == without_brackets(s@),
{
    let n = s.unicode_len();
    let mut out = String::new();
    let mut i: usize = 0;
    assert(s@.take(0) =~= Seq::<char>::empty());
    while i < n
        invariant
            n == s@.len(),
            i <= n,
            out@ == without_brackets(s@.take(i as int)),
        decreases n - i,
    {
        let c = s.get_char(i);
        assert(s@.take(i + 1).drop_last() =~= s@.take(i as int));
        assert(s@.take(i + 1).last() == c);
        if c != '[' && c != ']' {
            let piece = s.substring_char(i, i + 1);
            assert(piece@ =~= seq![c]);
            out.append(piece);
            assert(out@ =~= without_brackets(s@.take(i as int)).push(c));
        }
        i = i + 1;
    }
    assert(s@.take(n as int) =~= s@);
    out
}

/// `l` without one trailing carriage return.
pub open spec fn without_cr(l: Seq<char>) -> Seq<char> {
    if l.len() > 0 && l.last() == '\r' {
        l.drop_last()
    } else {
        l
    }
}

/// The lines of `s` as `str::lines` gives them: the pieces between line
/// feeds, each that a line feed ends without one trailing carriage return,
/// and without the empty piece after a final line feed (so empty text has
/// no lines).
pub open spec fn lines_of(s: Seq<char>) -> Seq<Seq<char>> {
    let f = fields(s, '\n');
    let n = if f.last().len() == 0 {
        f.len() - 1
    } else {
        f.len() as int
    };
    Seq::new(
        n as nat,
        |i: int|
            if i < f.len() - 1 {
                without_cr(f[i])
            } else {
                f[i]
            },
    )
}

/// The lines of `s`.
pub fn text_lines(s: &str) -> (r: Vec<String>)
    ensures
        string_views(r@) == lines_of(s@),
{
    let v = chars_of(s);
    assert(v@.subrange(0, v@.len() as int) =~= s@);
    let bounds = field_bounds(v.as_slice(), 0, v.len(), '\n');
    let ghost f = fields(s@, '\n');
    assert(f.len() == bounds@.len());
    let nf = bounds.len();
    let (la, lb) = bounds[nf - 1];
    assert(f.last() == v@.subrange(la as int, lb as int));
    let n = if la == lb {
        nf - 1
    } else {
        nf
    };
    let mut out: Vec<String> = Vec::new();
    let mut k: usize = 0;
    while k < n
        invariant
            v@ == s@,
            f == fields(s@, '\n'),
            f == ranges_of(v@, bounds@),
            nf == bounds@.len(),
            n <= nf,
            n == (if f.last().len() == 0 {
                f.len() - 1
            } else {
                f.len() as int
            }),
            forall|j: int| 0 <= j < bounds@.len() ==> 0 <= (#[trigger] bounds@[j]).0 <= bounds@[j].1 <= v@.len(),
            k <= n,
            string_views(out@) == lines_of(s@).take(k as int),
        decreases n - k,
    {
        let (a, b) = bounds[k];
        assert(f[k as int] == v@.subrange(a as int, b as int));
        let mut e = b;
        if k + 1 < nf && b > a && v[b - 1] == '\r' {
            e = b - 1;
            assert(v@.subrange(a as int, e as int) =~= without_cr(f[k as int]));
        } else {
            assert(v@.subrange(a as int, e as int) == (if k < f.len() - 1 {
                without_cr(f[k as int])
            } else {
                f[k as int]
            }));
        }
        let line = s.substring_char(a, e).to_owned();
        let ghost before = out@;
        out.push(line);
        assert(string_views(out@) =~= string_views(before).push(line@));
        assert(lines_of(s@).take(k + 1) =~= lines_of(s@).take(k as int).push(lines_of(s@)[k as int]));
        k = k + 1;
    }
    assert(lines_of(s@).take(n as int) =~= lines_of(s@));
    out
}

/// The character of a decimal digit.
pub open spec fn digit_char(d: nat) -> char {
    ('0' as int + d) as char
}

/// The decimal digits of `n`, without leading zeros (`0` for zero).
pub open spec fn dec_digits(n: nat) -> Seq<char>
    decreases n,
{
    if n < 10 {
        seq![digit_char(n)]
    } else {
        dec_digits(n / 10).push(digit_char(n % 10))
    }
}

/// The decimal digits of `n` are a non-empty run of digits whose value is
/// `n`.
pub proof fn lemma_dec_digits_value(n: nat)
    ensures
        dec_digits(n).len() > 0,
        all_dec_digits(dec_digits(n)),
        dec_value(dec_digits(n)) == n,
    decreases n,
{
    let d = dec_digits(n);
    if n < 10 {
        assert(d.drop_last() =~= Seq::<char>::empty());
        assert(digit_value(digit_char(n)) == n);
        assert(dec_value(d) == dec_value(d.drop_last()) * 10 + digit_value(d.last()));
    } else {
        lemma_dec_digits_value(n / 10);
        assert(d.drop_last() =~= dec_digits(n / 10));
        assert(digit_value(digit_char(n % 10)) == n % 10);
        assert(n == (n / 10) * 10 + n % 10);
        assert(d.last() == digit_char(n % 10));
        assert(dec_value(d) == dec_value(d.drop_last()) * 10 + digit_value(d.last()));
        assert forall|i: int| 0 <= i < d.len() implies is_dec_digit(#[trigger] d[i]) by {
            if i < d.len() - 1 {
                assert(d[i] == dec_digits(n / 10)[i]);
            }
        }
    }
}

/// The one-character text of a decimal digit.
pub fn digit_str(d: u64) -> (r: &'static str)
    requires
        d < 10,
    ensures
        r@ == seq![digit_char(d as nat)],
{
    match d {
        0 => {
            proof {
                reveal_strlit("0");
            }
            "0"
        },
        1 => {
            proof {
                reveal_strlit("1");
            }
            "1"
        },
        2 => {
            proof {
                reveal_strlit("2");
            }
            "2"
        },
        3 => {
            proof {
                reveal_strlit("3");
            }
            "3"
        },
        4 => {
            proof {
                reveal_strlit("4");
            }
            "4"
        },
        5 => {
            proof {
                reveal_strlit("5");
            }
            "5"
        },
        6 => {
            proof {
                reveal_strlit("6");
            }
            "6"
        },
        7 => {
            proof {
                reveal_strlit("7");
            }
            "7"
        },
        8 => {
            proof {
                reveal_strlit("8");
            }
            "8"
        },
        _ => {
            proof {
                reveal_strlit("9");
            }
            "9"
        },
    }
}

/// `n` written in decimal (what `to_string` gives for an unsigned integer).
pub fn decimal_text(n: u64) -> (r: String)
    ensures
        r@ == dec_digits(n as nat),
    decreases n,
{
    if n < 10 {
        digit_str(n).to_owned()
    } else {
        let mut s = decimal_text(n / 10);
        s.append(digit_str(n % 10));
        s
    }
}

/// The dotted-quad text of the IPv4 address whose big-endian value is `a`.
pub open spec fn ipv4_text(a: u32) -> Seq<char> {
    dec_digits((a / 16777216) as nat) + seq!['.'] + dec_digits(((a / 65536) % 256) as nat) + seq!['.']
        + dec_digits(((a / 256) % 256) as nat) + seq!['.'] + dec_digits((a % 256) as nat)
}

/// The dotted-quad text of the IPv4 address whose big-endian value is `a`.
pub fn format_ipv4(a: u32) -> (r: String)
    ensures
        r@ == ipv4_text(a),
{
    proof {
        reveal_strlit(".");
    }
    let mut s = decimal_text((a / 16777216) as u64);
    s.append(".");
    s.append(decimal_text(((a / 65536) % 256) as u64).as_str());
    s.append(".");
    s.append(decimal_text(((a / 256) % 256) as u64).as_str());
    s.append(".");
    s.append(decimal_text((a % 256) as u64).as_str());
    s
}

} // verus!
