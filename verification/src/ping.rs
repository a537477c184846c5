//! Continuous ping: the round-trip time printed by the system `ping`
//! command, the numbering of the probes of a session, and the results a
//! session keeps.
use vstd::prelude::*;

use crate::decimal::{is_float_in, is_float_literal};
use crate::text::{digit_char, digit_str};
use vstd::string::StringSliceAdditionalSpecFns;

verus! {

/// The round-trip time that `ping` printed.
#[derive(Debug)]
pub enum PingTime {
    /// Below one millisecond (`<1ms`), counted as half a millisecond.
    SubMillisecond,
    /// The number printed before `ms`, as printed (a number that
    /// `str::parse::<f64>` reads).
    Millis(String),
}

/// The byte of an ASCII digit.
pub open spec fn is_digit_byte(b: u8) -> bool {
    48 <= b <= 57
}

/// `<`, a digit, `m`, `s` at `i` (as in `time<1ms`).
pub open spec fn sub_ms_at(b: Seq<u8>, i: int) -> bool {
    b[i] == 60 && is_digit_byte(b[i + 1]) && b[i + 2] == 109 && b[i + 3] == 115
}

/// The output shows a time below one millisecond somewhere.
pub open spec fn has_sub_ms(b: Seq<u8>) -> bool {
    exists|i: int| 0 <= i && i + 3 < b.len() && #[trigger] sub_ms_at(b, i)
}

/// The length of the run of digits and dots at `k`.
pub open spec fn num_run(b: Seq<u8>, k: int) -> int
    decreases b.len() - k,
{
    if k < 0 || k >= b.len() || !(is_digit_byte(b[k]) || b[k] == 46) {
        0
    } else {
        1 + num_run(b, k + 1)
    }
}

/// The characters of ASCII bytes.
pub open spec fn ascii_text(b: Seq<u8>) -> Seq<char> {
    b.map_values(|x: u8| x as char)
}

/// The number of a `=<number>ms` pattern whose `=` stands at `i`, when the
/// digits and dots after it are followed directly by `ms` and read as a
/// number.
pub open spec fn eq_time_at(b: Seq<u8>, i: int) -> Option<Seq<u8>> {
    let s = i + 1;
    let j = s + num_run(b, s);
    if 0 <= i < b.len() && b[i] == 61 && j > s && j + 1 < b.len() && b[j] == 109 && b[j + 1] == 115
        && is_float_literal(ascii_text(b.subrange(s, j))) {
        Some(b.subrange(s, j))
    } else {
        None
    }
}

/// The first `=<number>ms` pattern from `i` on.
pub open spec fn first_eq_time(b: Seq<u8>, i: int) -> Option<Seq<u8>>
    decreases b.len() - i,
{
    if i < 0 || i >= b.len() {
        None
    } else {
        match eq_time_at(b, i) {
            Some(t) => Some(t),
            None => first_eq_time(b, i + 1),
        }
    }
}

/// The round-trip time in the bytes of `ping` output (in any text
/// encoding, since only ASCII is read): below a millisecond when `<Nms`
/// appears anywhere; else the first `=<number>ms`; else none.
pub open spec fn ping_time_of(b: Seq<u8>) -> Option<Option<Seq<char>>> {
    if has_sub_ms(b) {
        Some(None)
    } else {
        match first_eq_time(b, 0) {
            Some(t) => Some(Some(ascii_text(t))),
            None => None,
        }
    }
}

/// A printed time as `ping_time_of` gives it: `None` for below a
/// millisecond, the number's text otherwise.
pub open spec fn ping_time_view(t: PingTime) -> Option<Seq<char>> {
    match t {
        PingTime::SubMillisecond => None,
        PingTime::Millis(s) => Some(s@),
    }
}

proof fn lemma_num_run_is(b: Seq<u8>, k: int, m: int)
    requires
        0 <= k <= m <= b.len(),
        m < b.len() ==> !(is_digit_byte(b[m]) || b[m] == 46),
        forall|j: int| k <= j < m ==> (is_digit_byte(#[trigger] b[j]) || b[j] == 46),
    ensures
        num_run(b, k) == m - k,
    decreases m - k,
{
    if k < m {
        lemma_num_run_is(b, k + 1, m);
    }
}

/// The text of ASCII digits and dots.
fn run_text(b: &[u8], s: usize, j: usize) -> (r: String)
    requires
        s <= j <= b@.len(),
        forall|k: int| s <= k < j ==> (is_digit_byte(#[trigger] b@[k]) || b@[k] == 46),
    ensures
        r@ == ascii_text(b@.subrange(s as int, j as int)),
{
    let mut out = String::new();
    let mut k = s;
    assert(ascii_text(b@.subrange(s as int, s as int)) =~= Seq::<char>::empty());
    while k < j
        invariant
            s <= k <= j <= b@.len(),
            forall|x: int| s <= x < j ==> (is_digit_byte(#[trigger] b@[x]) || b@[x] == 46),
            out@ == ascii_text(b@.subrange(s as int, k as int)),
        decreases j - k,
    {
        let x = b[k];
        let ghost before = out@;
        if x == 46 {
            proof {
                reveal_strlit(".");
            }
            out.append(".");
            assert(out@ =~= before.push('.'));
            assert((x as char) == '.');
        } else {
            assert(is_digit_byte(b@[k as int]));
            let d = (x - 48) as u64;
            out.append(digit_str(d));
            assert(out@ =~= before.push(digit_char(d as nat)));
            assert(digit_char(d as nat) == (x as char));
        }
        assert(ascii_text(b@.subrange(s as int, k + 1)) =~= ascii_text(b@.subrange(s as int, k as int)).push(
            x as char,
        ));
        k = k + 1;
    }
    out
}

/// The round-trip time in the output of the system `ping` command, if it
/// shows one.
pub fn parse_ping_time(output: &str) -> (r: Option<PingTime>)
    ensures
        match r {
            Some(t) => ping_time_of(output.spec_bytes()) == Some(ping_time_view(t)),
            None => ping_time_of(output.spec_bytes()) is None,
        },
{
    let bytes = output.as_bytes();
    let len = bytes.len();
    let ghost b = bytes@;
    let mut i: usize = 0;
    while len > 3 && i < len - 3
        invariant
            b == bytes@,
            b == output.spec_bytes(),
            len == b.len(),
            len > 3 ==> i <= len - 3,
            len <= 3 ==> i == 0,
            forall|k: int| 0 <= k < i ==> !#[trigger] sub_ms_at(b, k),
        decreases len - i,
    {
        if bytes[i] == 60 && bytes[i + 1] >= 48 && bytes[i + 1] <= 57 && bytes[i + 2] == 109 && bytes[i + 3] == 115 {
            assert(sub_ms_at(b, i as int));
            return Some(PingTime::SubMillisecond);
        }
        i = i + 1;
    }
    assert(!has_sub_ms(b)) by {
        assert forall|k: int| 0 <= k && k + 3 < b.len() implies !#[trigger] sub_ms_at(b, k) by {
            assert(k < i);
        }
    }
    let mut i: usize = 0;
    while i < len
        invariant
            b == bytes@,
            len == b.len(),
            i <= len,
            first_eq_time(b, 0) == first_eq_time(b, i as int),
            b == output.spec_bytes(),
            !has_sub_ms(b),
        decreases len - i,
    {
        if bytes[i] == 61 {
            let start = i + 1;
            let mut j = start;
            while j < len && ((bytes[j] >= 48 && bytes[j] <= 57) || bytes[j] == 46)
                invariant
                    start <= j <= len,
                    len == b.len(),
                    b == bytes@,
                    forall|k: int| start <= k < j ==> (is_digit_byte(#[trigger] b[k]) || b[k] == 46),
                decreases len - j,
            {
                j = j + 1;
            }
            proof {
                lemma_num_run_is(b, start as int, j as int);
            }
            if j > start && len - j > 1 && bytes[j] == 109 && bytes[j + 1] == 115 {
                let mut chars: Vec<char> = Vec::new();
                let mut k = start;
                while k < j
                    invariant
                        start <= k <= j <= len,
                        b == bytes@,
                        len == b.len(),
                        chars@ == ascii_text(b.subrange(start as int, k as int)),
                    decreases j - k,
                {
                    chars.push(bytes[k] as char);
                    assert(ascii_text(b.subrange(start as int, k + 1)) =~= ascii_text(
                        b.subrange(start as int, k as int),
                    ).push(b[k as int] as char));
                    k = k + 1;
                }
                assert(chars@.subrange(0, chars@.len() as int) =~= chars@);
                if is_float_in(chars.as_slice(), 0, chars.len()) {
                    let text = run_text(bytes, start, j);
                    return Some(PingTime::Millis(text));
                }
            }
        }
        i = i + 1;
    }
    None
}

/// The numbering of a session's probes: the number of the last probe sent
/// (0 before the first) and how many may be sent.
pub struct PingSchedule {
    seq: u32,
    max_count: u32,
}

impl PingSchedule {
    /// The number of the last probe sent.
    pub closed spec fn spec_seq(&self) -> u32 {
        self.seq
    }

    /// How many probes may be sent.
    pub closed spec fn spec_max(&self) -> u32 {
        self.max_count
    }

    /// A session of `count` probes, or of `u32::MAX` when no count is set.
    pub fn new(count: Option<u32>) -> (r: PingSchedule)
        ensures
            r.spec_seq() == 0,
            r.spec_max() == match count {
                Some(c) => c,
                None => u32::MAX,
            },
    {
        PingSchedule {
            seq: 0,
            max_count: match count {
                Some(c) => c,
                None => u32::MAX,
            },
        }
    }

    /// The next probe: its number (one more than the last) and the ICMP
    /// sequence number it carries (the number modulo 65535); `None` once the
    /// session has sent all its probes.
    pub fn next_probe(&mut self) -> (r: Option<(u32, u16)>)
        ensures
            final(self).spec_max() == old(self).spec_max(),
            old(self).spec_seq() >= old(self).spec_max() ==> r is None && final(self).spec_seq() == old(
                self,
            ).spec_seq(),
            old(self).spec_seq() < old(self).spec_max() ==> r == Some(
                ((old(self).spec_seq() + 1) as u32, ((old(self).spec_seq() + 1) % 65535) as u16),
            ) && final(self).spec_seq() == old(self).spec_seq() + 1,
    {
        if self.seq >= self.max_count {
            return None;
        }
        self.seq = self.seq + 1;
        Some((self.seq, (self.seq % 65535) as u16))
    }
}

/// How many results a ping session keeps in memory.
pub const MAX_SESSION_RESULTS: usize = 1000;

/// `r` with `item` appended, the oldest dropped when more than
/// `MAX_SESSION_RESULTS` would be kept.
pub open spec fn bounded_push<T>(r: Seq<T>, item: T) -> Seq<T> {
    if r.len() + 1 > MAX_SESSION_RESULTS {
        r.push(item).drop_first()
    } else {
        r.push(item)
    }
}

/// The newest `MAX_SESSION_RESULTS` of `xs` (all of them when there are no
/// more), oldest first.
pub open spec fn newest_results<T>(xs: Seq<T>) -> Seq<T> {
    if xs.len() <= MAX_SESSION_RESULTS {
        xs
    } else {
        xs.skip(xs.len() - MAX_SESSION_RESULTS)
    }
}

/// The results kept after the results `xs` arrived one by one, starting
/// from none.
pub open spec fn kept_results<T>(xs: Seq<T>) -> Seq<T>
    decreases xs.len(),
{
    if xs.len() == 0 {
        xs
    } else {
        bounded_push(kept_results(xs.drop_last()), xs.last())
    }
}

/// Pushing onto the newest results keeps the newest results.
pub proof fn lemma_bounded_push_newest<T>(xs: Seq<T>, x: T)
    ensures
        bounded_push(newest_results(xs), x) == newest_results(xs.push(x)),
{
    if xs.len() >= MAX_SESSION_RESULTS {
        assert(xs.skip(xs.len() - MAX_SESSION_RESULTS).push(x).drop_first() =~= xs.push(x).skip(
            xs.len() + 1 - MAX_SESSION_RESULTS,
        ));
    }
}

/// A session that received the results `xs`, one by one through
/// `push_bounded`, keeps exactly the last `min(n, 1000)` of them, in the
/// order they arrived.
pub proof fn lemma_kept_results_are_newest<T>(xs: Seq<T>)
    ensures
        kept_results(xs) == newest_results(xs),
        kept_results(xs).len() <= MAX_SESSION_RESULTS,
    decreases xs.len(),
{
    if xs.len() > 0 {
        let p = xs.drop_last();
        lemma_kept_results_are_newest(p);
        assert(p.push(xs.last()) =~= xs);
        lemma_bounded_push_newest(p, xs.last());
    }
}

/// The results `xs` numbered from 1, in order.
pub open spec fn numbered<T>(xs: Seq<T>) -> Seq<(u32, T)> {
    Seq::new(xs.len(), |i: int| ((i + 1) as u32, xs[i]))
}

/// A ping session of at most `max` probes after the loop offered it the
/// results `items` one by one: each step takes the next probe number from
/// the schedule (`PingSchedule::next_probe`) and, when there is one, keeps
/// the result under that number (`push_bounded`). The number of the last
/// probe and the results kept.
pub open spec fn ping_run<T>(max: u32, items: Seq<T>) -> (u32, Seq<(u32, T)>)
    decreases items.len(),
{
    if items.len() == 0 {
        (0, seq![])
    } else {
        let (n, kept) = ping_run(max, items.drop_last());
        if n >= max {
            (n, kept)
        } else {
            ((n + 1) as u32, bounded_push(kept, ((n + 1) as u32, items.last())))
        }
    }
}

/// The ping loop: after it was offered `items`, it has sent
/// `n = min(items.len(), max)` probes numbered 1 to `n`, and it keeps the
/// newest `min(n, 1000)` of their results, in order, each with its number.
pub proof fn lemma_ping_run<T>(max: u32, items: Seq<T>)
    ensures
        ({
            let n = if items.len() <= max { items.len() } else { max as nat };
            &&& ping_run(max, items).0 == n
            &&& ping_run(max, items).1 == newest_results(numbered(items.take(n as int)))
            &&& ping_run(max, items).1.len() <= MAX_SESSION_RESULTS
        }),
    decreases items.len(),
{
    if items.len() > 0 {
        let p = items.drop_last();
        lemma_ping_run(max, p);
        let m = if p.len() <= max { p.len() } else { max as nat };
        if m < max {
            assert(p.take(m as int) =~= p);
            assert(items.take((m + 1) as int) =~= p.push(items.last()));
            assert(numbered(items.take((m + 1) as int)) =~= numbered(p).push(((m + 1) as u32, items.last())));
            lemma_bounded_push_newest(numbered(p), ((m + 1) as u32, items.last()));
        } else {
            assert(items.take(m as int) =~= p.take(m as int));
        }
    } else {
        assert(numbered(items.take(0)) =~= seq![]);
    }
}

/// Appends a result to a session's results, dropping the oldest when more
/// than `MAX_SESSION_RESULTS` would be kept.
pub fn push_bounded<T>(results: &mut Vec<T>, item: T)
    ensures
        final(results)@ == bounded_push(old(results)@, item),
{
    results.push(item);
    if results.len() > MAX_SESSION_RESULTS {
        let ghost pushed = results@;
        results.remove(0);
        assert(results@ =~= pushed.drop_first());
    }
}

/// The number of probes sent, answered and lost in a session: all the
/// results, those that did not time out, and those that did.
pub open spec fn count_timeouts(t: Seq<bool>) -> int
    decreases t.len(),
{
    if t.len() == 0 {
        0
    } else {
        count_timeouts(t.drop_last()) + if t.last() {
            1int
        } else {
            0int
        }
    }
}

/// The numbers sent, received and lost, from whether each result timed out.
pub fn loss_counts(timeouts: &Vec<bool>) -> (r: (u32, u32, u32))
    requires
        timeouts@.len() <= u32::MAX,
    ensures
        r.0 == timeouts@.len(),
        r.2 == count_timeouts(timeouts@),
        r.1 == r.0 - r.2,
{
    let mut lost: u32 = 0;
    let mut i: usize = 0;
    while i < timeouts.len()
        invariant
            i <= timeouts@.len() <= u32::MAX,
            lost == count_timeouts(timeouts@.take(i as int)),
            lost <= i,
        decreases timeouts@.len() - i,
    {
        assert(timeouts@.take(i + 1).drop_last() =~= timeouts@.take(i as int));
        if timeouts[i] {
            lost = lost + 1;
        }
        i = i + 1;
    }
    assert(timeouts@.take(i as int) =~= timeouts@);
    let sent = timeouts.len() as u32;
    (sent, sent - lost, lost)
}

} // verus!
