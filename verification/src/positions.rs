//! Position and unit helpers behind the frame and series indexers.

use vstd::prelude::*;
use vstd::string::*;

use crate::civil::{days_in_month, is_leap_year};
use crate::error::VolasError;
use crate::text::same_text;

verus! {

/// The `[start, end)` row window of pandas `head` / `tail` over `len` rows.
pub open spec fn spec_head_tail_window(n: int, len: int, is_head: bool) -> (int, int) {
    if is_head {
        let end = if n >= 0 { if n < len { n } else { len } } else { if len + n > 0 { len + n } else { 0 } };
        (0, end)
    } else {
        let start = if n >= 0 { if len - n > 0 { len - n } else { 0 } } else { if -n < len { -n } else { len } };
        (start, len)
    }
}

/// The `[start, end)` row window of pandas `head` / `tail` over `len` rows.
/// `n` follows Python slicing: `head(n)` is `iloc[:n]` (a negative `n` drops
/// the last `-n` rows) and `tail(n)` is `iloc[-n:]` (a negative `n` drops the
/// first `-n` rows); past-the-length values clamp.
pub fn head_tail_window(n: i64, len: usize, is_head: bool) -> (r: (usize, usize))
    requires
        len <= i64::MAX,
    ensures
        (r.0 as int, r.1 as int) == spec_head_tail_window(n as int, len as int, is_head),
{
    let l = len as i64;
    if is_head {
        let end: i64 = if n >= 0 {
            if n < l { n } else { l }
        } else {
            if l + n > 0 { l + n } else { 0 }
        };
        (0, end as usize)
    } else {
        let start: i64 = if n >= 0 {
            if l - n > 0 { l - n } else { 0 }
        } else {
            if n > -l { -n } else { l }
        };
        (start as usize, len)
    }
}

/// Resolve a possibly-negative index to `[0, len)`.
pub fn norm_idx(i: i64, len: usize) -> (r: Result<usize, VolasError>)
    requires
        len <= i64::MAX,
    ensures
        match r {
            Ok(p) => -(len as int) <= i < len as int && p == (if i < 0 { i + len } else { i as int }),
            Err(e) => !(-(len as int) <= i < len as int) && e is Index,
        },
{
    let n = len as i64;
    let j = if i < 0 { i + n } else { i };
    if j < 0 || j >= n {
        Err(VolasError::Index("index out of range".to_owned()))
    } else {
        Ok(j as usize)
    }
}

/// The epoch unit a datetime dtype string names.
pub open spec fn spec_datetime_unit_of(s: Seq<char>) -> Option<Seq<char>> {
    if s == "datetime"@ || s == "datetime64"@ || s == "datetime64[ns]"@ {
        Some("ns"@)
    } else if s == "datetime64[s]"@ {
        Some("s"@)
    } else if s == "datetime64[ms]"@ {
        Some("ms"@)
    } else if s == "datetime64[us]"@ {
        Some("us"@)
    } else {
        None
    }
}

/// The epoch unit a `datetime64[...]` dtype string implies, or `None` when
/// `s` is not a datetime dtype. Bare `datetime` / `datetime64` /
/// `datetime64[ns]` mean nanoseconds.
pub fn datetime_unit_of(s: &str) -> (r: Option<&'static str>)
    ensures
        match spec_datetime_unit_of(s@) {
            Some(u) => r matches Some(x) && x@ == u,
            None => r is None,
        },
{
    if same_text(s, "datetime") || same_text(s, "datetime64") || same_text(s, "datetime64[ns]") {
        Some("ns")
    } else if same_text(s, "datetime64[s]") {
        Some("s")
    } else if same_text(s, "datetime64[ms]") {
        Some("ms")
    } else if same_text(s, "datetime64[us]") {
        Some("us")
    } else {
        None
    }
}

/// Days in `(year, month)` of the proleptic Gregorian calendar (any month
/// number outside the 30- and 31-day ones counts as February).
pub fn days_in_month_of(y: i64, mo: i64) -> (r: i64)
    ensures
        1 <= mo <= 12 ==> r == days_in_month(y as int, mo as int),
        !(1 <= mo <= 12) ==> r == if is_leap_year(y as int) { 29int } else { 28int },
{
    if mo == 1 || mo == 3 || mo == 5 || mo == 7 || mo == 8 || mo == 10 || mo == 12 {
        31
    } else if mo == 4 || mo == 6 || mo == 9 || mo == 11 {
        30
    } else {
        if (y % 4 == 0 && y % 100 != 0) || y % 400 == 0 {
            29
        } else {
            28
        }
    }
}

/// Length of the leading run of ASCII digits.
pub open spec fn digit_prefix_len(s: Seq<char>) -> nat
    decreases s.len(),
{
    if s.len() > 0 && crate::reader::is_digit(s[0]) { 1 + digit_prefix_len(s.drop_first()) } else { 0 }
}

/// Nanoseconds per frequency unit.
pub open spec fn unit_ns(u: Seq<char>) -> Option<int> {
    if u == "D"@ || u == "d"@ {
        Some(86_400_000_000_000)
    } else if u == "h"@ || u == "H"@ {
        Some(3_600_000_000_000)
    } else if u == "min"@ || u == "T"@ || u == "m"@ {
        Some(60_000_000_000)
    } else if u == "s"@ || u == "S"@ {
        Some(1_000_000_000)
    } else if u == "ms"@ {
        Some(1_000_000)
    } else if u == "us"@ {
        Some(1_000)
    } else if u == "ns"@ {
        Some(1)
    } else {
        None
    }
}

/// The span in nanoseconds of a pandas-style frequency (an optional positive
/// multiple followed by a unit), or `None` when it is not one or overflows.
pub open spec fn spec_parse_freq_ns(freq: Seq<char>) -> Option<int> {
    let f = crate::reader::spec_trim(freq);
    let k = digit_prefix_len(f) as int;
    let mult_s = f.subrange(0, k);
    let unit_s = f.subrange(k, f.len() as int);
    let mult: Option<int> = if k == 0 {
        Some(1)
    } else {
        match crate::reader::spec_parse_i64(mult_s) {
            Some(m) => Some(m as int),
            None => None,
        }
    };
    match (mult, unit_ns(unit_s)) {
        (Some(m), Some(u)) => if m > 0 && m * u <= i64::MAX { Some(m * u) } else { None },
        _ => None,
    }
}

proof fn lemma_digit_prefix(s: Seq<char>)
    ensures
        digit_prefix_len(s) <= s.len(),
        forall|i: int| 0 <= i < digit_prefix_len(s) ==> crate::reader::is_digit(#[trigger] s[i]),
        digit_prefix_len(s) < s.len() ==> !crate::reader::is_digit(s[digit_prefix_len(s) as int]),
    decreases s.len(),
{
    if s.len() > 0 && crate::reader::is_digit(s[0]) {
        lemma_digit_prefix(s.drop_first());
        assert forall|i: int| 0 <= i < digit_prefix_len(s) implies crate::reader::is_digit(#[trigger] s[i]) by {
            if i > 0 {
                assert(s[i] == s.drop_first()[i - 1]);
            }
        }
    }
}

/// Parse a pandas-style frequency spec (`'15min'`, `'D'`, `'h'`, `'s'`, ...)
/// to a span in nanoseconds.
pub fn parse_freq_ns(freq: &str) -> (r: Result<i64, VolasError>)
    ensures
        match r {
            Ok(v) => spec_parse_freq_ns(freq@) == Some(v as int) && v > 0,
            Err(e) => spec_parse_freq_ns(freq@) is None && e is Value,
        },
{
    let f = crate::reader::trim_text(freq);
    let n = f.unicode_len();
    let mut k: usize = 0;
    proof {
        lemma_digit_prefix(f@);
    }
    loop
        invariant
            n == f@.len(),
            k <= digit_prefix_len(f@),
            digit_prefix_len(f@) <= f@.len(),
            forall|i: int| 0 <= i < digit_prefix_len(f@) ==> crate::reader::is_digit(#[trigger] f@[i]),
            digit_prefix_len(f@) < f@.len() ==> !crate::reader::is_digit(f@[digit_prefix_len(f@) as int]),
        ensures
            k == digit_prefix_len(f@),
        decreases n - k,
    {
        if k >= n {
            break;
        }
        let c = f.get_char(k);
        if !('0' <= c && c <= '9') {
            break;
        }
        k = k + 1;
    }
    assert(k == digit_prefix_len(f@));
    let mult_s = f.substring_char(0, k);
    let unit_s = f.substring_char(k, n);
    let mult: i64 = if k == 0 {
        1
    } else {
        match crate::reader::parse_i64(mult_s) {
            Some(m) => m,
            None => {
                return Err(VolasError::Value("invalid frequency".to_owned()));
            },
        }
    };
    let unit: i64 = if same_text(unit_s, "D") || same_text(unit_s, "d") {
        86_400_000_000_000
    } else if same_text(unit_s, "h") || same_text(unit_s, "H") {
        3_600_000_000_000
    } else if same_text(unit_s, "min") || same_text(unit_s, "T") || same_text(unit_s, "m") {
        60_000_000_000
    } else if same_text(unit_s, "s") || same_text(unit_s, "S") {
        1_000_000_000
    } else if same_text(unit_s, "ms") {
        1_000_000
    } else if same_text(unit_s, "us") {
        1_000
    } else if same_text(unit_s, "ns") {
        1
    } else {
        return Err(VolasError::Value(
            "invalid frequency (use D/h/min/s/ms/us/ns with an optional multiple)".to_owned(),
        ));
    };
    if mult <= 0 {
        return Err(VolasError::Value("invalid frequency".to_owned()));
    }
    assert(mult * unit > 0) by (nonlinear_arith)
        requires
            mult > 0,
            unit > 0,
    ;
    match mult.checked_mul(unit) {
        Some(v) => Ok(v),
        None => Err(VolasError::Value("invalid frequency".to_owned())),
    }
}

/// The positions `start, start + step, ...` strictly before `stop` (moving
/// up for a positive step, down for a negative one); none for a zero step.
pub open spec fn spec_strided(start: int, stop: int, step: int) -> Seq<int> {
    let count: int = if step > 0 && stop > start {
        (stop - start + step - 1) / step
    } else if step < 0 && start > stop {
        (start - stop - step - 1) / (-step)
    } else {
        0
    };
    Seq::new(count as nat, |k: int| start + k * step)
}

/// The positions a Python slice `start:stop:step` (already resolved against
/// the length) selects, in order.
pub fn strided(start: i64, stop: i64, step: i64) -> (r: Vec<usize>)
    requires
        -1 <= start <= usize::MAX,
        -1 <= stop <= usize::MAX,
        step > 0 ==> start >= 0,
    ensures
        r@.len() == spec_strided(start as int, stop as int, step as int).len(),
        forall|k: int| 0 <= k < r@.len() ==> #[trigger] r@[k] as int == spec_strided(start as int, stop as int, step as int)[k],
{
    let mut out: Vec<usize> = Vec::new();
    let ghost st: int = step as int;
    let ghost want = spec_strided(start as int, stop as int, st);
    let ghost count: int = want.len() as int;
    if step > 0 && start < stop {
        assert(count >= 1) by (nonlinear_arith)
            requires
                count == (stop - start + st - 1) / st,
                st > 0,
                stop - start >= 1;
        let mut i: i64 = start;
        loop
            invariant_except_break
                st == step,
                count == (stop - start + st - 1) / st,
                step > 0,
                0 <= start <= i < stop,
                stop <= usize::MAX,
                i == start + out@.len() * st,
                out@.len() < count,
            invariant
                forall|k: int| 0 <= k < out@.len() ==> #[trigger] out@[k] as int == start + k * st,
            ensures
                out@.len() == count,
            decreases stop - i,
        {
            let ghost len0: int = out@.len() as int;
            out.push(i as usize);
            assert((len0 + 1) * st == len0 * st + st) by (nonlinear_arith);
            if stop - i <= step {
                assert(len0 + 1 == count) by (nonlinear_arith)
                    requires
                        (len0 + 1) * st >= stop - start,
                        len0 * st < stop - start,
                        count == (stop - start + st - 1) / st,
                        st > 0,
                        len0 >= 0;
                break;
            }
            assert(len0 + 1 < count) by (nonlinear_arith)
                requires
                    (len0 + 1) * st < stop - start,
                    count == (stop - start + st - 1) / st,
                    st > 0,
                    len0 >= 0;
            i = i + step;
        }
    } else if step < 0 && start > stop {
        let ghost d: int = -st;
        assert(count >= 1) by (nonlinear_arith)
            requires
                count == (start - stop + d - 1) / d,
                d > 0,
                start - stop >= 1;
        let mut i: i64 = start;
        assert(out@.len() == 0);
        assert(0 * st == 0);
        loop
            invariant_except_break
                st == step,
                d == -st,
                count == (start - stop + d - 1) / d,
                step < 0,
                -1 <= stop < i <= start,
                start <= usize::MAX,
                i == start + out@.len() * st,
                out@.len() < count,
            invariant
                forall|k: int| 0 <= k < out@.len() ==> #[trigger] out@[k] as int == start + k * st,
            ensures
                out@.len() == count,
            decreases i - stop,
        {
            let ghost len0: int = out@.len() as int;
            out.push(i as usize);
            assert((len0 + 1) * st == len0 * st + st) by (nonlinear_arith);
            assert(len0 * d == -(len0 * st)) by (nonlinear_arith)
                requires
                    d == -st;
            assert((len0 + 1) * d == -((len0 + 1) * st)) by (nonlinear_arith)
                requires
                    d == -st;
            let next: i64 = i + step;
            if next <= stop {
                assert(len0 + 1 == count) by (nonlinear_arith)
                    requires
                        (len0 + 1) * d >= start - stop,
                        len0 * d < start - stop,
                        count == (start - stop + d - 1) / d,
                        d > 0,
                        len0 >= 0;
                break;
            }
            assert(len0 + 1 < count) by (nonlinear_arith)
                requires
                    (len0 + 1) * d < start - stop,
                    count == (start - stop + d - 1) / d,
                    d > 0,
                    len0 >= 0;
            i = next;
        }
    }
    out
}

/// Whether an output buffer's shape is `[h, w]`.
pub fn check_fill_shape(shape: &Vec<usize>, h: usize, w: usize) -> (r: Result<(), VolasError>)
    ensures
        r is Ok <==> shape@ == seq![h, w],
        r matches Err(e) ==> e is Value,
{
    if shape.len() == 2 && shape[0] == h && shape[1] == w {
        assert(shape@ =~= seq![h, w]);
        Ok(())
    } else {
        proof {
            if shape@ == seq![h, w] {
                assert(shape@[0] == h && shape@[1] == w);
            }
        }
        Err(VolasError::Value("fill_into: `out` shape does not match the frame's".to_owned()))
    }
}

} // verus!
