//! What a period key means: two instants share a key exactly when they fall in
//! the same bucket of the frame, and coarsenable frames nest.

use vstd::prelude::*;

use crate::civil::{civil_from_days, date_before, is_valid_date, lemma_civil_ordered, lemma_civil_roundtrip};
use crate::time_frame::{tz_offset, 
    spec_can_coarsen, spec_duration, spec_from_label, spec_label, spec_unify, tz_ok, wall_days, wall_secs, wall_sod, TimeFrame,
    Tz,
};

verus! {

/// Whether the wall-clock instants of `a` and `b` fall in the same bucket of
/// `tf`: the same multiple of the frame's duration since the epoch for the
/// fixed frames (weeks counted from Monday 1970-01-05), the same civil month,
/// or the same civil year.
pub open spec fn same_period(tf: TimeFrame, a: int, b: int, tz: Tz) -> bool {
    let wa = wall_secs(a, tz);
    let wb = wall_secs(b, tz);
    let ca = civil_from_days(wall_days(a, tz));
    let cb = civil_from_days(wall_days(b, tz));
    match tf {
        TimeFrame::Week1 => (wa + 259200) / 604800 == (wb + 259200) / 604800,
        TimeFrame::Month1 => ca.0 == cb.0 && ca.1 == cb.1,
        TimeFrame::Year1 => ca.0 == cb.0,
        _ => wa / spec_duration(tf).unwrap() == wb / spec_duration(tf).unwrap(),
    }
}

/// The part of a sub-day key that encodes the time of day.
pub open spec fn tod_code(tf: TimeFrame, sod: int) -> int {
    let h = sod / 3600;
    let mi = (sod % 3600) / 60;
    let s = sod % 60;
    match tf {
        TimeFrame::Sec1 => s + mi * 100 + h * 10_000,
        TimeFrame::Min1 => mi * 100 + h * 10_000,
        TimeFrame::Min3 => (mi / 3) * 100 + h * 10_000,
        TimeFrame::Min5 => (mi / 5) * 100 + h * 10_000,
        TimeFrame::Min15 => (mi / 15) * 100 + h * 10_000,
        TimeFrame::Min30 => (mi / 30) * 100 + h * 10_000,
        TimeFrame::Hour1 => h * 10_000,
        TimeFrame::Hour2 => (h / 2) * 10_000,
        TimeFrame::Hour4 => (h / 4) * 10_000,
        TimeFrame::Hour6 => (h / 6) * 10_000,
        TimeFrame::Hour8 => (h / 8) * 10_000,
        TimeFrame::Hour12 => (h / 12) * 10_000,
        _ => 0,
    }
}

pub open spec fn date_code(c: (int, int, int)) -> int {
    c.2 * 1_000_000 + c.1 * 100_000_000 + c.0 * 10_000_000_000
}

/// Frames no longer than a day, whose keys encode the civil date.
pub open spec fn within_day(tf: TimeFrame) -> bool {
    match tf {
        TimeFrame::Day3 | TimeFrame::Week1 | TimeFrame::Month1 | TimeFrame::Year1 => false,
        _ => true,
    }
}

proof fn lemma_split(x: int, d: int, q: int, r: int)
    requires
        d > 0,
        0 <= r < d,
        x == q * d + r,
    ensures
        x / d == q,
        x % d == r,
{
    vstd::arithmetic::div_mod::lemma_fundamental_div_mod_converse(x, d, q, r);
}

proof fn lemma_sod_fields(sod: int)
    requires
        0 <= sod < 86400,
    ensures
        0 <= sod / 3600 < 24,
        0 <= (sod % 3600) / 60 < 60,
        0 <= sod % 60 < 60,
        sod == 3600 * (sod / 3600) + 60 * ((sod % 3600) / 60) + sod % 60,
{
    let h = sod / 3600;
    let r = sod % 3600;
    lemma_split(sod, 3600, h, r);
    let mi = r / 60;
    let s = r % 60;
    lemma_split(r, 60, mi, s);
    lemma_split(sod, 60, 60 * h + mi, s);
}

proof fn lemma_tod_sec1(s1: int, s2: int)
    requires
        0 <= s1 < 86400,
        0 <= s2 < 86400,
    ensures
        (tod_code(TimeFrame::Sec1, s1) == tod_code(TimeFrame::Sec1, s2)) == (s1 / 1 == s2 / 1),
        0 <= tod_code(TimeFrame::Sec1, s1) < 1_000_000,
        0 <= s1 / 1 < 86400int / 1,
{
    lemma_sod_fields(s1);
    lemma_sod_fields(s2);
    let h1 = s1 / 3600;
    let m1 = (s1 % 3600) / 60;
    let x1 = s1 % 60;
    let h2 = s2 / 3600;
    let m2 = (s2 % 3600) / 60;
    let x2 = s2 % 60;
    lemma_split(s1, 1, s1, 0);
    lemma_split(s2, 1, s2, 0);
}

proof fn lemma_tod_min1(s1: int, s2: int)
    requires
        0 <= s1 < 86400,
        0 <= s2 < 86400,
    ensures
        (tod_code(TimeFrame::Min1, s1) == tod_code(TimeFrame::Min1, s2)) == (s1 / 60 == s2 / 60),
        0 <= tod_code(TimeFrame::Min1, s1) < 1_000_000,
        0 <= s1 / 60 < 86400int / 60,
{
    lemma_sod_fields(s1);
    lemma_sod_fields(s2);
    let h1 = s1 / 3600;
    let m1 = (s1 % 3600) / 60;
    let x1 = s1 % 60;
    let h2 = s2 / 3600;
    let m2 = (s2 % 3600) / 60;
    let x2 = s2 % 60;
    lemma_split(s1, 60, 60 * h1 + m1, x1);
    lemma_split(s2, 60, 60 * h2 + m2, x2);
}

proof fn lemma_tod_min3(s1: int, s2: int)
    requires
        0 <= s1 < 86400,
        0 <= s2 < 86400,
    ensures
        (tod_code(TimeFrame::Min3, s1) == tod_code(TimeFrame::Min3, s2)) == (s1 / 180 == s2 / 180),
        0 <= tod_code(TimeFrame::Min3, s1) < 1_000_000,
        0 <= s1 / 180 < 86400int / 180,
{
    lemma_sod_fields(s1);
    lemma_sod_fields(s2);
    let h1 = s1 / 3600;
    let m1 = (s1 % 3600) / 60;
    let x1 = s1 % 60;
    let h2 = s2 / 3600;
    let m2 = (s2 % 3600) / 60;
    let x2 = s2 % 60;
    lemma_split(s1, 180, 20 * h1 + m1 / 3, 60 * (m1 % 3) + x1);
    lemma_split(s2, 180, 20 * h2 + m2 / 3, 60 * (m2 % 3) + x2);
}

proof fn lemma_tod_min5(s1: int, s2: int)
    requires
        0 <= s1 < 86400,
        0 <= s2 < 86400,
    ensures
        (tod_code(TimeFrame::Min5, s1) == tod_code(TimeFrame::Min5, s2)) == (s1 / 300 == s2 / 300),
        0 <= tod_code(TimeFrame::Min5, s1) < 1_000_000,
        0 <= s1 / 300 < 86400int / 300,
{
    lemma_sod_fields(s1);
    lemma_sod_fields(s2);
    let h1 = s1 / 3600;
    let m1 = (s1 % 3600) / 60;
    let x1 = s1 % 60;
    let h2 = s2 / 3600;
    let m2 = (s2 % 3600) / 60;
    let x2 = s2 % 60;
    lemma_split(s1, 300, 12 * h1 + m1 / 5, 60 * (m1 % 5) + x1);
    lemma_split(s2, 300, 12 * h2 + m2 / 5, 60 * (m2 % 5) + x2);
}

proof fn lemma_tod_min15(s1: int, s2: int)
    requires
        0 <= s1 < 86400,
        0 <= s2 < 86400,
    ensures
        (tod_code(TimeFrame::Min15, s1) == tod_code(TimeFrame::Min15, s2)) == (s1 / 900 == s2 / 900),
        0 <= tod_code(TimeFrame::Min15, s1) < 1_000_000,
        0 <= s1 / 900 < 86400int / 900,
{
    lemma_sod_fields(s1);
    lemma_sod_fields(s2);
    let h1 = s1 / 3600;
    let m1 = (s1 % 3600) / 60;
    let x1 = s1 % 60;
    let h2 = s2 / 3600;
    let m2 = (s2 % 3600) / 60;
    let x2 = s2 % 60;
    lemma_split(s1, 900, 4 * h1 + m1 / 15, 60 * (m1 % 15) + x1);
    lemma_split(s2, 900, 4 * h2 + m2 / 15, 60 * (m2 % 15) + x2);
}

proof fn lemma_tod_min30(s1: int, s2: int)
    requires
        0 <= s1 < 86400,
        0 <= s2 < 86400,
    ensures
        (tod_code(TimeFrame::Min30, s1) == tod_code(TimeFrame::Min30, s2)) == (s1 / 1800 == s2 / 1800),
        0 <= tod_code(TimeFrame::Min30, s1) < 1_000_000,
        0 <= s1 / 1800 < 86400int / 1800,
{
    lemma_sod_fields(s1);
    lemma_sod_fields(s2);
    let h1 = s1 / 3600;
    let m1 = (s1 % 3600) / 60;
    let x1 = s1 % 60;
    let h2 = s2 / 3600;
    let m2 = (s2 % 3600) / 60;
    let x2 = s2 % 60;
    lemma_split(s1, 1800, 2 * h1 + m1 / 30, 60 * (m1 % 30) + x1);
    lemma_split(s2, 1800, 2 * h2 + m2 / 30, 60 * (m2 % 30) + x2);
}

proof fn lemma_tod_hour1(s1: int, s2: int)
    requires
        0 <= s1 < 86400,
        0 <= s2 < 86400,
    ensures
        (tod_code(TimeFrame::Hour1, s1) == tod_code(TimeFrame::Hour1, s2)) == (s1 / 3600 == s2 / 3600),
        0 <= tod_code(TimeFrame::Hour1, s1) < 1_000_000,
        0 <= s1 / 3600 < 86400int / 3600,
{
    lemma_sod_fields(s1);
    lemma_sod_fields(s2);
    let h1 = s1 / 3600;
    let m1 = (s1 % 3600) / 60;
    let x1 = s1 % 60;
    let h2 = s2 / 3600;
    let m2 = (s2 % 3600) / 60;
    let x2 = s2 % 60;
    lemma_split(s1, 3600, h1, 60 * m1 + x1);
    lemma_split(s2, 3600, h2, 60 * m2 + x2);
}

proof fn lemma_tod_hour2(s1: int, s2: int)
    requires
        0 <= s1 < 86400,
        0 <= s2 < 86400,
    ensures
        (tod_code(TimeFrame::Hour2, s1) == tod_code(TimeFrame::Hour2, s2)) == (s1 / 7200 == s2 / 7200),
        0 <= tod_code(TimeFrame::Hour2, s1) < 1_000_000,
        0 <= s1 / 7200 < 86400int / 7200,
{
    lemma_sod_fields(s1);
    lemma_sod_fields(s2);
    let h1 = s1 / 3600;
    let m1 = (s1 % 3600) / 60;
    let x1 = s1 % 60;
    let h2 = s2 / 3600;
    let m2 = (s2 % 3600) / 60;
    let x2 = s2 % 60;
    lemma_split(s1, 7200, h1 / 2, 3600 * (h1 % 2) + 60 * m1 + x1);
    lemma_split(s2, 7200, h2 / 2, 3600 * (h2 % 2) + 60 * m2 + x2);
}

proof fn lemma_tod_hour4(s1: int, s2: int)
    requires
        0 <= s1 < 86400,
        0 <= s2 < 86400,
    ensures
        (tod_code(TimeFrame::Hour4, s1) == tod_code(TimeFrame::Hour4, s2)) == (s1 / 14400 == s2 / 14400),
        0 <= tod_code(TimeFrame::Hour4, s1) < 1_000_000,
        0 <= s1 / 14400 < 86400int / 14400,
{
    lemma_sod_fields(s1);
    lemma_sod_fields(s2);
    let h1 = s1 / 3600;
    let m1 = (s1 % 3600) / 60;
    let x1 = s1 % 60;
    let h2 = s2 / 3600;
    let m2 = (s2 % 3600) / 60;
    let x2 = s2 % 60;
    lemma_split(s1, 14400, h1 / 4, 3600 * (h1 % 4) + 60 * m1 + x1);
    lemma_split(s2, 14400, h2 / 4, 3600 * (h2 % 4) + 60 * m2 + x2);
}

proof fn lemma_tod_hour6(s1: int, s2: int)
    requires
        0 <= s1 < 86400,
        0 <= s2 < 86400,
    ensures
        (tod_code(TimeFrame::Hour6, s1) == tod_code(TimeFrame::Hour6, s2)) == (s1 / 21600 == s2 / 21600),
        0 <= tod_code(TimeFrame::Hour6, s1) < 1_000_000,
        0 <= s1 / 21600 < 86400int / 21600,
{
    lemma_sod_fields(s1);
    lemma_sod_fields(s2);
    let h1 = s1 / 3600;
    let m1 = (s1 % 3600) / 60;
    let x1 = s1 % 60;
    let h2 = s2 / 3600;
    let m2 = (s2 % 3600) / 60;
    let x2 = s2 % 60;
    lemma_split(s1, 21600, h1 / 6, 3600 * (h1 % 6) + 60 * m1 + x1);
    lemma_split(s2, 21600, h2 / 6, 3600 * (h2 % 6) + 60 * m2 + x2);
}

proof fn lemma_tod_hour8(s1: int, s2: int)
    requires
        0 <= s1 < 86400,
        0 <= s2 < 86400,
    ensures
        (tod_code(TimeFrame::Hour8, s1) == tod_code(TimeFrame::Hour8, s2)) == (s1 / 28800 == s2 / 28800),
        0 <= tod_code(TimeFrame::Hour8, s1) < 1_000_000,
        0 <= s1 / 28800 < 86400int / 28800,
{
    lemma_sod_fields(s1);
    lemma_sod_fields(s2);
    let h1 = s1 / 3600;
    let m1 = (s1 % 3600) / 60;
    let x1 = s1 % 60;
    let h2 = s2 / 3600;
    let m2 = (s2 % 3600) / 60;
    let x2 = s2 % 60;
    lemma_split(s1, 28800, h1 / 8, 3600 * (h1 % 8) + 60 * m1 + x1);
    lemma_split(s2, 28800, h2 / 8, 3600 * (h2 % 8) + 60 * m2 + x2);
}

proof fn lemma_tod_hour12(s1: int, s2: int)
    requires
        0 <= s1 < 86400,
        0 <= s2 < 86400,
    ensures
        (tod_code(TimeFrame::Hour12, s1) == tod_code(TimeFrame::Hour12, s2)) == (s1 / 43200 == s2 / 43200),
        0 <= tod_code(TimeFrame::Hour12, s1) < 1_000_000,
        0 <= s1 / 43200 < 86400int / 43200,
{
    lemma_sod_fields(s1);
    lemma_sod_fields(s2);
    let h1 = s1 / 3600;
    let m1 = (s1 % 3600) / 60;
    let x1 = s1 % 60;
    let h2 = s2 / 3600;
    let m2 = (s2 % 3600) / 60;
    let x2 = s2 % 60;
    lemma_split(s1, 43200, h1 / 12, 3600 * (h1 % 12) + 60 * m1 + x1);
    lemma_split(s2, 43200, h2 / 12, 3600 * (h2 % 12) + 60 * m2 + x2);
}

proof fn lemma_tod_day1(s1: int, s2: int)
    requires
        0 <= s1 < 86400,
        0 <= s2 < 86400,
    ensures
        (tod_code(TimeFrame::Day1, s1) == tod_code(TimeFrame::Day1, s2)) == (s1 / 86400 == s2 / 86400),
        0 <= tod_code(TimeFrame::Day1, s1) < 1_000_000,
        0 <= s1 / 86400 < 86400int / 86400,
{
    lemma_sod_fields(s1);
    lemma_sod_fields(s2);
    let h1 = s1 / 3600;
    let m1 = (s1 % 3600) / 60;
    let x1 = s1 % 60;
    let h2 = s2 / 3600;
    let m2 = (s2 % 3600) / 60;
    let x2 = s2 % 60;
    lemma_split(s1, 86400, 0, s1);
    lemma_split(s2, 86400, 0, s2);
}

/// Within a day, the time-of-day code of a sub-day frame tells buckets apart
/// exactly as the bucket index does.
proof fn lemma_tod_bucket(tf: TimeFrame, s1: int, s2: int)
    requires
        within_day(tf),
        0 <= s1 < 86400,
        0 <= s2 < 86400,
    ensures
        (tod_code(tf, s1) == tod_code(tf, s2)) == (s1 / spec_duration(tf).unwrap() == s2
            / spec_duration(tf).unwrap()),
        0 <= tod_code(tf, s1) < 1_000_000,
        0 <= s1 / spec_duration(tf).unwrap() < 86400int / spec_duration(tf).unwrap(),
{
    match tf {
        TimeFrame::Sec1 => lemma_tod_sec1(s1, s2),
        TimeFrame::Min1 => lemma_tod_min1(s1, s2),
        TimeFrame::Min3 => lemma_tod_min3(s1, s2),
        TimeFrame::Min5 => lemma_tod_min5(s1, s2),
        TimeFrame::Min15 => lemma_tod_min15(s1, s2),
        TimeFrame::Min30 => lemma_tod_min30(s1, s2),
        TimeFrame::Hour1 => lemma_tod_hour1(s1, s2),
        TimeFrame::Hour2 => lemma_tod_hour2(s1, s2),
        TimeFrame::Hour4 => lemma_tod_hour4(s1, s2),
        TimeFrame::Hour6 => lemma_tod_hour6(s1, s2),
        TimeFrame::Hour8 => lemma_tod_hour8(s1, s2),
        TimeFrame::Hour12 => lemma_tod_hour12(s1, s2),
        TimeFrame::Day1 => lemma_tod_day1(s1, s2),
        _ => {},
    }
}

/// The positional date code, with a time-of-day code below a million, tells
/// valid dates and codes apart.
proof fn lemma_date_code_injective(c1: (int, int, int), c2: (int, int, int), t1: int, t2: int)
    requires
        is_valid_date(c1.0, c1.1, c1.2),
        is_valid_date(c2.0, c2.1, c2.2),
        0 <= t1 < 1_000_000,
        0 <= t2 < 1_000_000,
    ensures
        (date_code(c1) + t1 == date_code(c2) + t2) == (c1 == c2 && t1 == t2),
{
    let x1 = date_code(c1) + t1;
    let x2 = date_code(c2) + t2;
    if x1 == x2 {
        let r1 = c1.1 + 100 * c1.0;
        let r2 = c2.1 + 100 * c2.0;
        let q1 = c1.2 + 100 * r1;
        let q2 = c2.2 + 100 * r2;
        assert(x1 == q1 * 1_000_000 + t1);
        assert(x2 == q2 * 1_000_000 + t2);
        vstd::arithmetic::div_mod::lemma_fundamental_div_mod_converse_mod(x1, 1_000_000, q1, t1);
        vstd::arithmetic::div_mod::lemma_fundamental_div_mod_converse_mod(x2, 1_000_000, q2, t2);
        vstd::arithmetic::div_mod::lemma_fundamental_div_mod_converse_div(x1, 1_000_000, q1, t1);
        vstd::arithmetic::div_mod::lemma_fundamental_div_mod_converse_div(x2, 1_000_000, q2, t2);
        assert(q1 == r1 * 100 + c1.2);
        assert(q2 == r2 * 100 + c2.2);
        vstd::arithmetic::div_mod::lemma_fundamental_div_mod_converse_mod(q1, 100, r1, c1.2);
        vstd::arithmetic::div_mod::lemma_fundamental_div_mod_converse_mod(q2, 100, r2, c2.2);
        vstd::arithmetic::div_mod::lemma_fundamental_div_mod_converse_div(q1, 100, r1, c1.2);
        vstd::arithmetic::div_mod::lemma_fundamental_div_mod_converse_div(q2, 100, r2, c2.2);
        assert(r1 == c1.0 * 100 + c1.1);
        assert(r2 == c2.0 * 100 + c2.1);
        vstd::arithmetic::div_mod::lemma_fundamental_div_mod_converse_mod(r1, 100, c1.0, c1.1);
        vstd::arithmetic::div_mod::lemma_fundamental_div_mod_converse_mod(r2, 100, c2.0, c2.1);
        vstd::arithmetic::div_mod::lemma_fundamental_div_mod_converse_div(r1, 100, c1.0, c1.1);
        vstd::arithmetic::div_mod::lemma_fundamental_div_mod_converse_div(r2, 100, c2.0, c2.1);
    }
}

/// Two day counts name the same civil date exactly when they are equal.
proof fn lemma_civil_injective(d1: int, d2: int)
    ensures
        (civil_from_days(d1) == civil_from_days(d2)) == (d1 == d2),
{
    lemma_civil_roundtrip(d1);
    lemma_civil_roundtrip(d2);
}

/// The wall-clock bucket of a frame that divides a day.
proof fn lemma_wall_bucket(ns: int, tz: Tz, dur: int)
    requires
        dur > 0,
        86400int % dur == 0,
    ensures
        wall_secs(ns, tz) / dur == wall_days(ns, tz) * (86400int / dur) + wall_sod(ns, tz) / dur,
{
    let w = wall_secs(ns, tz);
    let days = wall_days(ns, tz);
    let sod = wall_sod(ns, tz);
    let k = 86400int / dur;
    vstd::arithmetic::div_mod::lemma_fundamental_div_mod(86400, dur);
    assert(86400 == k * dur);
    let q = sod / dur;
    let r = sod % dur;
    vstd::arithmetic::div_mod::lemma_fundamental_div_mod(sod, dur);
    assert(sod == q * dur + r);
    assert(w == days * 86400 + sod);
    assert(w == (days * k + q) * dur + r) by (nonlinear_arith)
        requires
            w == days * 86400 + sod,
            sod == q * dur + r,
            86400 == k * dur,
    ;
    lemma_split(w, dur, days * k + q, r);
}

proof fn lemma_bucket_pair_injective(k: int, d1: int, q1: int, d2: int, q2: int)
    requires
        k > 0,
        0 <= q1 < k,
        0 <= q2 < k,
    ensures
        (d1 * k + q1 == d2 * k + q2) == (d1 == d2 && q1 == q2),
{
    if d1 < d2 {
        assert(d1 * k + k <= d2 * k) by (nonlinear_arith)
            requires
                d1 < d2,
                k > 0,
        ;
    } else if d2 < d1 {
        assert(d2 * k + k <= d1 * k) by (nonlinear_arith)
            requires
                d2 < d1,
                k > 0,
        ;
    }
}

/// The key of a frame within a day is its date code plus its time-of-day code.
proof fn lemma_key_shape(tf: TimeFrame, ns: int, tz: Tz)
    requires
        within_day(tf),
    ensures
        spec_unify(tf, ns, tz) == date_code(civil_from_days(wall_days(ns, tz))) + tod_code(
            tf,
            wall_sod(ns, tz),
        ),
{
}

/// The keys of a frame no longer than a day tell its buckets apart.
#[verifier::spinoff_prover]
proof fn lemma_same_key_within_day(tf: TimeFrame, a: int, b: int, tz: Tz)
    requires
        tz_ok(tz),
        within_day(tf),
    ensures
        (spec_unify(tf, a, tz) == spec_unify(tf, b, tz)) == same_period(tf, a, b, tz),
{
    let da = wall_days(a, tz);
    let db = wall_days(b, tz);
    let sa = wall_sod(a, tz);
    let sb = wall_sod(b, tz);
    lemma_civil_roundtrip(da);
    lemma_civil_roundtrip(db);
    lemma_civil_injective(da, db);
    let ca = civil_from_days(da);
    let cb = civil_from_days(db);
    let dur = spec_duration(tf).unwrap();
    lemma_key_shape(tf, a, tz);
    lemma_key_shape(tf, b, tz);
    lemma_tod_bucket(tf, sa, sb);
    lemma_tod_bucket(tf, sb, sa);
    lemma_date_code_injective(ca, cb, tod_code(tf, sa), tod_code(tf, sb));
    lemma_wall_bucket(a, tz, dur);
    lemma_wall_bucket(b, tz, dur);
    lemma_bucket_pair_injective(86400int / dur, da, sa / dur, db, sb / dur);
}

/// The keys of the 3-day, week, month and year frames tell their buckets
/// apart.
#[verifier::spinoff_prover]
proof fn lemma_same_key_calendar(tf: TimeFrame, a: int, b: int, tz: Tz)
    requires
        tz_ok(tz),
        !within_day(tf),
    ensures
        (spec_unify(tf, a, tz) == spec_unify(tf, b, tz)) == same_period(tf, a, b, tz),
{
    let da = wall_days(a, tz);
    let db = wall_days(b, tz);
    let sa = wall_sod(a, tz);
    let sb = wall_sod(b, tz);
    lemma_civil_roundtrip(da);
    lemma_civil_roundtrip(db);
    lemma_civil_injective(da, db);
    let ca = civil_from_days(da);
    let cb = civil_from_days(db);
    match tf {
        TimeFrame::Day3 => {
            lemma_split(wall_secs(a, tz), 259200, da / 3, 86400 * (da % 3) + sa);
            lemma_split(wall_secs(b, tz), 259200, db / 3, 86400 * (db % 3) + sb);
        },
        TimeFrame::Week1 => {
            lemma_split(wall_secs(a, tz) + 259200, 604800, (da + 3) / 7, 86400 * ((da + 3) % 7) + sa);
            lemma_split(wall_secs(b, tz) + 259200, 604800, (db + 3) / 7, 86400 * ((db + 3) % 7) + sb);
        },
        TimeFrame::Month1 => {
            lemma_date_code_injective((ca.0, ca.1, 1), (cb.0, cb.1, 1), 0, 0);
        },
        _ => {
            lemma_date_code_injective((ca.0, 1, 1), (cb.0, 1, 1), 0, 0);
        },
    }
}

/// Two instants share a period key exactly when they fall in the same bucket
/// of the frame.
pub proof fn law_same_key_iff_same_period(tf: TimeFrame, a: int, b: int, tz: Tz)
    requires
        tz_ok(tz),
    ensures
        (spec_unify(tf, a, tz) == spec_unify(tf, b, tz)) == same_period(tf, a, b, tz),
{
    if within_day(tf) {
        lemma_same_key_within_day(tf, a, b, tz);
    } else {
        lemma_same_key_calendar(tf, a, b, tz);
    }
}


/// The bucket of a fixed-length frame counted in nanoseconds: the
/// wall-clock instant (the week frame shifted to start on a Monday) divided
/// by the frame's length.
pub open spec fn ns_bucket(tf: TimeFrame, ns: int, tz: Tz) -> int {
    let shift: int = if tf == TimeFrame::Week1 { 259200 } else { 0 };
    (ns + (tz_offset(tz) + shift) * 1_000_000_000) / (spec_duration(tf).unwrap() * 1_000_000_000)
}

/// Counting in nanoseconds gives the same bucket as counting in whole
/// seconds.
proof fn lemma_ns_bucket(tf: TimeFrame, ns: int, tz: Tz)
    requires
        spec_duration(tf) is Some,
    ensures
        ns_bucket(tf, ns, tz) == (wall_secs(ns, tz) + (if tf == TimeFrame::Week1 { 259200int } else { 0int })) / spec_duration(tf).unwrap(),
{
    let shift: int = if tf == TimeFrame::Week1 { 259200 } else { 0 };
    let c = tz_offset(tz) + shift;
    let q = ns / 1_000_000_000;
    let r = ns % 1_000_000_000;
    vstd::arithmetic::div_mod::lemma_fundamental_div_mod(ns, 1_000_000_000);
    lemma_split(ns + c * 1_000_000_000, 1_000_000_000, q + c, r);
    lemma_nested_div(ns + c * 1_000_000_000, 1_000_000_000, spec_duration(tf).unwrap());
}

/// Two instants share the key of a fixed-length frame (one second up to
/// three days, or a Monday-anchored week) exactly when they fall in the same
/// nanosecond bucket of that length on the wall clock.
pub proof fn law_same_key_iff_same_ns_bucket(tf: TimeFrame, a: int, b: int, tz: Tz)
    requires
        tz_ok(tz),
        spec_duration(tf) is Some,
    ensures
        (spec_unify(tf, a, tz) == spec_unify(tf, b, tz)) == (ns_bucket(tf, a, tz) == ns_bucket(tf, b, tz)),
{
    law_same_key_iff_same_period(tf, a, b, tz);
    lemma_ns_bucket(tf, a, tz);
    lemma_ns_bucket(tf, b, tz);
}

proof fn lemma_nested_div(w: int, ds: int, k: int)
    requires
        ds > 0,
        k > 0,
    ensures
        w / (ds * k) == (w / ds) / k,
{
    let q1 = w / ds;
    let r1 = w % ds;
    vstd::arithmetic::div_mod::lemma_fundamental_div_mod(w, ds);
    let q2 = q1 / k;
    let r2 = q1 % k;
    vstd::arithmetic::div_mod::lemma_fundamental_div_mod(q1, k);
    assert(w == q2 * (ds * k) + (ds * r2 + r1) && 0 <= ds * r2 + r1 < ds * k) by (nonlinear_arith)
        requires
            w == ds * q1 + r1,
            q1 == k * q2 + r2,
            0 <= r1 < ds,
            0 <= r2 < k,
    ;
    lemma_split(w, ds * k, q2, ds * r2 + r1);
}

/// Instants in the same bucket of a frame that divides a day are on the same
/// wall-clock day.
proof fn lemma_same_day(tf: TimeFrame, a: int, b: int, tz: Tz)
    requires
        within_day(tf),
        same_period(tf, a, b, tz),
    ensures
        wall_days(a, tz) == wall_days(b, tz),
{
    let ds = spec_duration(tf).unwrap();
    let k = 86400int / ds;
    assert(ds * k == 86400);
    lemma_nested_div(wall_secs(a, tz), ds, k);
    lemma_nested_div(wall_secs(b, tz), ds, k);
}

/// The week bucket is the epoch-anchored 7-day block of the wall-clock day.
proof fn lemma_week_of_day(a: int, tz: Tz)
    ensures
        (wall_secs(a, tz) + 259200) / 604800 == (wall_days(a, tz) + 3) / 7,
{
    let d = wall_days(a, tz);
    let s = wall_sod(a, tz);
    lemma_split(wall_secs(a, tz) + 259200, 604800, (d + 3) / 7, 86400 * ((d + 3) % 7) + s);
}

/// When a frame coarsens to `dst`, instants in the same bucket of the frame
/// are in the same bucket of `dst`: no coarse bar straddles a fine one.
pub proof fn law_coarsen_nests(src: TimeFrame, dst: TimeFrame, a: int, b: int, tz: Tz)
    requires
        tz_ok(tz),
        spec_can_coarsen(src, dst),
        spec_unify(src, a, tz) == spec_unify(src, b, tz),
    ensures
        spec_unify(dst, a, tz) == spec_unify(dst, b, tz),
{
    law_same_key_iff_same_period(src, a, b, tz);
    law_same_key_iff_same_period(dst, a, b, tz);
    if src != dst {
        match dst {
            TimeFrame::Year1 => {
                if src != TimeFrame::Month1 {
                    lemma_same_day(src, a, b, tz);
                }
            },
            TimeFrame::Month1 => {
                lemma_same_day(src, a, b, tz);
            },
            TimeFrame::Week1 => {
                lemma_same_day(src, a, b, tz);
                lemma_week_of_day(a, tz);
                lemma_week_of_day(b, tz);
            },
            _ => {
                let ds = spec_duration(src).unwrap();
                let dd = spec_duration(dst).unwrap();
                let k = dd / ds;
                assert(ds * k == dd);
                lemma_nested_div(wall_secs(a, tz), ds, k);
                lemma_nested_div(wall_secs(b, tz), ds, k);
            },
        }
    }
}

/// Parsing a frame's canonical label gives the frame back.
pub proof fn law_label_roundtrip(tf: TimeFrame)
    ensures
        spec_from_label(spec_label(tf)) == Some(tf),
{
    reveal_strlit("1s");
    reveal_strlit("1S");
    reveal_strlit("1m");
    reveal_strlit("3m");
    reveal_strlit("5m");
    reveal_strlit("15m");
    reveal_strlit("30m");
    reveal_strlit("1h");
    reveal_strlit("1H");
    reveal_strlit("2h");
    reveal_strlit("2H");
    reveal_strlit("4h");
    reveal_strlit("4H");
    reveal_strlit("6h");
    reveal_strlit("6H");
    reveal_strlit("8h");
    reveal_strlit("8H");
    reveal_strlit("12h");
    reveal_strlit("12H");
    reveal_strlit("1d");
    reveal_strlit("1D");
    reveal_strlit("3d");
    reveal_strlit("3D");
    reveal_strlit("1w");
    reveal_strlit("1W");
    reveal_strlit("1M");
    reveal_strlit("1y");
    reveal_strlit("1Y");
    match tf {
        TimeFrame::Sec1 => assert(spec_label(tf) =~= seq!['1', 's']),
        TimeFrame::Min1 => assert(spec_label(tf) =~= seq!['1', 'm']),
        TimeFrame::Min3 => assert(spec_label(tf) =~= seq!['3', 'm']),
        TimeFrame::Min5 => assert(spec_label(tf) =~= seq!['5', 'm']),
        TimeFrame::Min15 => assert(spec_label(tf) =~= seq!['1', '5', 'm']),
        TimeFrame::Min30 => assert(spec_label(tf) =~= seq!['3', '0', 'm']),
        TimeFrame::Hour1 => assert(spec_label(tf) =~= seq!['1', 'h']),
        TimeFrame::Hour2 => assert(spec_label(tf) =~= seq!['2', 'h']),
        TimeFrame::Hour4 => assert(spec_label(tf) =~= seq!['4', 'h']),
        TimeFrame::Hour6 => assert(spec_label(tf) =~= seq!['6', 'h']),
        TimeFrame::Hour8 => assert(spec_label(tf) =~= seq!['8', 'h']),
        TimeFrame::Hour12 => assert(spec_label(tf) =~= seq!['1', '2', 'h']),
        TimeFrame::Day1 => assert(spec_label(tf) =~= seq!['1', 'd']),
        TimeFrame::Day3 => assert(spec_label(tf) =~= seq!['3', 'd']),
        TimeFrame::Week1 => assert(spec_label(tf) =~= seq!['1', 'w']),
        TimeFrame::Month1 => assert(spec_label(tf) =~= seq!['1', 'M']),
        TimeFrame::Year1 => assert(spec_label(tf) =~= seq!['1', 'y']),
    }
}

/// Floor division by a positive number never decreases, and grows by at most
/// one when the dividend grows by at most the divisor.
proof fn lemma_floor_steps(x: int, y: int, z: int)
    requires
        x <= y,
        0 < z,
    ensures
        x / z <= y / z,
        y - x <= z ==> y / z <= x / z + 1,
{
    vstd::arithmetic::div_mod::lemma_div_is_ordered(x, y, z);
    if y - x <= z {
        vstd::arithmetic::div_mod::lemma_div_is_ordered(y, x + z, z);
        vstd::arithmetic::div_mod::lemma_div_plus_one(x, z);
    }
}

/// The 3-day and week keys count epoch-anchored blocks of whole wall-clock
/// days: they never go back as time goes on, and from one wall-clock day to
/// the next they move on by at most one, across month boundaries too.
pub proof fn law_day_blocks_continuous(tf: TimeFrame, a: int, b: int, tz: Tz)
    requires
        tf == TimeFrame::Day3 || tf == TimeFrame::Week1,
        a <= b,
    ensures
        spec_unify(tf, a, tz) <= spec_unify(tf, b, tz),
        wall_days(b, tz) <= wall_days(a, tz) + 1 ==> spec_unify(tf, b, tz) <= spec_unify(tf, a, tz) + 1,
{
    lemma_floor_steps(a, b, 1_000_000_000);
    let sa = wall_secs(a, tz);
    let sb = wall_secs(b, tz);
    lemma_floor_steps(sa, sb, 86400);
    let da = wall_days(a, tz);
    let db = wall_days(b, tz);
    if tf == TimeFrame::Day3 {
        lemma_floor_steps(da, db, 3);
    } else {
        lemma_floor_steps(da + 3, db + 3, 7);
    }
}

/// Within a day, the time-of-day code of a sub-day frame never goes back.
proof fn lemma_tod_monotone(tf: TimeFrame, s1: int, s2: int)
    requires
        within_day(tf),
        0 <= s1 <= s2 < 86400,
    ensures
        tod_code(tf, s1) <= tod_code(tf, s2),
{
    lemma_sod_fields(s1);
    lemma_sod_fields(s2);
    let h1 = s1 / 3600;
    let h2 = s2 / 3600;
    vstd::arithmetic::div_mod::lemma_div_is_ordered(s1, s2, 3600);
    let m1 = (s1 % 3600) / 60;
    let m2 = (s2 % 3600) / 60;
    vstd::arithmetic::div_mod::lemma_div_is_ordered(h1, h2, 2);
    vstd::arithmetic::div_mod::lemma_div_is_ordered(h1, h2, 4);
    vstd::arithmetic::div_mod::lemma_div_is_ordered(h1, h2, 6);
    vstd::arithmetic::div_mod::lemma_div_is_ordered(h1, h2, 8);
    vstd::arithmetic::div_mod::lemma_div_is_ordered(h1, h2, 12);
    if h1 == h2 {
        assert(s1 % 3600 <= s2 % 3600);
        vstd::arithmetic::div_mod::lemma_div_is_ordered(s1 % 3600, s2 % 3600, 60);
        vstd::arithmetic::div_mod::lemma_div_is_ordered(m1, m2, 3);
        vstd::arithmetic::div_mod::lemma_div_is_ordered(m1, m2, 5);
        vstd::arithmetic::div_mod::lemma_div_is_ordered(m1, m2, 15);
        vstd::arithmetic::div_mod::lemma_div_is_ordered(m1, m2, 30);
    }
}

/// A later valid date has a date code at least a million larger.
proof fn lemma_date_code_ordered(c1: (int, int, int), c2: (int, int, int))
    requires
        is_valid_date(c1.0, c1.1, c1.2),
        is_valid_date(c2.0, c2.1, c2.2),
        date_before(c1, c2),
    ensures
        date_code(c1) + 1_000_000 <= date_code(c2),
{
}

/// A period key never goes back as time goes on: a later instant has the
/// same key or a larger one.
pub proof fn law_key_monotone(tf: TimeFrame, a: int, b: int, tz: Tz)
    requires
        a <= b,
    ensures
        spec_unify(tf, a, tz) <= spec_unify(tf, b, tz),
{
    if tf == TimeFrame::Day3 || tf == TimeFrame::Week1 {
        law_day_blocks_continuous(tf, a, b, tz);
    } else {
        lemma_floor_steps(a, b, 1_000_000_000);
        let wa = wall_secs(a, tz);
        let wb = wall_secs(b, tz);
        lemma_floor_steps(wa, wb, 86400);
        let da = wall_days(a, tz);
        let db = wall_days(b, tz);
        lemma_civil_roundtrip(da);
        lemma_civil_roundtrip(db);
        let ca = civil_from_days(da);
        let cb = civil_from_days(db);
        if da < db {
            lemma_civil_ordered(da, db);
        }
        if within_day(tf) {
            lemma_key_shape(tf, a, tz);
            lemma_key_shape(tf, b, tz);
            let sa = wall_sod(a, tz);
            let sb = wall_sod(b, tz);
            lemma_tod_bucket(tf, sa, sb);
            lemma_tod_bucket(tf, sb, sa);
            if da == db {
                vstd::arithmetic::div_mod::lemma_fundamental_div_mod(wa, 86400);
                vstd::arithmetic::div_mod::lemma_fundamental_div_mod(wb, 86400);
                lemma_tod_monotone(tf, sa, sb);
            } else {
                lemma_date_code_ordered(ca, cb);
            }
        }
    }
}

/// Coarsening is a partial order on frames: every frame coarsens to itself,
/// two frames that coarsen to each other are the same, and coarsening chains.
pub proof fn law_can_coarsen_partial_order(a: TimeFrame, b: TimeFrame, c: TimeFrame)
    ensures
        spec_can_coarsen(a, a),
        spec_can_coarsen(a, b) && spec_can_coarsen(b, a) ==> a == b,
        spec_can_coarsen(a, b) && spec_can_coarsen(b, c) ==> spec_can_coarsen(a, c),
{
    if spec_can_coarsen(a, b) && spec_can_coarsen(b, c) {
        lemma_coarsen_chain(a, b, c);
    }
}

/// The day-aligned frames are exactly those of at most a day.
proof fn lemma_day_aligned_duration(x: TimeFrame)
    ensures
        crate::time_frame::day_aligned(x) <==> (spec_duration(x) is Some && spec_duration(x).unwrap() <= 86400),
{
}

/// Divisibility chains.
proof fn lemma_divides_trans(x: int, y: int, z: int)
    requires
        x > 0,
        y > 0,
        y % x == 0,
        z % y == 0,
    ensures
        z % x == 0,
{
    let p = y / x;
    let q = z / y;
    vstd::arithmetic::div_mod::lemma_fundamental_div_mod(y, x);
    vstd::arithmetic::div_mod::lemma_fundamental_div_mod(z, y);
    assert(z == (q * p) * x) by (nonlinear_arith)
        requires
            y == x * p,
            z == y * q,
    ;
    vstd::arithmetic::div_mod::lemma_mod_multiples_basic(q * p, x);
}

proof fn lemma_coarsen_chain(a: TimeFrame, b: TimeFrame, c: TimeFrame)
    requires
        spec_can_coarsen(a, b),
        spec_can_coarsen(b, c),
    ensures
        spec_can_coarsen(a, c),
{
    lemma_day_aligned_duration(a);
    lemma_day_aligned_duration(b);
    lemma_day_aligned_duration(c);
    if a != b && b != c && a != c {
        match (spec_duration(a), spec_duration(b), spec_duration(c)) {
            (Some(x), Some(y), Some(z)) => {
                if !(c is Week1) {
                    lemma_divides_trans(x, y, z);
                }
            },
            _ => {},
        }
    }
}

} // verus!
