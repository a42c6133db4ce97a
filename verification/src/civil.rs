//! Proleptic Gregorian calendar arithmetic on day counts since 1970-01-01.

use vstd::prelude::*;

verus! {

/// Whether `y` is a Gregorian leap year.
pub open spec fn is_leap_year(y: int) -> bool {
    (y % 4 == 0 && y % 100 != 0) || y % 400 == 0
}

/// Number of days of month `m` (1-based) in year `y`.
pub open spec fn days_in_month(y: int, m: int) -> int {
    if m == 2 {
        if is_leap_year(y) { 29 } else { 28 }
    } else if m == 4 || m == 6 || m == 9 || m == 11 {
        30
    } else {
        31
    }
}

/// A calendar date that exists.
pub open spec fn is_valid_date(y: int, m: int, d: int) -> bool {
    1 <= m <= 12 && 1 <= d <= days_in_month(y, m)
}

/// Month index in a March-based year (March is 0, February is 11).
pub open spec fn march_month(m: int) -> int {
    if m > 2 { m - 3 } else { m + 9 }
}

/// Days from March 1st to the first day of March-based month `mp`.
pub open spec fn month_offset(mp: int) -> int {
    (153 * mp + 2) / 5
}

/// Days from the start of a 400-year era (March 1st of year 0 of the era) to
/// March 1st of year `yoe` of that era.
pub open spec fn year_start(yoe: int) -> int {
    365 * yoe + yoe / 4 - yoe / 100
}

/// Days since 1970-01-01 of the date `(y, m, d)`.
pub open spec fn days_from_civil(y: int, m: int, d: int) -> int {
    let yy = if m <= 2 { y - 1 } else { y };
    let era = yy / 400;
    let yoe = yy - era * 400;
    era * 146097 + year_start(yoe) + month_offset(march_month(m)) + d - 1 - 719468
}

/// The March-based year of an era that contains day `doe` of the era.
pub open spec fn is_year_of_era(doe: int, yoe: int) -> bool {
    &&& 0 <= yoe <= 399
    &&& year_start(yoe) <= doe
    &&& (yoe == 399 || doe < year_start(yoe + 1))
}

pub open spec fn year_of_era(doe: int) -> int {
    choose|yoe: int| is_year_of_era(doe, yoe)
}

/// The date `(y, m, d)` of the day `z` days after 1970-01-01.
pub open spec fn civil_from_days(z: int) -> (int, int, int) {
    let zz = z + 719468;
    let era = zz / 146097;
    let doe = zz - era * 146097;
    let yoe = year_of_era(doe);
    let doy = doe - year_start(yoe);
    let mp = (5 * doy + 2) / 153;
    let d = doy - month_offset(mp) + 1;
    let m = if mp < 10 { mp + 3 } else { mp - 9 };
    let y = yoe + era * 400 + if m <= 2 { 1int } else { 0int };
    (y, m, d)
}

proof fn lemma_year_start_step(yoe: int)
    requires
        0 <= yoe,
    ensures
        year_start(yoe + 1) - year_start(yoe) == 365 + (if (yoe + 1) % 4 == 0 { 1int } else { 0int }) - (
        if (yoe + 1) % 100 == 0 { 1int } else { 0int }),
        365 <= year_start(yoe + 1) - year_start(yoe) <= 366,
{
}

proof fn lemma_year_start_monotone(a: int, b: int)
    requires
        0 <= a <= b,
    ensures
        year_start(a) + 365 * (b - a) <= year_start(b),
    decreases b - a,
{
    if a < b {
        lemma_year_start_monotone(a, b - 1);
        lemma_year_start_step(b - 1);
    }
}

proof fn lemma_year_of_era_exists(doe: int, y: int)
    requires
        0 <= doe <= 146096,
        0 <= y <= 399,
        year_start(y) <= doe,
    ensures
        exists|yoe: int| is_year_of_era(doe, yoe),
    decreases 399 - y,
{
    if y == 399 || doe < year_start(y + 1) {
        assert(is_year_of_era(doe, y));
    } else {
        lemma_year_of_era_exists(doe, y + 1);
    }
}

proof fn lemma_year_of_era_unique(doe: int, a: int, b: int)
    requires
        is_year_of_era(doe, a),
        is_year_of_era(doe, b),
    ensures
        a == b,
{
    if a < b {
        lemma_year_start_monotone(a + 1, b);
    } else if b < a {
        lemma_year_start_monotone(b + 1, a);
    }
}

/// `year_of_era` picks the one year of the era that holds the day.
pub proof fn lemma_year_of_era(doe: int)
    requires
        0 <= doe <= 146096,
    ensures
        is_year_of_era(doe, year_of_era(doe)),
        forall|y: int| is_year_of_era(doe, y) ==> y == year_of_era(doe),
{
    lemma_year_of_era_exists(doe, 0);
    assert forall|y: int| is_year_of_era(doe, y) implies y == year_of_era(doe) by {
        lemma_year_of_era_unique(doe, y, year_of_era(doe));
    }
}

proof fn lemma_era_leap(era: int, k: int)
    requires
        1 <= k <= 400,
    ensures
        is_leap_year(era * 400 + k) == ((k % 4 == 0 && k % 100 != 0) || k == 400),
{
    assert((era * 400 + k) % 4 == k % 4);
    assert((era * 400 + k) % 100 == k % 100);
    assert((era * 400 + k) % 400 == k % 400);
}

/// The length of March-based year `yoe` of an era is that of the calendar year
/// holding its February.
proof fn lemma_year_length(era: int, yoe: int)
    requires
        0 <= yoe <= 399,
    ensures
        (if yoe == 399 { 146097 - year_start(399) } else { year_start(yoe + 1) - year_start(yoe) })
            == if is_leap_year(era * 400 + yoe + 1) { 366int } else { 365int },
{
    lemma_era_leap(era, yoe + 1);
    if yoe < 399 {
        lemma_year_start_step(yoe);
    }
}

/// Every day count names a valid date, and converting that date back gives the
/// same day count.
pub proof fn lemma_civil_roundtrip(z: int)
    ensures
        is_valid_date(civil_from_days(z).0, civil_from_days(z).1, civil_from_days(z).2),
        days_from_civil(civil_from_days(z).0, civil_from_days(z).1, civil_from_days(z).2) == z,
{
    let zz = z + 719468;
    let era = zz / 146097;
    let doe = zz - era * 146097;
    assert(0 <= doe <= 146096);
    lemma_year_of_era(doe);
    let yoe = year_of_era(doe);
    let doy = doe - year_start(yoe);
    lemma_year_length(era, yoe);
    assert(0 <= doy <= 365);
    let mp = (5 * doy + 2) / 153;
    assert(0 <= mp <= 11);
    let (y, m, d) = civil_from_days(z);
    assert(march_month(m) == mp);
    assert(1 <= d);
    assert(month_offset(mp) <= doy);
    assert(d <= days_in_month(y, m)) by {
        if mp == 11 {
            assert(y == era * 400 + yoe + 1);
        }
    }
    let yy = if m <= 2 { y - 1 } else { y };
    assert(yy == era * 400 + yoe);
    assert(yy / 400 == era);
}

/// Whether date `a` comes before date `b` in the calendar.
pub open spec fn date_before(a: (int, int, int), b: (int, int, int)) -> bool {
    a.0 < b.0 || (a.0 == b.0 && (a.1 < b.1 || (a.1 == b.1 && a.2 < b.2)))
}

proof fn lemma_quot(x: int, d: int, q: int, r: int)
    requires
        d > 0,
        0 <= r < d,
        x == q * d + r,
    ensures
        x / d == q,
{
    vstd::arithmetic::div_mod::lemma_fundamental_div_mod_converse(x, d, q, r);
}

/// The first of the next month follows the last day of this one.
proof fn lemma_next_month(y: int, m: int)
    requires
        1 <= m <= 11,
    ensures
        days_from_civil(y, m + 1, 1) == days_from_civil(y, m, 1) + days_in_month(y, m),
{
    if m == 2 {
        let yy = y - 1;
        let era = yy / 400;
        let yoe = yy - era * 400;
        vstd::arithmetic::div_mod::lemma_fundamental_div_mod(yy, 400);
        assert(0 <= yoe <= 399);
        lemma_year_length(era, yoe);
        if yoe < 399 {
            lemma_quot(y, 400, era, yoe + 1);
        } else {
            lemma_quot(y, 400, era + 1, 0);
        }
    }
}

/// The first of January follows the last of December.
proof fn lemma_next_year(y: int)
    ensures
        days_from_civil(y + 1, 1, 1) == days_from_civil(y, 12, 1) + 31,
{
}

proof fn lemma_month_starts_ordered(y: int, m1: int, m2: int)
    requires
        1 <= m1 < m2 <= 12,
    ensures
        days_from_civil(y, m1, 1) + days_in_month(y, m1) <= days_from_civil(y, m2, 1),
    decreases m2 - m1,
{
    lemma_next_month(y, m1);
    if m1 + 1 < m2 {
        lemma_month_starts_ordered(y, m1 + 1, m2);
    }
}

proof fn lemma_year_starts_ordered(y1: int, y2: int)
    requires
        y1 < y2,
    ensures
        days_from_civil(y1, 12, 1) + 31 <= days_from_civil(y2, 1, 1),
    decreases y2 - y1,
{
    lemma_next_year(y1);
    if y1 + 1 < y2 {
        lemma_year_starts_ordered(y1 + 1, y2);
        lemma_month_starts_ordered(y1 + 1, 1, 12);
    }
}

/// A date before another has the smaller day count.
pub proof fn lemma_days_from_civil_ordered(a: (int, int, int), b: (int, int, int))
    requires
        is_valid_date(a.0, a.1, a.2),
        is_valid_date(b.0, b.1, b.2),
        date_before(a, b),
    ensures
        days_from_civil(a.0, a.1, a.2) < days_from_civil(b.0, b.1, b.2),
{
    assert(days_from_civil(a.0, a.1, a.2) == days_from_civil(a.0, a.1, 1) + a.2 - 1);
    assert(days_from_civil(b.0, b.1, b.2) == days_from_civil(b.0, b.1, 1) + b.2 - 1);
    if a.0 == b.0 && a.1 < b.1 {
        lemma_month_starts_ordered(a.0, a.1, b.1);
    } else if a.0 < b.0 {
        if a.1 < 12 {
            lemma_month_starts_ordered(a.0, a.1, 12);
        }
        lemma_year_starts_ordered(a.0, b.0);
        if b.1 > 1 {
            lemma_month_starts_ordered(b.0, 1, b.1);
        }
    }
}

/// A calendar year has 365 days, 366 in a leap year.
pub proof fn lemma_year_days(y: int)
    ensures
        days_from_civil(y + 1, 1, 1) - days_from_civil(y, 1, 1)
            == if is_leap_year(y) { 366int } else { 365int },
{
    lemma_next_month(y, 1);
    lemma_next_month(y, 2);
    lemma_next_month(y, 3);
    lemma_next_month(y, 4);
    lemma_next_month(y, 5);
    lemma_next_month(y, 6);
    lemma_next_month(y, 7);
    lemma_next_month(y, 8);
    lemma_next_month(y, 9);
    lemma_next_month(y, 10);
    lemma_next_month(y, 11);
    lemma_next_year(y);
}

/// The ordinal day of a date within its year lies in `1..=365`, or `1..=366`
/// in a leap year.
pub proof fn lemma_day_of_year(y: int, m: int, d: int)
    requires
        is_valid_date(y, m, d),
    ensures
        1 <= days_from_civil(y, m, d) - days_from_civil(y, 1, 1) + 1
            <= if is_leap_year(y) { 366int } else { 365int },
{
    if m != 1 || d != 1 {
        lemma_days_from_civil_ordered((y, 1int, 1int), (y, m, d));
    }
    lemma_days_from_civil_ordered((y, m, d), (y + 1, 1int, 1int));
    lemma_year_days(y);
}

/// Later days have later dates.
pub proof fn lemma_civil_ordered(z1: int, z2: int)
    requires
        z1 < z2,
    ensures
        date_before(civil_from_days(z1), civil_from_days(z2)),
{
    lemma_civil_roundtrip(z1);
    lemma_civil_roundtrip(z2);
    let c1 = civil_from_days(z1);
    let c2 = civil_from_days(z2);
    if !date_before(c1, c2) && c1 != c2 {
        lemma_days_from_civil_ordered(c2, c1);
    }
}

/// Floor division by a positive divisor.
pub fn div_floor(a: i64, b: i64) -> (q: i64)
    requires
        b > 0,
    ensures
        q == a / b,
{
    if a >= 0 {
        a / b
    } else {
        let t = (-(a + 1)) / b;
        proof {
            let n: int = -(a as int + 1);
            let bb: int = b as int;
            let tt: int = t as int;
            let r: int = n % bb;
            assert(n == tt * bb + r) by (nonlinear_arith)
                requires
                    tt == n / bb,
                    r == n % bb,
                    bb > 0,
                    n >= 0,
            ;
            assert(0 <= r < bb);
            assert(a as int == (-tt - 1) * bb + (bb - 1 - r)) by (nonlinear_arith)
                requires
                    n == tt * bb + r,
                    n == -(a as int + 1),
            ;
            vstd::arithmetic::div_mod::lemma_fundamental_div_mod_converse(
                a as int,
                bb,
                -tt - 1,
                bb - 1 - r,
            );
        }
        -t - 1
    }
}

fn year_start_exec(yoe: i64) -> (r: i64)
    requires
        0 <= yoe <= 400,
    ensures
        r == year_start(yoe as int),
{
    365 * yoe + yoe / 4 - yoe / 100
}

/// The date `(year, month, day)` of the day `z` days after 1970-01-01.
pub fn civil_from_days_exec(z: i64) -> (r: (i64, i64, i64))
    requires
        -1_000_000_000_000 <= z <= 1_000_000_000_000,
    ensures
        (r.0 as int, r.1 as int, r.2 as int) == civil_from_days(z as int),
        is_valid_date(r.0 as int, r.1 as int, r.2 as int),
        days_from_civil(r.0 as int, r.1 as int, r.2 as int) == z,
        (z + 719468) / 146097 * 400 <= r.0 <= (z + 719468) / 146097 * 400 + 400,
{
    let zz = z + 719468;
    let era = div_floor(zz, 146097);
    let doe = zz - era * 146097;
    assert(0 <= doe <= 146096);
    let mut yoe = doe / 366;
    proof {
        assert(366 * yoe <= doe) by (nonlinear_arith)
            requires
                yoe == doe / 366,
                doe >= 0,
        ;
    }
    while yoe < 399 && year_start_exec(yoe + 1) <= doe
        invariant
            0 <= doe <= 146096,
            0 <= yoe <= 399,
            year_start(yoe as int) <= doe,
        decreases 399 - yoe,
    {
        yoe = yoe + 1;
    }
    proof {
        assert(is_year_of_era(doe as int, yoe as int));
        lemma_year_of_era(doe as int);
        lemma_civil_roundtrip(z as int);
    }
    let doy = doe - year_start_exec(yoe);
    let mp = (5 * doy + 2) / 153;
    let d = doy - (153 * mp + 2) / 5 + 1;
    let m = if mp < 10 { mp + 3 } else { mp - 9 };
    let y = yoe + era * 400 + if m <= 2 { 1 } else { 0 };
    (y, m, d)
}


/// Days since 1970-01-01 of the date `(y, m, d)`.
pub fn days_from_civil_exec(y: i64, m: i64, d: i64) -> (r: i64)
    requires
        -1_000_000 <= y <= 1_000_000,
        1 <= m <= 12,
        1 <= d <= 31,
    ensures
        r == days_from_civil(y as int, m as int, d as int),
{
    let yy = if m <= 2 { y - 1 } else { y };
    let era = div_floor(yy, 400);
    let yoe = yy - era * 400;
    assert(0 <= yoe < 400) by {
        vstd::arithmetic::div_mod::lemma_fundamental_div_mod(yy as int, 400);
    }
    let mp = if m > 2 { m - 3 } else { m + 9 };
    era * 146097 + year_start_exec(yoe) + (153 * mp + 2) / 5 + d - 1 - 719468
}


/// Floor remainder by a positive divisor (the result lies in `0..b`).
pub fn mod_floor(a: i64, b: i64) -> (r: i64)
    requires
        b > 0,
    ensures
        r == a % b,
        0 <= r < b,
{
    if a >= 0 {
        a % b
    } else {
        let t = (-(a + 1)) % b;
        proof {
            let n: int = -(a as int + 1);
            let bb: int = b as int;
            let q: int = n / bb;
            assert(n == q * bb + t) by (nonlinear_arith)
                requires
                    q == n / bb,
                    t as int == n % bb,
                    bb > 0,
            ;
            assert(a as int == (-q - 1) * bb + (bb - 1 - t)) by (nonlinear_arith)
                requires
                    n == q * bb + t,
                    n == -(a as int + 1),
            ;
            vstd::arithmetic::div_mod::lemma_fundamental_div_mod_converse(
                a as int,
                bb,
                -q - 1,
                bb - 1 - t,
            );
        }
        b - 1 - t
    }
}

} // verus!
