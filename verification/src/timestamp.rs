//! A point in time (UTC nanoseconds since the epoch) together with the zone
//! whose wall clock it is shown in, and its calendar fields.

use vstd::prelude::*;
use vstd::string::*;
use crate::civil::{
    civil_from_days, civil_from_days_exec, days_from_civil, days_from_civil_exec, days_in_month,
    div_floor, is_leap_year, lemma_civil_roundtrip, lemma_day_of_year, mod_floor,
};
use crate::error::VolasError;
use crate::positions::{days_in_month_of, parse_freq_ns, spec_parse_freq_ns};
use crate::text::{push_zero_padded, zero_padded};
use crate::time_frame::{civil_parts, spec_civil_parts, tz_offset, tz_ok, Tz};

verus! {

/// A UTC instant in nanoseconds with the zone it was given in.
pub struct Timestamp {
    ns: i64,
    tz: Tz,
}

/// Day of the week of a wall-clock day count, Monday = 0 .. Sunday = 6.
pub open spec fn weekday_of(days: int) -> int {
    (days + 3) % 7
}

/// English name of a weekday (Monday = 0).
pub open spec fn day_name_of(wd: int) -> Seq<char> {
    if wd == 0 {
        "Monday"@
    } else if wd == 1 {
        "Tuesday"@
    } else if wd == 2 {
        "Wednesday"@
    } else if wd == 3 {
        "Thursday"@
    } else if wd == 4 {
        "Friday"@
    } else if wd == 5 {
        "Saturday"@
    } else {
        "Sunday"@
    }
}

/// English name of a month (January = 1).
pub open spec fn month_name_of(m: int) -> Seq<char> {
    if m == 1 {
        "January"@
    } else if m == 2 {
        "February"@
    } else if m == 3 {
        "March"@
    } else if m == 4 {
        "April"@
    } else if m == 5 {
        "May"@
    } else if m == 6 {
        "June"@
    } else if m == 7 {
        "July"@
    } else if m == 8 {
        "August"@
    } else if m == 9 {
        "September"@
    } else if m == 10 {
        "October"@
    } else if m == 11 {
        "November"@
    } else {
        "December"@
    }
}

/// The ISO calendar `(iso_year, iso_week, iso_weekday)` of a wall-clock day
/// count: a week runs Monday to Sunday and belongs to the year that holds its
/// Thursday; week 1 is the one holding that year's first Thursday.
pub open spec fn iso_calendar_of(days: int) -> (int, int, int) {
    let wd = weekday_of(days);
    let thu = days - wd + 3;
    let iy = civil_from_days(thu).0;
    (iy, (thu - days_from_civil(iy, 1, 1)) / 7 + 1, wd + 1)
}

/// A zone's offset from UTC in nanoseconds.
pub open spec fn off_ns(tz: Tz) -> int {
    tz_offset(tz) * 1_000_000_000
}

/// Whether `v` is a value of `i64`.
pub open spec fn fits_i64(v: int) -> bool {
    i64::MIN <= v <= i64::MAX
}

/// The instant `ns` floored to a multiple of `unit` on the wall clock of `tz`.
pub open spec fn wall_floor_of(ns: int, tz: Tz, unit: int) -> int {
    ((ns + off_ns(tz)) / unit) * unit - off_ns(tz)
}

/// Whether each step of the wall-clock floor stays within `i64`.
pub open spec fn floor_fits(ns: int, tz: Tz, unit: int) -> bool {
    &&& fits_i64(ns + off_ns(tz))
    &&& fits_i64(((ns + off_ns(tz)) / unit) * unit)
    &&& fits_i64(wall_floor_of(ns, tz, unit))
}

/// The instant `ns` raised to a multiple of `unit` on the wall clock.
pub open spec fn wall_ceil_of(ns: int, tz: Tz, unit: int) -> int {
    let f = wall_floor_of(ns, tz, unit);
    if f == ns { f } else { f + unit }
}

/// Whether each step of the wall-clock ceiling stays within `i64`.
pub open spec fn ceil_fits(ns: int, tz: Tz, unit: int) -> bool {
    floor_fits(ns, tz, unit) && fits_i64(wall_ceil_of(ns, tz, unit))
}

/// Integer division rounding toward zero (Rust's `/`).
pub open spec fn trunc_div(a: int, b: int) -> int {
    if a >= 0 { a / b } else { -((-a) / b) }
}

/// Whether rounding goes up: past the midpoint, or exactly on it when the
/// floor is an odd multiple of `unit` (ties go to the even multiple).
pub open spec fn rounds_up(ns: int, tz: Tz, unit: int) -> bool {
    let f = wall_floor_of(ns, tz, unit);
    let rem = ns - f;
    rem * 2 > unit || (rem * 2 == unit && trunc_div(f, unit) % 2 != 0)
}

/// The instant `ns` rounded to the nearest multiple of `unit` on the wall
/// clock, ties to even.
pub open spec fn wall_round_of(ns: int, tz: Tz, unit: int) -> int {
    let f = wall_floor_of(ns, tz, unit);
    if rounds_up(ns, tz, unit) { f + unit } else { f }
}

/// Whether each step of the rounding stays within `i64`.
pub open spec fn round_fits(ns: int, tz: Tz, unit: int) -> bool {
    &&& floor_fits(ns, tz, unit)
    &&& fits_i64((ns - wall_floor_of(ns, tz, unit)) * 2)
    &&& fits_i64(wall_round_of(ns, tz, unit))
}

/// A nanosecond count a timestamp can hold: within `i64` and not the `NaT`
/// sentinel `i64::MIN`.
pub open spec fn ns_ok(v: int) -> bool {
    fits_i64(v) && v != i64::MIN
}

/// The `+HH:MM` / `-HH:MM` text of an offset in seconds.
pub open spec fn offset_suffix(off: int) -> Seq<char> {
    let a = if off < 0 { -off } else { off };
    (if off < 0 { seq!['-'] } else { seq!['+'] }) + zero_padded(a / 3600, 2) + seq![':']
        + zero_padded((a % 3600) / 60, 2)
}

/// `YYYY-MM-DDTHH:MM:SS` of civil fields `(days, y, mo, d, h, mi, s)`.
pub open spec fn clock_text(p: (int, int, int, int, int, int, int)) -> Seq<char> {
    zero_padded(p.1, 4) + seq!['-'] + zero_padded(p.2, 2) + seq!['-'] + zero_padded(p.3, 2)
        + seq!['T'] + zero_padded(p.4, 2) + seq![':'] + zero_padded(p.5, 2) + seq![':']
        + zero_padded(p.6, 2)
}

/// The fraction of a second `sub` (nanoseconds): nothing when zero, six
/// digits when it is whole microseconds, nine otherwise.
pub open spec fn fraction_text(sub: int) -> Seq<char> {
    if sub == 0 {
        Seq::<char>::empty()
    } else if sub % 1000 == 0 {
        seq!['.'] + zero_padded(sub / 1000, 6)
    } else {
        seq!['.'] + zero_padded(sub, 9)
    }
}

/// The offset suffix of an aware zone; nothing for a naive one.
pub open spec fn zone_text(tz: Tz) -> Seq<char> {
    if tz is Naive {
        Seq::<char>::empty()
    } else {
        offset_suffix(tz_offset(tz))
    }
}

/// The ISO-8601 wall-clock text of an instant: `YYYY-MM-DDTHH:MM:SS`, then
/// `.ffffff` (whole microseconds) or `.fffffffff` when there is a fraction,
/// then the zone's offset when the timestamp is aware.
pub open spec fn isoformat_of(ns: int, tz: Tz) -> Seq<char> {
    clock_text(spec_civil_parts(ns, tz)) + fraction_text(ns % 1_000_000_000) + zone_text(tz)
}

fn push_clock(out: &mut String, p: (i64, i64, i64, i64, i64, i64, i64))
    ensures
        final(out)@ == old(out)@ + clock_text(
            (p.0 as int, p.1 as int, p.2 as int, p.3 as int, p.4 as int, p.5 as int, p.6 as int),
        ),
{
    proof {
        reveal_strlit("-");
        reveal_strlit("T");
        reveal_strlit(":");
    }
    push_zero_padded(out, p.1, 4);
    out.append("-");
    push_zero_padded(out, p.2, 2);
    out.append("-");
    push_zero_padded(out, p.3, 2);
    out.append("T");
    push_zero_padded(out, p.4, 2);
    out.append(":");
    push_zero_padded(out, p.5, 2);
    out.append(":");
    push_zero_padded(out, p.6, 2);
    assert(final(out)@ =~= old(out)@ + clock_text(
        (p.0 as int, p.1 as int, p.2 as int, p.3 as int, p.4 as int, p.5 as int, p.6 as int),
    ));
}

fn push_fraction(out: &mut String, sub: i64)
    requires
        0 <= sub,
    ensures
        final(out)@ == old(out)@ + fraction_text(sub as int),
{
    proof {
        reveal_strlit(".");
    }
    if sub != 0 {
        out.append(".");
        if sub % 1000 == 0 {
            push_zero_padded(out, sub / 1000, 6);
        } else {
            push_zero_padded(out, sub, 9);
        }
    }
    assert(final(out)@ =~= old(out)@ + fraction_text(sub as int));
}

fn push_zone(out: &mut String, tz: Tz)
    requires
        tz_ok(tz),
    ensures
        final(out)@ == old(out)@ + zone_text(tz),
{
    proof {
        reveal_strlit("-");
        reveal_strlit("+");
        reveal_strlit(":");
    }
    match tz {
        Tz::Naive => {},
        _ => {
            let off: i64 = match tz {
                Tz::Fixed(o) => o as i64,
                _ => 0,
            };
            let a: i64 = if off < 0 { -off } else { off };
            if off < 0 {
                out.append("-");
            } else {
                out.append("+");
            }
            push_zero_padded(out, a / 3600, 2);
            out.append(":");
            push_zero_padded(out, (a % 3600) / 60, 2);
        },
    }
    assert(final(out)@ =~= old(out)@ + zone_text(tz));
}

/// Rust's `/` on a negative dividend, in terms of floor division.
proof fn lemma_trunc_div(f: int, u: int)
    requires
        u > 0,
        f < 0,
    ensures
        trunc_div(f, u) == if f % u == 0 { f / u } else { f / u + 1 },
{
    let k = f / u;
    let r = f % u;
    vstd::arithmetic::div_mod::lemma_fundamental_div_mod(f, u);
    assert(f == k * u + r) by (nonlinear_arith)
        requires
            f == u * k + r,
    ;
    if r == 0 {
        assert(-f == (-k) * u + 0) by (nonlinear_arith)
            requires
                f == k * u + r,
                r == 0,
        ;
        vstd::arithmetic::div_mod::lemma_fundamental_div_mod_converse(-f, u, -k, 0);
    } else {
        assert(-f == (-k - 1) * u + (u - r)) by (nonlinear_arith)
            requires
                f == k * u + r,
        ;
        vstd::arithmetic::div_mod::lemma_fundamental_div_mod_converse(-f, u, -k - 1, u - r);
    }
}

/// The wall-clock floor is a boundary of the frequency grid at or before the
/// instant, less than one step before it.
pub proof fn law_floor_brackets(ns: int, tz: Tz, unit: int)
    requires
        unit > 0,
    ensures
        wall_floor_of(ns, tz, unit) <= ns < wall_floor_of(ns, tz, unit) + unit,
        (wall_floor_of(ns, tz, unit) + off_ns(tz)) % unit == 0,
{
    let w = ns + off_ns(tz);
    vstd::arithmetic::div_mod::lemma_fundamental_div_mod(w, unit);
    assert((w / unit) * unit == unit * (w / unit)) by (nonlinear_arith);
    vstd::arithmetic::div_mod::lemma_mod_multiples_basic(w / unit, unit);
}

/// The wall-clock ceiling is a boundary of the frequency grid at or after the
/// instant, less than one step after it.
pub proof fn law_ceil_brackets(ns: int, tz: Tz, unit: int)
    requires
        unit > 0,
    ensures
        ns <= wall_ceil_of(ns, tz, unit) < ns + unit,
        (wall_ceil_of(ns, tz, unit) + off_ns(tz)) % unit == 0,
{
    law_floor_brackets(ns, tz, unit);
    let f = wall_floor_of(ns, tz, unit);
    if f != ns {
        vstd::arithmetic::div_mod::lemma_mod_add_multiples_vanish(f + off_ns(tz), unit);
    }
}

/// Rounding picks the floor or the ceiling, whichever is nearer: the result is
/// at most half a step away from the instant.
pub proof fn law_round_nearest(ns: int, tz: Tz, unit: int)
    requires
        unit > 0,
    ensures
        wall_round_of(ns, tz, unit) == wall_floor_of(ns, tz, unit) || wall_round_of(ns, tz, unit)
            == wall_ceil_of(ns, tz, unit),
        (if wall_round_of(ns, tz, unit) >= ns {
            wall_round_of(ns, tz, unit) - ns
        } else {
            ns - wall_round_of(ns, tz, unit)
        }) * 2 <= unit,
{
    law_floor_brackets(ns, tz, unit);
}

/// Anchoring a naive timestamp in a zone keeps its wall clock: the localized
/// instant shows the same calendar fields in the new zone as the naive one
/// showed.
pub proof fn law_localize_keeps_wall_clock(ns: int, tz: Tz)
    requires
        tz_ok(tz),
    ensures
        spec_civil_parts(ns - off_ns(tz), tz) == spec_civil_parts(ns, Tz::Naive),
{
    vstd::arithmetic::div_mod::lemma_hoist_over_denominator(ns, -tz_offset(tz), 1_000_000_000);
    assert(crate::time_frame::wall_secs(ns - off_ns(tz), tz) == crate::time_frame::wall_secs(ns, Tz::Naive));
}

impl Timestamp {
    #[verifier::type_invariant]
    spec fn zone_ok(self) -> bool {
        tz_ok(self.tz)
    }
}

impl View for Timestamp {
    type V = (int, Tz);

    closed spec fn view(&self) -> (int, Tz) {
        (self.ns as int, self.tz)
    }
}

impl Timestamp {
    /// The timestamp at UTC instant `ns`, shown in `tz`.
    pub fn new(ns: i64, tz: Tz) -> (r: Timestamp)
        requires
            tz_ok(tz),
        ensures
            r@ == (ns as int, tz),
    {
        Timestamp { ns, tz }
    }

    /// The instant as UTC epoch nanoseconds.
    pub fn value(&self) -> (r: i64)
        ensures
            r == self@.0,
    {
        self.ns
    }

    /// The zone, or `None` when the timestamp is naive.
    pub fn tz(&self) -> (r: Option<Tz>)
        ensures
            r == (if self@.1 is Naive { None } else { Some(self@.1) }),
    {
        match self.tz {
            Tz::Naive => None,
            other => Some(other),
        }
    }

    fn parts(&self) -> (r: (i64, i64, i64, i64, i64, i64, i64))
        ensures
            (r.0 as int, r.1 as int, r.2 as int, r.3 as int, r.4 as int, r.5 as int, r.6 as int)
                == spec_civil_parts(self@.0, self@.1),
            -200_000 <= r.0 <= 200_000,
            -1000 <= r.1 <= 5000,
            1 <= r.2 <= 12,
            1 <= r.3 <= 31,
            0 <= r.4 < 24,
            0 <= r.5 < 60,
            0 <= r.6 < 60,
    {
        proof {
            use_type_invariant(self);
        }
        civil_parts(self.ns, self.tz)
    }

    /// Calendar year on the wall clock.
    pub fn year(&self) -> (r: i64)
        ensures
            r == spec_civil_parts(self@.0, self@.1).1,
    {
        self.parts().1
    }

    /// Calendar month on the wall clock, 1..=12.
    pub fn month(&self) -> (r: i64)
        ensures
            r == spec_civil_parts(self@.0, self@.1).2,
            1 <= r <= 12,
    {
        self.parts().2
    }

    /// Day of the month on the wall clock, 1..=31.
    pub fn day(&self) -> (r: i64)
        ensures
            r == spec_civil_parts(self@.0, self@.1).3,
            1 <= r <= 31,
    {
        self.parts().3
    }

    /// Hour on the wall clock, 0..=23.
    pub fn hour(&self) -> (r: i64)
        ensures
            r == spec_civil_parts(self@.0, self@.1).4,
            0 <= r < 24,
    {
        self.parts().4
    }

    /// Minute on the wall clock, 0..=59.
    pub fn minute(&self) -> (r: i64)
        ensures
            r == spec_civil_parts(self@.0, self@.1).5,
            0 <= r < 60,
    {
        self.parts().5
    }

    /// Second on the wall clock, 0..=59.
    pub fn second(&self) -> (r: i64)
        ensures
            r == spec_civil_parts(self@.0, self@.1).6,
            0 <= r < 60,
    {
        self.parts().6
    }

    /// Day of the week, Monday = 0 .. Sunday = 6.
    pub fn weekday(&self) -> (r: i64)
        ensures
            r == weekday_of(spec_civil_parts(self@.0, self@.1).0),
            0 <= r < 7,
    {
        let days = self.parts().0;
        mod_floor(days + 3, 7)
    }

    /// Day of the week, Monday = 0 (the property form of [`Timestamp::weekday`]).
    pub fn dayofweek(&self) -> (r: i64)
        ensures
            r == weekday_of(spec_civil_parts(self@.0, self@.1).0),
    {
        self.weekday()
    }

    /// The other spelling of [`Timestamp::dayofweek`].
    pub fn day_of_week(&self) -> (r: i64)
        ensures
            r == weekday_of(spec_civil_parts(self@.0, self@.1).0),
    {
        self.weekday()
    }

    /// ISO day of the week, Monday = 1 .. Sunday = 7.
    pub fn isoweekday(&self) -> (r: i64)
        ensures
            r == weekday_of(spec_civil_parts(self@.0, self@.1).0) + 1,
    {
        self.weekday() + 1
    }

    /// The microseconds within the second, 0..=999_999.
    pub fn microsecond(&self) -> (r: i64)
        ensures
            r == (self@.0 % 1_000_000_000) / 1000,
            0 <= r < 1_000_000,
    {
        mod_floor(self.ns, 1_000_000_000) / 1000
    }

    /// The nanoseconds within the microsecond, 0..=999.
    pub fn nanosecond(&self) -> (r: i64)
        ensures
            r == self@.0 % 1000,
            0 <= r < 1000,
    {
        mod_floor(self.ns, 1000)
    }

    /// Quarter of the year, 1..=4.
    pub fn quarter(&self) -> (r: i64)
        ensures
            r == (spec_civil_parts(self@.0, self@.1).2 - 1) / 3 + 1,
            1 <= r <= 4,
    {
        (self.month() - 1) / 3 + 1
    }

    /// Ordinal day of the year, 1..=366.
    pub fn dayofyear(&self) -> (r: i64)
        ensures
            ({
                let p = spec_civil_parts(self@.0, self@.1);
                r == days_from_civil(p.1, p.2, p.3) - days_from_civil(p.1, 1, 1) + 1
            }),
            1 <= r <= 366,
    {
        let p = self.parts();
        proof {
            lemma_civil_roundtrip(p.0 as int);
            lemma_day_of_year(p.1 as int, p.2 as int, p.3 as int);
        }
        days_from_civil_exec(p.1, p.2, p.3) - days_from_civil_exec(p.1, 1, 1) + 1
    }

    /// The other spelling of [`Timestamp::dayofyear`].
    pub fn day_of_year(&self) -> (r: i64)
        ensures
            ({
                let p = spec_civil_parts(self@.0, self@.1);
                r == days_from_civil(p.1, p.2, p.3) - days_from_civil(p.1, 1, 1) + 1
            }),
    {
        self.dayofyear()
    }

    /// Number of days in the timestamp's month, 28..=31.
    pub fn days_in_month(&self) -> (r: i64)
        ensures
            ({
                let p = spec_civil_parts(self@.0, self@.1);
                r == days_in_month(p.1, p.2)
            }),
            28 <= r <= 31,
    {
        let p = self.parts();
        days_in_month_of(p.1, p.2)
    }

    /// The other spelling of [`Timestamp::days_in_month`].
    pub fn daysinmonth(&self) -> (r: i64)
        ensures
            ({
                let p = spec_civil_parts(self@.0, self@.1);
                r == days_in_month(p.1, p.2)
            }),
    {
        self.days_in_month()
    }

    /// Whether this is the first day of its month.
    pub fn is_month_start(&self) -> (r: bool)
        ensures
            r == (spec_civil_parts(self@.0, self@.1).3 == 1),
    {
        self.day() == 1
    }

    /// Whether this is the last day of its month.
    pub fn is_month_end(&self) -> (r: bool)
        ensures
            ({
                let p = spec_civil_parts(self@.0, self@.1);
                r == (p.3 == days_in_month(p.1, p.2))
            }),
    {
        self.day() == self.days_in_month()
    }

    /// Whether this is the first day of its quarter.
    pub fn is_quarter_start(&self) -> (r: bool)
        ensures
            ({
                let p = spec_civil_parts(self@.0, self@.1);
                r == (p.3 == 1 && (p.2 - 1) % 3 == 0)
            }),
    {
        self.day() == 1 && (self.month() - 1) % 3 == 0
    }

    /// Whether this is the last day of its quarter.
    pub fn is_quarter_end(&self) -> (r: bool)
        ensures
            ({
                let p = spec_civil_parts(self@.0, self@.1);
                r == (p.2 % 3 == 0 && p.3 == days_in_month(p.1, p.2))
            }),
    {
        self.month() % 3 == 0 && self.day() == self.days_in_month()
    }

    /// Whether this is January 1st.
    pub fn is_year_start(&self) -> (r: bool)
        ensures
            ({
                let p = spec_civil_parts(self@.0, self@.1);
                r == (p.2 == 1 && p.3 == 1)
            }),
    {
        self.month() == 1 && self.day() == 1
    }

    /// Whether this is December 31st.
    pub fn is_year_end(&self) -> (r: bool)
        ensures
            ({
                let p = spec_civil_parts(self@.0, self@.1);
                r == (p.2 == 12 && p.3 == 31)
            }),
    {
        self.month() == 12 && self.day() == 31
    }

    /// Whether the timestamp's year is a leap year.
    pub fn is_leap_year(&self) -> (r: bool)
        ensures
            r == is_leap_year(spec_civil_parts(self@.0, self@.1).1),
    {
        let y = self.year();
        (mod_floor(y, 4) == 0 && mod_floor(y, 100) != 0) || mod_floor(y, 400) == 0
    }

    /// The English name of the day, e.g. `"Monday"`.
    pub fn day_name(&self) -> (r: &'static str)
        ensures
            r@ == day_name_of(weekday_of(spec_civil_parts(self@.0, self@.1).0)),
    {
        let wd = self.weekday();
        if wd == 0 {
            "Monday"
        } else if wd == 1 {
            "Tuesday"
        } else if wd == 2 {
            "Wednesday"
        } else if wd == 3 {
            "Thursday"
        } else if wd == 4 {
            "Friday"
        } else if wd == 5 {
            "Saturday"
        } else {
            "Sunday"
        }
    }

    /// The English name of the month, e.g. `"June"`.
    pub fn month_name(&self) -> (r: &'static str)
        ensures
            r@ == month_name_of(spec_civil_parts(self@.0, self@.1).2),
    {
        let m = self.month();
        if m == 1 {
            "January"
        } else if m == 2 {
            "February"
        } else if m == 3 {
            "March"
        } else if m == 4 {
            "April"
        } else if m == 5 {
            "May"
        } else if m == 6 {
            "June"
        } else if m == 7 {
            "July"
        } else if m == 8 {
            "August"
        } else if m == 9 {
            "September"
        } else if m == 10 {
            "October"
        } else if m == 11 {
            "November"
        } else {
            "December"
        }
    }

    /// The ISO calendar triple `(iso_year, iso_week, iso_weekday)`.
    pub fn isocalendar(&self) -> (r: (i64, i64, i64))
        ensures
            (r.0 as int, r.1 as int, r.2 as int) == iso_calendar_of(
                spec_civil_parts(self@.0, self@.1).0,
            ),
            1 <= r.1 <= 53,
            1 <= r.2 <= 7,
    {
        let days = self.parts().0;
        let wd = mod_floor(days + 3, 7);
        let thu = days - wd + 3;
        let (iy, im, id) = civil_from_days_exec(thu);
        proof {
            lemma_civil_roundtrip(thu as int);
            lemma_day_of_year(iy as int, im as int, id as int);
        }
        let jan1 = days_from_civil_exec(iy, 1, 1);
        (iy, (thu - jan1) / 7 + 1, wd + 1)
    }

    /// ISO week number, 1..=53.
    pub fn week(&self) -> (r: i64)
        ensures
            r == iso_calendar_of(spec_civil_parts(self@.0, self@.1).0).1,
            1 <= r <= 53,
    {
        self.isocalendar().1
    }

    /// The other spelling of [`Timestamp::week`].
    pub fn weekofyear(&self) -> (r: i64)
        ensures
            r == iso_calendar_of(spec_civil_parts(self@.0, self@.1).0).1,
    {
        self.week()
    }

    /// The wall-clock floor of the instant to a multiple of `unit` nanoseconds.
    fn floor_to(&self, unit: i64) -> (r: i64)
        requires
            unit > 0,
            floor_fits(self@.0, self@.1, unit as int),
        ensures
            r == wall_floor_of(self@.0, self@.1, unit as int),
    {
        proof {
            use_type_invariant(self);
        }
        let off: i64 = match self.tz {
            Tz::Fixed(o) => o as i64 * 1_000_000_000,
            _ => 0,
        };
        let wall = self.ns + off;
        div_floor(wall, unit) * unit - off
    }

    /// Floor to a frequency boundary of the wall clock (`'D'`, `'h'`, `'min'`,
    /// `'s'`, `'ms'`, `'us'`, `'ns'`, with an optional multiple such as
    /// `'15min'`). An unknown frequency is a `Value` error.
    pub fn floor(&self, freq: &str) -> (r: Result<Timestamp, VolasError>)
        requires
            spec_parse_freq_ns(freq@) is Some ==> floor_fits(
                self@.0,
                self@.1,
                spec_parse_freq_ns(freq@).unwrap(),
            ),
        ensures
            match r {
                Ok(t) => spec_parse_freq_ns(freq@) is Some && t@ == (
                    wall_floor_of(self@.0, self@.1, spec_parse_freq_ns(freq@).unwrap()),
                    self@.1,
                ),
                Err(e) => spec_parse_freq_ns(freq@) is None && e is Value,
            },
    {
        let unit = parse_freq_ns(freq)?;
        proof {
            use_type_invariant(self);
        }
        Ok(Timestamp { ns: self.floor_to(unit), tz: self.tz })
    }

    /// Ceil to a frequency boundary of the wall clock (see [`Timestamp::floor`]).
    pub fn ceil(&self, freq: &str) -> (r: Result<Timestamp, VolasError>)
        requires
            spec_parse_freq_ns(freq@) is Some ==> ceil_fits(
                self@.0,
                self@.1,
                spec_parse_freq_ns(freq@).unwrap(),
            ),
        ensures
            match r {
                Ok(t) => spec_parse_freq_ns(freq@) is Some && t@ == (
                    wall_ceil_of(self@.0, self@.1, spec_parse_freq_ns(freq@).unwrap()),
                    self@.1,
                ),
                Err(e) => spec_parse_freq_ns(freq@) is None && e is Value,
            },
    {
        let unit = parse_freq_ns(freq)?;
        proof {
            use_type_invariant(self);
        }
        let f = self.floor_to(unit);
        let ns = if f == self.ns { f } else { f + unit };
        Ok(Timestamp { ns, tz: self.tz })
    }

    /// Round to the nearest frequency boundary of the wall clock, ties to the
    /// even multiple (see [`Timestamp::floor`]).
    pub fn round(&self, freq: &str) -> (r: Result<Timestamp, VolasError>)
        requires
            spec_parse_freq_ns(freq@) is Some ==> round_fits(
                self@.0,
                self@.1,
                spec_parse_freq_ns(freq@).unwrap(),
            ),
        ensures
            match r {
                Ok(t) => spec_parse_freq_ns(freq@) is Some && t@ == (
                    wall_round_of(self@.0, self@.1, spec_parse_freq_ns(freq@).unwrap()),
                    self@.1,
                ),
                Err(e) => spec_parse_freq_ns(freq@) is None && e is Value,
            },
    {
        let unit = parse_freq_ns(freq)?;
        proof {
            use_type_invariant(self);
        }
        let f = self.floor_to(unit);
        let rem = self.ns - f;
        let half_up = rem * 2 > unit;
        let up = if half_up {
            true
        } else if rem * 2 == unit {
            let q: i64 = if f >= 0 {
                f / unit
            } else {
                // rounding toward zero, written without negating `f`
                let k = div_floor(f, unit);
                let m = mod_floor(f, unit);
                proof {
                    lemma_trunc_div(f as int, unit as int);
                }
                if m == 0 { k } else { k + 1 }
            };
            q % 2 != 0
        } else {
            false
        };
        let ns = if up { f + unit } else { f };
        Ok(Timestamp { ns, tz: self.tz })
    }

    /// Midnight of the wall-clock day.
    pub fn normalize(&self) -> (r: Timestamp)
        requires
            floor_fits(self@.0, self@.1, 86_400_000_000_000),
        ensures
            r@ == (wall_floor_of(self@.0, self@.1, 86_400_000_000_000), self@.1),
    {
        proof {
            use_type_invariant(self);
        }
        Timestamp { ns: self.floor_to(86_400_000_000_000), tz: self.tz }
    }

    /// The timestamp `delta` nanoseconds later. A result outside `i64`, or
    /// on the `NaT` sentinel, is an `Overflow` error.
    pub fn add_ns(&self, delta: i64) -> (r: Result<Timestamp, VolasError>)
        ensures
            match r {
                Ok(t) => ns_ok(self@.0 + delta) && t@ == (self@.0 + delta, self@.1),
                Err(e) => !ns_ok(self@.0 + delta) && e is Overflow,
            },
    {
        proof {
            use_type_invariant(self);
        }
        match self.ns.checked_add(delta) {
            Some(v) if v != i64::MIN => Ok(Timestamp { ns: v, tz: self.tz }),
            _ => Err(VolasError::Overflow(
                "Timestamp arithmetic overflows the representable datetime64[ns] range".to_owned(),
            )),
        }
    }

    /// The timestamp `delta` nanoseconds earlier (checked as in
    /// [`Timestamp::add_ns`]).
    pub fn sub_ns(&self, delta: i64) -> (r: Result<Timestamp, VolasError>)
        ensures
            match r {
                Ok(t) => ns_ok(self@.0 - delta) && t@ == (self@.0 - delta, self@.1),
                Err(e) => !ns_ok(self@.0 - delta) && e is Overflow,
            },
    {
        proof {
            use_type_invariant(self);
        }
        match self.ns.checked_sub(delta) {
            Some(v) if v != i64::MIN => Ok(Timestamp { ns: v, tz: self.tz }),
            _ => Err(VolasError::Overflow(
                "Timestamp arithmetic overflows the representable datetime64[ns] range".to_owned(),
            )),
        }
    }

    /// The time from `other` to this timestamp in nanoseconds (checked as in
    /// [`Timestamp::add_ns`]).
    pub fn since(&self, other: &Timestamp) -> (r: Result<i64, VolasError>)
        ensures
            match r {
                Ok(d) => ns_ok(self@.0 - other@.0) && d == self@.0 - other@.0,
                Err(e) => !ns_ok(self@.0 - other@.0) && e is Overflow,
            },
    {
        match self.ns.checked_sub(other.ns) {
            Some(v) if v != i64::MIN => Ok(v),
            _ => Err(VolasError::Overflow(
                "Timestamp arithmetic overflows the representable datetime64[ns] range".to_owned(),
            )),
        }
    }

    /// The storage resolution, always `"ns"`.
    pub fn unit(&self) -> (r: &'static str)
        ensures
            r@ == "ns"@,
    {
        "ns"
    }

    /// The same timestamp when `unit` is `"ns"`; any other unit is a `Value`
    /// error (timestamps hold nanoseconds only).
    pub fn as_unit(&self, unit: &str) -> (r: Result<Timestamp, VolasError>)
        ensures
            match r {
                Ok(t) => unit@ == "ns"@ && t@ == self@,
                Err(e) => unit@ != "ns"@ && e is Value,
            },
    {
        proof {
            use_type_invariant(self);
        }
        if crate::text::same_text(unit, "ns") {
            Ok(Timestamp { ns: self.ns, tz: self.tz })
        } else {
            Err(VolasError::Value(
                "volas Timestamps are ns-resolution; only as_unit('ns') is supported".to_owned(),
            ))
        }
    }

    /// Anchor a naive timestamp's wall clock in `tz`: the wall clock stays,
    /// the instant moves. An aware timestamp is a `Type` error.
    pub fn tz_localize(&self, tz: Tz) -> (r: Result<Timestamp, VolasError>)
        requires
            tz_ok(tz),
            self@.1 is Naive ==> fits_i64(self@.0 - off_ns(tz)),
        ensures
            match r {
                Ok(t) => self@.1 is Naive && t@ == (self@.0 - off_ns(tz), tz),
                Err(e) => !(self@.1 is Naive) && e is Type,
            },
    {
        match self.tz {
            Tz::Naive => {
                let off: i64 = match tz {
                    Tz::Fixed(o) => o as i64 * 1_000_000_000,
                    _ => 0,
                };
                Ok(Timestamp { ns: self.ns - off, tz })
            },
            _ => Err(VolasError::Type("Timestamp is already tz-aware; use tz_convert".to_owned())),
        }
    }

    /// Show an aware timestamp in another zone: the instant stays, the wall
    /// clock moves. A naive timestamp is a `Type` error.
    pub fn tz_convert(&self, tz: Tz) -> (r: Result<Timestamp, VolasError>)
        requires
            tz_ok(tz),
        ensures
            match r {
                Ok(t) => !(self@.1 is Naive) && t@ == (self@.0, tz),
                Err(e) => self@.1 is Naive && e is Type,
            },
    {
        match self.tz {
            Tz::Naive => Err(VolasError::Type(
                "cannot tz_convert a tz-naive Timestamp; use tz_localize to anchor it first".to_owned(),
            )),
            _ => Ok(Timestamp { ns: self.ns, tz }),
        }
    }

    /// The other spelling of [`Timestamp::tz_convert`].
    pub fn astimezone(&self, tz: Tz) -> (r: Result<Timestamp, VolasError>)
        requires
            tz_ok(tz),
        ensures
            match r {
                Ok(t) => !(self@.1 is Naive) && t@ == (self@.0, tz),
                Err(e) => self@.1 is Naive && e is Type,
            },
    {
        self.tz_convert(tz)
    }

    /// The ISO-8601 wall-clock text, with the zone's offset when aware.
    pub fn isoformat(&self) -> (r: String)
        ensures
            r@ == isoformat_of(self@.0, self@.1),
    {
        proof {
            use_type_invariant(self);
        }
        let p = self.parts();
        let mut out = String::new();
        push_clock(&mut out, p);
        push_fraction(&mut out, mod_floor(self.ns, 1_000_000_000));
        push_zone(&mut out, self.tz);
        assert(out@ =~= isoformat_of(self@.0, self@.1));
        out
    }
}

} // verus!
