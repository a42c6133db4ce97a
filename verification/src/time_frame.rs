//! Time frames and their period-key unification.

use vstd::prelude::*;

use crate::civil::{civil_from_days, civil_from_days_exec, div_floor};
use crate::error::VolasError;
use crate::text::same_text;

verus! {

/// Magnitude-positional encoding of a truncated civil datetime, so that for
/// seconds `2020-01-02 03:04:05` unifies to `20200102030405`.
pub const SEC: i64 = 1;
pub const MIN: i64 = 100;
pub const HOUR: i64 = 10_000;
pub const DAY: i64 = 1_000_000;
pub const MONTH: i64 = 100_000_000;
pub const YEAR: i64 = 10_000_000_000;

/// Nanoseconds per second.
pub const NS_PER_SEC: i64 = 1_000_000_000;

/// An OHLCV sampling period.
#[derive(Clone, Copy, Debug, PartialEq, Eq, Structural)]
pub enum TimeFrame {
    Sec1,
    Min1,
    Min3,
    Min5,
    Min15,
    Min30,
    Hour1,
    Hour2,
    Hour4,
    Hour6,
    Hour8,
    Hour12,
    Day1,
    Day3,
    Week1,
    Month1,
    Year1,
}

/// The wall clock in which timestamps are bucketed. Storage is always UTC
/// nanoseconds; a fixed offset shifts the wall clock by whole seconds.
#[derive(Clone, Copy, Debug, PartialEq, Eq, Structural)]
pub enum Tz {
    /// No zone: the instant is read as UTC wall time.
    Naive,
    /// UTC.
    Utc,
    /// A fixed offset east of UTC, in seconds (strictly less than a day).
    Fixed(i32),
}

/// The offset of a zone's wall clock from UTC, in seconds.
pub open spec fn tz_offset(tz: Tz) -> int {
    match tz {
        Tz::Fixed(o) => o as int,
        _ => 0,
    }
}

/// A zone whose offset is less than a day.
pub open spec fn tz_ok(tz: Tz) -> bool {
    -86400 < tz_offset(tz) < 86400
}

/// The canonical label of a frame.
pub open spec fn spec_label(tf: TimeFrame) -> Seq<char> {
    match tf {
        TimeFrame::Sec1 => "1s"@,
        TimeFrame::Min1 => "1m"@,
        TimeFrame::Min3 => "3m"@,
        TimeFrame::Min5 => "5m"@,
        TimeFrame::Min15 => "15m"@,
        TimeFrame::Min30 => "30m"@,
        TimeFrame::Hour1 => "1h"@,
        TimeFrame::Hour2 => "2h"@,
        TimeFrame::Hour4 => "4h"@,
        TimeFrame::Hour6 => "6h"@,
        TimeFrame::Hour8 => "8h"@,
        TimeFrame::Hour12 => "12h"@,
        TimeFrame::Day1 => "1d"@,
        TimeFrame::Day3 => "3d"@,
        TimeFrame::Week1 => "1w"@,
        TimeFrame::Month1 => "1M"@,
        TimeFrame::Year1 => "1y"@,
    }
}

/// The frame a label names: the canonical labels, plus upper-case aliases for
/// every unit but minutes and months (where case tells `m` from `M`).
pub open spec fn spec_from_label(s: Seq<char>) -> Option<TimeFrame> {
    if s == "1s"@ || s == "1S"@ {
        Some(TimeFrame::Sec1)
    } else if s == "1m"@ {
        Some(TimeFrame::Min1)
    } else if s == "3m"@ {
        Some(TimeFrame::Min3)
    } else if s == "5m"@ {
        Some(TimeFrame::Min5)
    } else if s == "15m"@ {
        Some(TimeFrame::Min15)
    } else if s == "30m"@ {
        Some(TimeFrame::Min30)
    } else if s == "1h"@ || s == "1H"@ {
        Some(TimeFrame::Hour1)
    } else if s == "2h"@ || s == "2H"@ {
        Some(TimeFrame::Hour2)
    } else if s == "4h"@ || s == "4H"@ {
        Some(TimeFrame::Hour4)
    } else if s == "6h"@ || s == "6H"@ {
        Some(TimeFrame::Hour6)
    } else if s == "8h"@ || s == "8H"@ {
        Some(TimeFrame::Hour8)
    } else if s == "12h"@ || s == "12H"@ {
        Some(TimeFrame::Hour12)
    } else if s == "1d"@ || s == "1D"@ {
        Some(TimeFrame::Day1)
    } else if s == "3d"@ || s == "3D"@ {
        Some(TimeFrame::Day3)
    } else if s == "1w"@ || s == "1W"@ {
        Some(TimeFrame::Week1)
    } else if s == "1M"@ {
        Some(TimeFrame::Month1)
    } else if s == "1y"@ || s == "1Y"@ {
        Some(TimeFrame::Year1)
    } else {
        None
    }
}

/// The message of the error for an unknown label.
pub open spec fn invalid_time_frame_message(s: Seq<char>) -> Seq<char> {
    "\""@ + s + "\" is an invalid time frame"@
}

/// The fixed duration in seconds of the fixed-length frames.
pub open spec fn spec_duration(tf: TimeFrame) -> Option<int> {
    match tf {
        TimeFrame::Sec1 => Some(1),
        TimeFrame::Min1 => Some(60),
        TimeFrame::Min3 => Some(180),
        TimeFrame::Min5 => Some(300),
        TimeFrame::Min15 => Some(900),
        TimeFrame::Min30 => Some(1800),
        TimeFrame::Hour1 => Some(3600),
        TimeFrame::Hour2 => Some(7200),
        TimeFrame::Hour4 => Some(14400),
        TimeFrame::Hour6 => Some(21600),
        TimeFrame::Hour8 => Some(28800),
        TimeFrame::Hour12 => Some(43200),
        TimeFrame::Day1 => Some(86400),
        TimeFrame::Day3 => Some(259200),
        TimeFrame::Week1 => Some(604800),
        TimeFrame::Month1 => None,
        TimeFrame::Year1 => None,
    }
}

/// Frames whose boundaries all fall on the boundaries of whole days.
pub open spec fn day_aligned(tf: TimeFrame) -> bool {
    match tf {
        TimeFrame::Day3 | TimeFrame::Week1 | TimeFrame::Month1 | TimeFrame::Year1 => false,
        _ => true,
    }
}

/// Whether every bucket boundary of `dst` is also one of `src`.
pub open spec fn spec_can_coarsen(src: TimeFrame, dst: TimeFrame) -> bool {
    if src == dst {
        true
    } else {
        match dst {
            TimeFrame::Year1 => src == TimeFrame::Month1 || day_aligned(src),
            TimeFrame::Month1 => day_aligned(src),
            TimeFrame::Week1 => day_aligned(src),
            _ => match (spec_duration(src), spec_duration(dst)) {
                (Some(s), Some(d)) => d > s && d % s == 0,
                _ => false,
            },
        }
    }
}

/// Seconds since the epoch on the wall clock of `tz` at the instant `ns`.
pub open spec fn wall_secs(ns: int, tz: Tz) -> int {
    ns / 1_000_000_000 + tz_offset(tz)
}

/// Whole days since the epoch on the wall clock.
pub open spec fn wall_days(ns: int, tz: Tz) -> int {
    wall_secs(ns, tz) / 86400
}

/// Seconds into the wall-clock day.
pub open spec fn wall_sod(ns: int, tz: Tz) -> int {
    wall_secs(ns, tz) % 86400
}

/// The period key of the instant `ns` in `tz`'s wall clock: the civil fields
/// truncated to the frame, encoded positionally (or, for the 3-day and week
/// frames, the index of the epoch-anchored bucket).
pub open spec fn spec_unify(tf: TimeFrame, ns: int, tz: Tz) -> int {
    let days = wall_days(ns, tz);
    let sod = wall_sod(ns, tz);
    let (y, mo, d) = civil_from_days(days);
    let h = sod / 3600;
    let mi = (sod % 3600) / 60;
    let s = sod % 60;
    let date = d * 1_000_000 + mo * 100_000_000 + y * 10_000_000_000;
    match tf {
        TimeFrame::Sec1 => s + mi * 100 + h * 10_000 + date,
        TimeFrame::Min1 => mi * 100 + h * 10_000 + date,
        TimeFrame::Min3 => (mi / 3) * 100 + h * 10_000 + date,
        TimeFrame::Min5 => (mi / 5) * 100 + h * 10_000 + date,
        TimeFrame::Min15 => (mi / 15) * 100 + h * 10_000 + date,
        TimeFrame::Min30 => (mi / 30) * 100 + h * 10_000 + date,
        TimeFrame::Hour1 => h * 10_000 + date,
        TimeFrame::Hour2 => (h / 2) * 10_000 + date,
        TimeFrame::Hour4 => (h / 4) * 10_000 + date,
        TimeFrame::Hour6 => (h / 6) * 10_000 + date,
        TimeFrame::Hour8 => (h / 8) * 10_000 + date,
        TimeFrame::Hour12 => (h / 12) * 10_000 + date,
        TimeFrame::Day1 => date,
        TimeFrame::Day3 => days / 3,
        TimeFrame::Week1 => (days + 3) / 7,
        TimeFrame::Month1 => mo * 100_000_000 + y * 10_000_000_000,
        TimeFrame::Year1 => y * 10_000_000_000,
    }
}

/// The civil wall-clock fields of the instant `ns` in `tz`.
pub open spec fn spec_civil_parts(ns: int, tz: Tz) -> (int, int, int, int, int, int, int) {
    let days = wall_days(ns, tz);
    let sod = wall_sod(ns, tz);
    let (y, mo, d) = civil_from_days(days);
    (days, y, mo, d, sod / 3600, (sod % 3600) / 60, sod % 60)
}

/// Wall-clock day count and civil fields `(days, year, month, day, hour,
/// minute, second)` of the instant `ns` in `tz`.
pub fn civil_parts(ns: i64, tz: Tz) -> (r: (i64, i64, i64, i64, i64, i64, i64))
    requires
        tz_ok(tz),
    ensures
        (r.0 as int, r.1 as int, r.2 as int, r.3 as int, r.4 as int, r.5 as int, r.6 as int)
            == spec_civil_parts(ns as int, tz),
        -200_000 <= r.0 <= 200_000,
        -1000 <= r.1 <= 5000,
        1 <= r.2 <= 12,
        1 <= r.3 <= 31,
        0 <= r.4 < 24,
        0 <= r.5 < 60,
        0 <= r.6 < 60,
{
    let off: i64 = match tz {
        Tz::Fixed(o) => o as i64,
        _ => 0,
    };
    let secs = div_floor(ns, NS_PER_SEC);
    assert(-9_300_000_000 <= secs <= 9_300_000_000);
    let wall = secs + off;
    let days = div_floor(wall, 86400);
    let sod = wall - days * 86400;
    assert(-200_000 <= days <= 200_000);
    assert(days == wall_days(ns as int, tz));
    assert(sod == wall_sod(ns as int, tz));
    let (y, mo, d) = civil_from_days_exec(days);
    assert(-2 <= (days + 719468) / 146097 <= 7);
    let h = sod / 3600;
    let mi = (sod % 3600) / 60;
    let sec = sod % 60;
    (days, y, mo, d, h, mi, sec)
}

impl TimeFrame {
    /// Parse a label (`"5m"`, `"1h"`, `"1d"`, `"1M"`, `"1w"`, `"1y"`, `"1s"`, plus
    /// upper-case aliases).
    pub fn from_label(s: &str) -> (r: Result<TimeFrame, VolasError>)
        ensures
            match spec_from_label(s@) {
                Some(tf) => r == Ok::<TimeFrame, VolasError>(tf),
                None => r matches Err(VolasError::Value(m)) && m@ == invalid_time_frame_message(s@),
            },
    {
        if same_text(s, "1s") || same_text(s, "1S") {
            Ok(TimeFrame::Sec1)
        } else if same_text(s, "1m") {
            Ok(TimeFrame::Min1)
        } else if same_text(s, "3m") {
            Ok(TimeFrame::Min3)
        } else if same_text(s, "5m") {
            Ok(TimeFrame::Min5)
        } else if same_text(s, "15m") {
            Ok(TimeFrame::Min15)
        } else if same_text(s, "30m") {
            Ok(TimeFrame::Min30)
        } else if same_text(s, "1h") || same_text(s, "1H") {
            Ok(TimeFrame::Hour1)
        } else if same_text(s, "2h") || same_text(s, "2H") {
            Ok(TimeFrame::Hour2)
        } else if same_text(s, "4h") || same_text(s, "4H") {
            Ok(TimeFrame::Hour4)
        } else if same_text(s, "6h") || same_text(s, "6H") {
            Ok(TimeFrame::Hour6)
        } else if same_text(s, "8h") || same_text(s, "8H") {
            Ok(TimeFrame::Hour8)
        } else if same_text(s, "12h") || same_text(s, "12H") {
            Ok(TimeFrame::Hour12)
        } else if same_text(s, "1d") || same_text(s, "1D") {
            Ok(TimeFrame::Day1)
        } else if same_text(s, "3d") || same_text(s, "3D") {
            Ok(TimeFrame::Day3)
        } else if same_text(s, "1w") || same_text(s, "1W") {
            Ok(TimeFrame::Week1)
        } else if same_text(s, "1M") {
            Ok(TimeFrame::Month1)
        } else if same_text(s, "1y") || same_text(s, "1Y") {
            Ok(TimeFrame::Year1)
        } else {
            let mut m = String::new();
            m.append("\"");
            m.append(s);
            m.append("\" is an invalid time frame");
            Err(VolasError::Value(m))
        }
    }

    /// The canonical label, e.g. `"5m"`.
    pub fn label(&self) -> (r: &'static str)
        ensures
            r@ == spec_label(*self),
    {
        match self {
            TimeFrame::Sec1 => "1s",
            TimeFrame::Min1 => "1m",
            TimeFrame::Min3 => "3m",
            TimeFrame::Min5 => "5m",
            TimeFrame::Min15 => "15m",
            TimeFrame::Min30 => "30m",
            TimeFrame::Hour1 => "1h",
            TimeFrame::Hour2 => "2h",
            TimeFrame::Hour4 => "4h",
            TimeFrame::Hour6 => "6h",
            TimeFrame::Hour8 => "8h",
            TimeFrame::Hour12 => "12h",
            TimeFrame::Day1 => "1d",
            TimeFrame::Day3 => "3d",
            TimeFrame::Week1 => "1w",
            TimeFrame::Month1 => "1M",
            TimeFrame::Year1 => "1y",
        }
    }

    /// The fixed duration in seconds for the fixed-length frames; `None` for
    /// the variable-length calendar frames (`Month1` / `Year1`).
    pub fn duration_secs(self) -> (r: Option<i64>)
        ensures
            match spec_duration(self) {
                Some(d) => r == Some(d as i64),
                None => r is None,
            },
    {
        match self {
            TimeFrame::Sec1 => Some(1),
            TimeFrame::Min1 => Some(60),
            TimeFrame::Min3 => Some(180),
            TimeFrame::Min5 => Some(300),
            TimeFrame::Min15 => Some(900),
            TimeFrame::Min30 => Some(1800),
            TimeFrame::Hour1 => Some(3600),
            TimeFrame::Hour2 => Some(7200),
            TimeFrame::Hour4 => Some(14400),
            TimeFrame::Hour6 => Some(21600),
            TimeFrame::Hour8 => Some(28800),
            TimeFrame::Hour12 => Some(43200),
            TimeFrame::Day1 => Some(86400),
            TimeFrame::Day3 => Some(259200),
            TimeFrame::Week1 => Some(604800),
            TimeFrame::Month1 => None,
            TimeFrame::Year1 => None,
        }
    }

    /// Whether this frame can be cleanly coarsened (aggregated) up to `dst`:
    /// every `dst` bucket boundary is also a boundary of `self`, so each `dst`
    /// bar is a whole number of `self` bars with none straddling.
    pub fn can_coarsen(self, dst: TimeFrame) -> (r: bool)
        ensures
            r == spec_can_coarsen(self, dst),
    {
        if self == dst {
            return true;
        }
        let day_aligned = match self {
            TimeFrame::Day3 | TimeFrame::Week1 | TimeFrame::Month1 | TimeFrame::Year1 => false,
            _ => true,
        };
        match dst {
            TimeFrame::Year1 => self == TimeFrame::Month1 || day_aligned,
            TimeFrame::Month1 => day_aligned,
            TimeFrame::Week1 => day_aligned,
            _ => match (self.duration_secs(), dst.duration_secs()) {
                (Some(s), Some(d)) => d > s && d % s == 0,
                _ => false,
            },
        }
    }

    /// Unify an epoch-ns timestamp to its period key in UTC wall-clock. Two
    /// timestamps are in the same period iff their keys are equal.
    pub fn unify(&self, ns: i64) -> (r: i64)
        ensures
            r == spec_unify(*self, ns as int, Tz::Utc),
    {
        self.unify_tz(ns, Tz::Utc)
    }

    /// Unify an epoch-ns timestamp to its period key in `tz`'s wall-clock, so
    /// that hour+ buckets align to the local day. Storage stays UTC; only the
    /// bucketing uses `tz`.
    pub fn unify_tz(&self, ns: i64, tz: Tz) -> (r: i64)
        requires
            tz_ok(tz),
        ensures
            r == spec_unify(*self, ns as int, tz),
    {
        let (days, y, mo, d, h, mi, s) = civil_parts(ns, tz);
        let date = d * DAY + mo * MONTH + y * YEAR;
        match self {
            TimeFrame::Sec1 => s * SEC + mi * MIN + h * HOUR + date,
            TimeFrame::Min1 => mi * MIN + h * HOUR + date,
            TimeFrame::Min3 => (mi / 3) * MIN + h * HOUR + date,
            TimeFrame::Min5 => (mi / 5) * MIN + h * HOUR + date,
            TimeFrame::Min15 => (mi / 15) * MIN + h * HOUR + date,
            TimeFrame::Min30 => (mi / 30) * MIN + h * HOUR + date,
            TimeFrame::Hour1 => h * HOUR + date,
            TimeFrame::Hour2 => (h / 2) * HOUR + date,
            TimeFrame::Hour4 => (h / 4) * HOUR + date,
            TimeFrame::Hour6 => (h / 6) * HOUR + date,
            TimeFrame::Hour8 => (h / 8) * HOUR + date,
            TimeFrame::Hour12 => (h / 12) * HOUR + date,
            TimeFrame::Day1 => date,
            TimeFrame::Day3 => div_floor(days, 3),
            TimeFrame::Week1 => div_floor(days + 3, 7),
            TimeFrame::Month1 => mo * MONTH + y * YEAR,
            TimeFrame::Year1 => y * YEAR,
        }
    }
}

} // verus!
