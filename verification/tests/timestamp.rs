use volas::error::VolasError;
use volas::time_frame::Tz;
use volas::timestamp::Timestamp;

const SHANGHAI: Tz = Tz::Fixed(28800);

#[test]
fn timestamp_calendar_fields_in_its_zone() {
    // 2021-01-04 09:30 at +08:00
    let t = Timestamp::new(1609723800000000000, SHANGHAI);
    assert_eq!(t.value(), 1609723800000000000);
    assert_eq!(t.tz(), Some(SHANGHAI));
    assert_eq!(t.year(), 2021);
    assert_eq!(t.month(), 1);
    assert_eq!(t.day(), 4);
    assert_eq!(t.hour(), 9);
    assert_eq!(t.minute(), 30);
    assert_eq!(t.second(), 0);
    assert_eq!(t.weekday(), 0);
    assert_eq!(t.dayofweek(), 0);
    assert_eq!(t.day_of_week(), 0);
    assert_eq!(t.isoweekday(), 1);
    assert_eq!(t.day_name(), "Monday");
    assert_eq!(t.month_name(), "January");
    assert_eq!(t.quarter(), 1);
    assert_eq!(t.dayofyear(), 4);
    assert_eq!(t.day_of_year(), 4);
    assert_eq!(t.days_in_month(), 31);
    assert_eq!(t.daysinmonth(), 31);
    assert!(!t.is_month_start());
    assert!(!t.is_leap_year());
    assert_eq!(t.isocalendar(), (2021, 1, 1));
    // read naively, the same instant is 01:30 on the 4th
    let u = Timestamp::new(1609723800000000000, Tz::Naive);
    assert_eq!(u.tz(), None);
    assert_eq!(u.hour(), 1);
    assert_eq!(u.day(), 4);
}

#[test]
fn timestamp_zone_moves_the_calendar_day() {
    // 2021-01-03 22:00 UTC is already the 4th in +08:00
    let ns = 1609711200000000000;
    assert_eq!(Timestamp::new(ns, Tz::Utc).day(), 3);
    assert_eq!(Timestamp::new(ns, SHANGHAI).day(), 4);
    assert_eq!(Timestamp::new(ns, SHANGHAI).hour(), 6);
}

#[test]
fn timestamp_iso_calendar_at_year_edges() {
    // 2021-01-01 is a Friday in ISO week 53 of 2020
    let t = Timestamp::new(1609459200000000000, Tz::Utc);
    assert_eq!(t.isocalendar(), (2020, 53, 5));
    assert_eq!(t.week(), 53);
    assert_eq!(t.weekofyear(), 53);
    assert_eq!(t.day_name(), "Friday");
    assert!(t.is_year_start());
    assert!(t.is_quarter_start());
    assert!(t.is_month_start());
    // 2018-12-31 is the Monday of ISO week 1 of 2019
    let u = Timestamp::new(1546214400000000000, Tz::Utc);
    assert_eq!(u.isocalendar(), (2019, 1, 1));
    assert!(u.is_year_end());
    assert!(u.is_quarter_end());
    assert!(u.is_month_end());
}

#[test]
fn timestamp_leap_day_and_quarter_end() {
    // 2024-02-29 12:00 UTC
    let t = Timestamp::new(1709208000000000000, Tz::Utc);
    assert!(t.is_leap_year());
    assert_eq!(t.days_in_month(), 29);
    assert!(t.is_month_end());
    assert!(!t.is_quarter_end());
    assert_eq!(t.dayofyear(), 60);
    assert_eq!(t.day_name(), "Thursday");
    assert_eq!(t.month_name(), "February");
    // 2021-03-31 23:59:59 UTC
    let q = Timestamp::new(1617235199000000000, Tz::Utc);
    assert!(q.is_quarter_end());
    assert!(q.is_month_end());
    assert!(!q.is_year_end());
    assert_eq!(q.quarter(), 1);
    assert_eq!(q.second(), 59);
    // 2021-12-31 is day 365
    assert_eq!(Timestamp::new(1640908800000000000, Tz::Utc).dayofyear(), 365);
}

#[test]
fn timestamp_sub_second_fields() {
    let t = Timestamp::new(1609723800123456789, SHANGHAI);
    assert_eq!(t.microsecond(), 123456);
    assert_eq!(t.nanosecond(), 789);
    // one nanosecond before the epoch
    let b = Timestamp::new(-1, Tz::Naive);
    assert_eq!(b.microsecond(), 999999);
    assert_eq!(b.nanosecond(), 999);
    assert_eq!(b.year(), 1969);
    assert_eq!(b.month(), 12);
    assert_eq!(b.day(), 31);
    assert_eq!(b.second(), 59);
    assert_eq!(b.weekday(), 2);
}

#[test]
fn timestamp_floor_ceil_round_on_the_wall_clock() {
    // 09:37:30 at +08:00
    let t = Timestamp::new(1609724250000000000, SHANGHAI);
    assert_eq!(t.floor("15min").unwrap().value(), 1609723800000000000);
    assert_eq!(t.ceil("15min").unwrap().value(), 1609724700000000000);
    // exactly half-way, the floor is an even multiple: stays down
    assert_eq!(t.round("15min").unwrap().value(), 1609723800000000000);
    // 09:52:30: half-way above an odd multiple: goes up to 10:00
    let u = Timestamp::new(1609725150000000000, SHANGHAI);
    assert_eq!(u.round("15min").unwrap().value(), 1609725600000000000);
    // a daily floor lands on the local midnight
    assert_eq!(t.floor("D").unwrap().value(), 1609689600000000000);
    assert_eq!(t.normalize().value(), 1609689600000000000);
    assert_eq!(t.floor("D").unwrap().tz(), Some(SHANGHAI));
    // an instant on the boundary is its own ceiling
    let b = Timestamp::new(1609723800000000000, SHANGHAI);
    assert_eq!(b.ceil("15min").unwrap().value(), 1609723800000000000);
    assert_eq!(b.round("h").unwrap().value(), 1609725600000000000);
}

#[test]
fn timestamp_round_tie_uses_the_truncated_multiple() {
    // a +00:05 zone puts the floor off the epoch grid; before the epoch the
    // multiple counts toward zero: -2100 s / 900 s counts as -2 (even)
    let t = Timestamp::new(-1_650_000_000_000, Tz::Fixed(300));
    assert_eq!(t.floor("15min").unwrap().value(), -2_100_000_000_000);
    assert_eq!(t.round("15min").unwrap().value(), -2_100_000_000_000);
}

#[test]
fn timestamp_bad_frequency_is_a_value_error() {
    let t = Timestamp::new(0, Tz::Utc);
    assert!(matches!(t.floor("fortnight"), Err(VolasError::Value(_))));
    assert!(matches!(t.ceil("0min"), Err(VolasError::Value(_))));
    assert!(matches!(t.round("-5s"), Err(VolasError::Value(_))));
}

#[test]
fn timestamp_checked_arithmetic() {
    let t = Timestamp::new(1_000, Tz::Utc);
    assert_eq!(t.add_ns(500).unwrap().value(), 1_500);
    assert_eq!(t.sub_ns(2_000).unwrap().value(), -1_000);
    assert_eq!(t.add_ns(500).unwrap().tz(), Some(Tz::Utc));
    assert!(matches!(t.add_ns(i64::MAX), Err(VolasError::Overflow(_))));
    // landing on the NaT sentinel is refused too
    let low = Timestamp::new(i64::MIN + 1, Tz::Utc);
    assert!(matches!(low.sub_ns(1), Err(VolasError::Overflow(_))));
    let later = Timestamp::new(5_000, Tz::Naive);
    assert_eq!(later.since(&t).unwrap(), 4_000);
    assert_eq!(t.since(&later).unwrap(), -4_000);
    let top = Timestamp::new(i64::MAX, Tz::Utc);
    assert!(matches!(top.since(&low), Err(VolasError::Overflow(_))));
}

#[test]
fn timestamp_unit_is_nanoseconds() {
    let t = Timestamp::new(42, Tz::Utc);
    assert_eq!(t.unit(), "ns");
    assert_eq!(t.as_unit("ns").unwrap().value(), 42);
    assert!(matches!(t.as_unit("ms"), Err(VolasError::Value(_))));
}

#[test]
fn timestamp_localize_and_convert() {
    // naive 2021-01-04 09:30 anchored at +08:00 keeps its wall clock
    let naive = Timestamp::new(1609752600000000000, Tz::Naive);
    assert_eq!(naive.hour(), 9);
    let local = naive.tz_localize(SHANGHAI).unwrap();
    assert_eq!(local.value(), 1609723800000000000);
    assert_eq!(local.hour(), 9);
    assert!(matches!(local.tz_localize(Tz::Utc), Err(VolasError::Type(_))));
    // converting keeps the instant and moves the wall clock
    let utc = local.tz_convert(Tz::Utc).unwrap();
    assert_eq!(utc.value(), local.value());
    assert_eq!(utc.hour(), 1);
    assert_eq!(local.astimezone(Tz::Utc).unwrap().hour(), 1);
    assert!(matches!(naive.tz_convert(Tz::Utc), Err(VolasError::Type(_))));
}

#[test]
fn timestamp_isoformat() {
    let t = Timestamp::new(1609723800000000000, SHANGHAI);
    assert_eq!(t.isoformat(), "2021-01-04T09:30:00+08:00");
    let micro = Timestamp::new(1609723800123456000, SHANGHAI);
    assert_eq!(micro.isoformat(), "2021-01-04T09:30:00.123456+08:00");
    let nano = Timestamp::new(1609723800123456789, Tz::Naive);
    assert_eq!(nano.isoformat(), "2021-01-04T01:30:00.123456789");
    let utc = Timestamp::new(1609723800000000000, Tz::Utc);
    assert_eq!(utc.isoformat(), "2021-01-04T01:30:00+00:00");
    // 2021-01-04 09:30 at -05:30
    let west = Timestamp::new(1609772400000000000, Tz::Fixed(-19800));
    assert_eq!(west.isoformat(), "2021-01-04T09:30:00-05:30");
}
