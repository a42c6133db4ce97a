use volas::time_frame::TimeFrame::{
    Day1, Day3, Hour1, Hour12, Hour2, Hour4, Hour6, Hour8, Min1, Min15, Min3, Min30, Min5, Month1, Sec1, Week1, Year1,
};
use volas::time_frame::{TimeFrame, Tz};

/// Epoch nanoseconds of a `YYYY-MM-DD HH:MM:SS` UTC timestamp.
fn parse_ns(s: &str) -> i64 {
    let y: i64 = s[0..4].parse().unwrap();
    let m: i64 = s[5..7].parse().unwrap();
    let d: i64 = s[8..10].parse().unwrap();
    let (hh, mm, ss): (i64, i64, i64) = if s.len() > 10 {
        (s[11..13].parse().unwrap(), s[14..16].parse().unwrap(), s[17..19].parse().unwrap())
    } else {
        (0, 0, 0)
    };
    let yy = if m <= 2 { y - 1 } else { y };
    let era = if yy >= 0 { yy } else { yy - 399 } / 400;
    let yoe = yy - era * 400;
    let mp = if m > 2 { m - 3 } else { m + 9 };
    let doy = (153 * mp + 2) / 5 + d - 1;
    let doe = yoe * 365 + yoe / 4 - yoe / 100 + doy;
    let days = era * 146097 + doe - 719468;
    ((days * 86400) + hh * 3600 + mm * 60 + ss) * 1_000_000_000
}

const ALL: [TimeFrame; 17] = [
    TimeFrame::Sec1,
    TimeFrame::Min1,
    TimeFrame::Min3,
    TimeFrame::Min5,
    TimeFrame::Min15,
    TimeFrame::Min30,
    TimeFrame::Hour1,
    TimeFrame::Hour2,
    TimeFrame::Hour4,
    TimeFrame::Hour6,
    TimeFrame::Hour8,
    TimeFrame::Hour12,
    TimeFrame::Day1,
    TimeFrame::Day3,
    TimeFrame::Week1,
    TimeFrame::Month1,
    TimeFrame::Year1,
];

#[test]
fn labels_and_parse() {
    assert_eq!(TimeFrame::Min5.label(), "5m");
    assert_eq!(TimeFrame::Month1.label(), "1M");
    assert_eq!(TimeFrame::from_label("5m").unwrap(), TimeFrame::Min5);
    assert_eq!(TimeFrame::from_label("1M").unwrap(), TimeFrame::Month1);
    assert_eq!(TimeFrame::from_label("1H").unwrap(), TimeFrame::Hour1);
    assert!(TimeFrame::from_label("1").is_err());
}

#[test]
fn unify_second_contract() {
    let ns = parse_ns("2020-01-02 03:04:05");
    assert_eq!(TimeFrame::Sec1.unify(ns), 20_200_102_030_405);
}

#[test]
fn unify_groups_same_5min_block() {
    let a = parse_ns("2020-01-01 00:00:00");
    let b = parse_ns("2020-01-01 00:04:59");
    let c = parse_ns("2020-01-01 00:05:00");
    assert_eq!(TimeFrame::Min5.unify(a), TimeFrame::Min5.unify(b));
    assert_ne!(TimeFrame::Min5.unify(a), TimeFrame::Min5.unify(c));
}

#[test]
fn week_is_continuous_and_monday_anchored() {
    let mon = parse_ns("2024-01-29 00:00:00");
    let sun = parse_ns("2024-02-04 23:59:59");
    let prev_sun = parse_ns("2024-01-28 23:59:59");
    let next_mon = parse_ns("2024-02-05 00:00:00");
    assert_eq!(TimeFrame::Week1.unify(mon), TimeFrame::Week1.unify(sun));
    assert_ne!(TimeFrame::Week1.unify(mon), TimeFrame::Week1.unify(prev_sun));
    assert_ne!(TimeFrame::Week1.unify(mon), TimeFrame::Week1.unify(next_mon));
}

#[test]
fn day3_is_continuous_across_month_boundary() {
    let mut prev = TimeFrame::Day3.unify(parse_ns("2024-01-28 00:00:00"));
    for day in ["2024-01-29", "2024-01-30", "2024-01-31", "2024-02-01", "2024-02-02"] {
        let k = TimeFrame::Day3.unify(parse_ns(&format!("{day} 00:00:00")));
        assert!(k == prev || k == prev + 1, "{day}: bucket {k}, prev {prev}");
        prev = k;
    }
}

#[test]
fn can_coarsen_truth_table() {
    for (s, d) in [
        (Min5, Min5),
        (Sec1, Min1),
        (Min1, Min5),
        (Min30, Hour1),
        (Hour2, Hour6),
        (Hour8, Day1),
        (Min5, Min15),
        (Min15, Hour1),
        (Min5, Hour1),
        (Hour1, Hour4),
        (Hour4, Hour12),
        (Hour1, Day1),
        (Day1, Day3),
        (Hour12, Day3),
        (Day1, Week1),
        (Min5, Week1),
        (Day1, Month1),
        (Hour1, Month1),
        (Month1, Year1),
        (Day1, Year1),
    ] {
        assert!(s.can_coarsen(d), "{s:?} -> {d:?} should be valid");
    }
    for (s, d) in [
        (Min3, Min5),
        (Hour4, Hour6),
        (Day3, Week1),
        (Week1, Month1),
        (Week1, Year1),
        (Day3, Month1),
        (Day3, Year1),
        (Day1, Hour1),
        (Week1, Day1),
        (Month1, Day1),
    ] {
        assert!(!s.can_coarsen(d), "{s:?} -> {d:?} should be invalid");
    }
}

#[test]
fn label_roundtrips_for_every_frame() {
    for tf in ALL {
        assert_eq!(TimeFrame::from_label(tf.label()).unwrap(), tf);
    }
    for alias in ["1S", "2H", "4H", "6H", "8H", "12H", "3D", "1W", "1Y"] {
        assert!(TimeFrame::from_label(alias).is_ok());
    }
}

#[test]
fn unify_covers_every_branch() {
    let ns = parse_ns("2021-07-19 22:47:53");
    for tf in ALL {
        assert!(tf.unify(ns) > 0);
    }
    let mid = parse_ns("2021-07-19 22:47:53");
    let same_hour = parse_ns("2021-07-19 22:00:00");
    assert_eq!(TimeFrame::Hour1.unify(mid), TimeFrame::Hour1.unify(same_hour));
    let same_day = parse_ns("2021-07-19 00:00:00");
    assert_eq!(TimeFrame::Day1.unify(mid), TimeFrame::Day1.unify(same_day));
    let same_month = parse_ns("2021-07-01 00:00:00");
    assert_eq!(TimeFrame::Month1.unify(mid), TimeFrame::Month1.unify(same_month));
}

#[test]
fn unify_keys_spell_the_civil_fields() {
    let ns = parse_ns("2021-07-19 22:47:53");
    assert_eq!(TimeFrame::Min1.unify(ns), 20_210_719_224_700);
    assert_eq!(TimeFrame::Min15.unify(ns), 20_210_719_220_300);
    assert_eq!(TimeFrame::Hour4.unify(ns), 20_210_719_050_000);
    assert_eq!(TimeFrame::Day1.unify(ns), 20_210_719_000_000);
    assert_eq!(TimeFrame::Month1.unify(ns), 20_210_700_000_000);
    assert_eq!(TimeFrame::Year1.unify(ns), 20_210_000_000_000);
}

#[test]
fn unify_tz_buckets_in_local_wall_clock() {
    // 2021-07-19 22:47:53 UTC is 2021-07-20 06:47:53 at +08:00.
    let ns = parse_ns("2021-07-19 22:47:53");
    assert_eq!(TimeFrame::Day1.unify_tz(ns, Tz::Fixed(8 * 3600)), 20_210_720_000_000);
    assert_eq!(TimeFrame::Day1.unify_tz(ns, Tz::Utc), TimeFrame::Day1.unify(ns));
}

#[test]
fn from_label_error_message_names_the_label() {
    let e = TimeFrame::from_label("7x").unwrap_err();
    assert_eq!(e.message(), "\"7x\" is an invalid time frame");
}

#[test]
fn duration_of_fixed_and_calendar_frames() {
    assert_eq!(TimeFrame::Min5.duration_secs(), Some(300));
    assert_eq!(TimeFrame::Week1.duration_secs(), Some(604800));
    assert_eq!(TimeFrame::Month1.duration_secs(), None);
    assert_eq!(TimeFrame::Year1.duration_secs(), None);
}

#[test]
fn coarsenable_frames_nest_on_samples() {
    let a = parse_ns("2021-07-19 22:45:00");
    let b = parse_ns("2021-07-19 22:49:59");
    assert!(Min5.can_coarsen(Hour1));
    assert_eq!(Min5.unify(a), Min5.unify(b));
    assert_eq!(Hour1.unify(a), Hour1.unify(b));
    let c = parse_ns("2024-01-30 01:00:00");
    let d = parse_ns("2024-01-30 23:00:00");
    assert!(Day1.can_coarsen(Week1));
    assert_eq!(Day1.unify(c), Day1.unify(d));
    assert_eq!(Week1.unify(c), Week1.unify(d));
}

#[test]
fn week_and_day3_keys_move_on_by_at_most_one_per_day() {
    let start = parse_ns("2024-01-20 12:00:00");
    for tf in [Day3, Week1] {
        let mut prev = tf.unify(start);
        for day in 1..40i64 {
            let k = tf.unify(start + day * 86_400_000_000_000);
            assert!(k == prev || k == prev + 1);
            prev = k;
        }
    }
}

#[test]
fn keys_never_go_back() {
    let stamps = [
        "2023-12-31 23:59:59",
        "2024-01-01 00:00:00",
        "2024-01-31 23:30:00",
        "2024-02-01 00:15:00",
        "2024-02-29 12:00:00",
        "2024-03-01 00:00:00",
    ];
    for tf in ALL {
        let keys: Vec<i64> = stamps.iter().map(|s| tf.unify(parse_ns(s))).collect();
        for w in keys.windows(2) {
            assert!(w[0] <= w[1], "{tf:?}: {} > {}", w[0], w[1]);
        }
    }
}

#[test]
fn can_coarsen_is_a_partial_order_over_every_frame() {
    for a in ALL {
        assert!(a.can_coarsen(a), "{a:?} should coarsen to itself");
        for b in ALL {
            if a.can_coarsen(b) && b.can_coarsen(a) {
                assert_eq!(a, b);
            }
            for c in ALL {
                if a.can_coarsen(b) && b.can_coarsen(c) {
                    assert!(a.can_coarsen(c), "{a:?} -> {b:?} -> {c:?} should chain");
                }
            }
        }
    }
}

#[test]
fn fixed_frames_bucket_by_nanosecond_floor() {
    const S: i64 = 1_000_000_000;
    const DAY: i64 = 86_400 * S;
    let base = parse_ns("2020-01-01 00:00:00");
    let samples: Vec<i64> = vec![
        base - 1,
        base,
        base + 299 * S + (S - 1),
        base + 300 * S,
        base + DAY - 1,
        base + DAY,
        base + 3 * DAY + 7,
        base + 9 * DAY - 1,
        -1,
        0,
    ];
    for (tf, d, shift) in [(Min5, 300 * S, 0), (Hour4, 4 * 3600 * S, 0), (Day1, DAY, 0), (Day3, 3 * DAY, 0), (Week1, 7 * DAY, 3 * DAY)] {
        for &a in &samples {
            for &b in &samples {
                let same_key = tf.unify(a) == tf.unify(b);
                let same_bucket = (a + shift).div_euclid(d) == (b + shift).div_euclid(d);
                assert_eq!(same_key, same_bucket, "{tf:?} {a} {b}");
            }
        }
    }
}
