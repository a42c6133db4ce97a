use volas::agg::AggSpec;
use volas::cumulate::cumulate;
use volas::error::VolasError;
use volas::frame::{Column, Frame, Index};
use volas::live::LiveFrame;
use volas::time_frame::{TimeFrame, Tz};

fn parse_ns(s: &str) -> i64 {
    let y: i64 = s[0..4].parse().unwrap();
    let m: i64 = s[5..7].parse().unwrap();
    let d: i64 = s[8..10].parse().unwrap();
    let hh: i64 = s[11..13].parse().unwrap();
    let mm: i64 = s[14..16].parse().unwrap();
    let ss: i64 = s[17..19].parse().unwrap();
    let yy = if m <= 2 { y - 1 } else { y };
    let era = if yy >= 0 { yy } else { yy - 399 } / 400;
    let yoe = yy - era * 400;
    let mp = if m > 2 { m - 3 } else { m + 9 };
    let doy = (153 * mp + 2) / 5 + d - 1;
    let doe = yoe * 365 + yoe / 4 - yoe / 100 + doy;
    let days = era * 146097 + doe - 719468;
    ((days * 86400) + hh * 3600 + mm * 60 + ss) * 1_000_000_000
}

fn bars(times: &[&str], open: &[i64], vol: &[i64]) -> Frame {
    let idx: Vec<i64> = times.iter().map(|t| parse_ns(t)).collect();
    Frame::new(
        vec!["open".into(), "volume".into()],
        vec![Column::I64(open.to_vec()), Column::I64(vol.to_vec())],
        Some(Index::datetime(idx, Tz::Utc)),
    )
    .unwrap()
}

fn sample() -> Frame {
    bars(
        &[
            "2020-01-01 00:00:00",
            "2020-01-01 00:01:00",
            "2020-01-01 00:02:00",
            "2020-01-01 00:04:00",
            "2020-01-01 00:05:00",
            "2020-01-01 00:07:00",
        ],
        &[10, 11, 12, 13, 20, 21],
        &[1, 2, 3, 4, 5, 6],
    )
}

fn same(a: &Frame, b: &Frame) -> bool {
    format!("{a:?}") == format!("{b:?}")
}

fn ints(f: &Frame, name: &str) -> Vec<i64> {
    match f.column(name).unwrap() {
        Column::I64(v) => v.clone(),
        other => panic!("expected I64, got {other:?}"),
    }
}

#[test]
fn live_fold_matches_one_shot() {
    let df = sample();
    let one_shot = cumulate(&df, TimeFrame::Min5, &AggSpec::ohlcv()).unwrap();
    let mut live = LiveFrame::cumulate(&df.slice(0, 2), TimeFrame::Min5, &AggSpec::ohlcv()).unwrap();
    live.fold_append(&df.slice(2, 6)).unwrap();
    assert!(same(live.frame(), &one_shot));
}

#[test]
fn live_fold_bar_by_bar_from_nothing() {
    let df = sample();
    let one_shot = cumulate(&df, TimeFrame::Min5, &AggSpec::ohlcv()).unwrap();
    let mut live = LiveFrame::new(TimeFrame::Min5, AggSpec::ohlcv());
    assert_eq!(live.frame().height(), 0);
    for i in 0..df.height() {
        live.fold_append(&df.slice(i, i + 1)).unwrap();
    }
    assert!(same(live.frame(), &one_shot));
    assert_eq!(ints(live.frame(), "volume"), vec![10, 11]);
}

#[test]
fn resent_bar_updates_the_forming_row() {
    let mut live = LiveFrame::new(TimeFrame::Min5, AggSpec::ohlcv());
    live.fold_append(&bars(&["2020-01-01 00:00:00", "2020-01-01 00:01:00"], &[10, 11], &[100, 7])).unwrap();
    live.fold_append(&bars(&["2020-01-01 00:01:00"], &[12], &[9])).unwrap();
    assert_eq!(live.frame().height(), 1);
    assert_eq!(ints(live.frame(), "volume"), vec![109]);
    assert_eq!(ints(live.frame(), "open"), vec![10]);
}

#[test]
fn out_of_order_and_missing_stamps_change_nothing() {
    let mut live = LiveFrame::cumulate(&sample(), TimeFrame::Min5, &AggSpec::ohlcv()).unwrap();
    let before = format!("{:?}", live.frame());
    let late = bars(&["2020-01-01 00:06:00"], &[1], &[1]);
    assert!(matches!(live.fold_append(&late), Err(VolasError::Value(_))));
    let unordered = bars(&["2020-01-01 00:09:00", "2020-01-01 00:08:00"], &[1, 2], &[1, 2]);
    assert!(matches!(live.fold_append(&unordered), Err(VolasError::Value(_))));
    let missing = Frame::new(
        vec!["open".into(), "volume".into()],
        vec![Column::I64(vec![1]), Column::I64(vec![1])],
        Some(Index::datetime(vec![i64::MIN], Tz::Utc)),
    )
    .unwrap();
    assert!(matches!(live.fold_append(&missing), Err(VolasError::Value(_))));
    let plain = Frame::new(vec!["open".into(), "volume".into()], vec![Column::I64(vec![1]), Column::I64(vec![1])], None).unwrap();
    assert!(matches!(live.fold_append(&plain), Err(VolasError::Value(_))));
    assert_eq!(format!("{:?}", live.frame()), before);
}

#[test]
fn recumulate_copies_refuses_or_coarsens() {
    let live = LiveFrame::cumulate(&sample(), TimeFrame::Min5, &AggSpec::ohlcv()).unwrap();
    let copy = live.recumulate(TimeFrame::Min5, &AggSpec::ohlcv()).unwrap();
    assert!(same(copy.frame(), live.frame()));
    assert!(matches!(live.recumulate(TimeFrame::Min3, &AggSpec::ohlcv()), Err(VolasError::Value(_))));
    let hourly = live.recumulate(TimeFrame::Hour1, &AggSpec::ohlcv()).unwrap();
    assert_eq!(hourly.frame().height(), 1);
    assert_eq!(ints(hourly.frame(), "volume"), vec![21]);
    assert_eq!(hourly.time_frame(), TimeFrame::Hour1);
}

#[test]
fn seeded_rows_stay_final_and_the_next_bar_opens_a_period() {
    let seed = bars(&["2020-01-01 00:00:00", "2020-01-01 00:05:00"], &[10, 20], &[5, 6]);
    let mut live = LiveFrame::seed(seed.duplicate(), TimeFrame::Min5, AggSpec::ohlcv()).unwrap();
    assert!(same(live.frame(), &seed));
    live.fold_append(&bars(&["2020-01-01 00:10:00"], &[30], &[7])).unwrap();
    assert_eq!(live.frame().height(), 3);
    live.fold_append(&bars(&["2020-01-01 00:11:00"], &[31], &[8])).unwrap();
    assert_eq!(live.frame().height(), 3);
    assert_eq!(ints(live.frame(), "open"), vec![10, 20, 30]);
    assert_eq!(ints(live.frame(), "volume"), vec![5, 6, 15]);
}

#[test]
fn seed_refuses_a_plain_missing_or_unsorted_index() {
    let plain = Frame::new(vec!["open".into()], vec![Column::I64(vec![1, 2])], None).unwrap();
    assert!(matches!(LiveFrame::seed(plain, TimeFrame::Min5, AggSpec::ohlcv()), Err(VolasError::Value(_))));
    let missing = Frame::new(
        vec!["open".into()],
        vec![Column::I64(vec![1, 2])],
        Some(Index::datetime(vec![0, i64::MIN], Tz::Utc)),
    )
    .unwrap();
    assert!(matches!(LiveFrame::seed(missing, TimeFrame::Min5, AggSpec::ohlcv()), Err(VolasError::Value(_))));
    let unsorted = bars(&["2020-01-01 00:05:00", "2020-01-01 00:00:00"], &[1, 2], &[1, 2]);
    assert!(matches!(LiveFrame::seed(unsorted, TimeFrame::Min5, AggSpec::ohlcv()), Err(VolasError::Value(_))));
    let repeated = bars(&["2020-01-01 00:05:00", "2020-01-01 00:05:00"], &[1, 2], &[1, 2]);
    assert!(LiveFrame::seed(repeated, TimeFrame::Min5, AggSpec::ohlcv()).is_ok());
}

#[test]
fn seed_without_rows_starts_empty() {
    let empty = bars(&[], &[], &[]);
    let mut live = LiveFrame::seed(empty, TimeFrame::Min5, AggSpec::ohlcv()).unwrap();
    assert_eq!(live.frame().height(), 0);
    live.fold_append(&sample()).unwrap();
    assert_eq!(ints(live.frame(), "volume"), vec![10, 11]);
}

#[test]
fn resent_bar_counts_once() {
    let first = bars(&["2020-01-01 00:00:00"], &[10], &[100]);
    let mut twice = LiveFrame::new(TimeFrame::Min5, AggSpec::ohlcv());
    twice.fold_append(&first).unwrap();
    twice.fold_append(&bars(&["2020-01-01 00:02:00"], &[11], &[7])).unwrap();
    twice.fold_append(&bars(&["2020-01-01 00:02:00"], &[12], &[9])).unwrap();
    let mut once = LiveFrame::new(TimeFrame::Min5, AggSpec::ohlcv());
    once.fold_append(&first).unwrap();
    once.fold_append(&bars(&["2020-01-01 00:02:00"], &[12], &[9])).unwrap();
    assert!(same(twice.frame(), once.frame()));
    assert_eq!(ints(twice.frame(), "volume"), vec![109]);
}
