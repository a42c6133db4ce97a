use volas::agg::AggSpec;
use volas::cumulate::{aggregate_period, cumulate, dedup_keep_last, group_runs, Cumulator};
use volas::error::VolasError;
use volas::frame::{Column, Frame, Index, IndexKind};
use volas::time_frame::{TimeFrame, Tz};

/// Epoch nanoseconds of a `YYYY-MM-DD HH:MM:SS` UTC timestamp.
fn parse_ns(s: &str) -> i64 {
    let y: i64 = s[0..4].parse().unwrap();
    let m: i64 = s[5..7].parse().unwrap();
    let d: i64 = s[8..10].parse().unwrap();
    let hh: i64 = s[11..13].parse().unwrap();
    let mm: i64 = s[14..16].parse().unwrap();
    let ss: i64 = s[17..19].parse().unwrap();
    let yy = if m <= 2 { y - 1 } else { y };
    let era = if yy >= 0 { yy } else { yy - 399 } / 400;
    let yoe = yy - era * 400;
    let mp = if m > 2 { m - 3 } else { m + 9 };
    let doy = (153 * mp + 2) / 5 + d - 1;
    let doe = yoe * 365 + yoe / 4 - yoe / 100 + doy;
    let days = era * 146097 + doe - 719468;
    ((days * 86400) + hh * 3600 + mm * 60 + ss) * 1_000_000_000
}

fn frame(times: &[&str], open: &[i64], high: &[i64], low: &[i64], close: &[i64], vol: &[i64]) -> Frame {
    let idx: Vec<i64> = times.iter().map(|t| parse_ns(t)).collect();
    Frame::new(
        vec!["open".into(), "high".into(), "low".into(), "close".into(), "volume".into()],
        vec![
            Column::I64(open.to_vec()),
            Column::I64(high.to_vec()),
            Column::I64(low.to_vec()),
            Column::I64(close.to_vec()),
            Column::I64(vol.to_vec()),
        ],
        Some(Index::datetime(idx, Tz::Utc)),
    )
    .unwrap()
}

fn sample() -> Frame {
    frame(
        &[
            "2020-01-01 00:00:00",
            "2020-01-01 00:01:00",
            "2020-01-01 00:02:00",
            "2020-01-01 00:03:00",
            "2020-01-01 00:04:00",
            "2020-01-01 00:05:00",
        ],
        &[10, 11, 12, 13, 14, 20],
        &[15, 16, 17, 18, 19, 25],
        &[5, 6, 7, 8, 9, 15],
        &[11, 12, 13, 14, 15, 21],
        &[100, 100, 100, 100, 100, 50],
    )
}

fn ints(f: &Frame, name: &str) -> Vec<i64> {
    match f.column(name).unwrap() {
        Column::I64(v) => v.clone(),
        other => panic!("expected I64, got {other:?}"),
    }
}

fn same(a: &Frame, b: &Frame) -> bool {
    format!("{a:?}") == format!("{b:?}")
}

#[test]
fn cumulate_5m_aggregates_each_group() {
    let df = sample();
    let out = cumulate(&df, TimeFrame::Min5, &AggSpec::ohlcv()).unwrap();
    assert_eq!(out.height(), 2);
    assert_eq!(ints(&out, "open")[0], 10);
    assert_eq!(ints(&out, "high")[0], 19);
    assert_eq!(ints(&out, "low")[0], 5);
    assert_eq!(ints(&out, "close")[0], 15);
    assert_eq!(ints(&out, "volume")[0], 500);
    assert_eq!(ints(&out, "open")[1], 20);
    assert_eq!(ints(&out, "volume")[1], 50);
    match &out.index().kind {
        IndexKind::Datetime(v, _) => {
            assert_eq!(v[0], parse_ns("2020-01-01 00:00:00"));
            assert_eq!(v[1], parse_ns("2020-01-01 00:05:00"));
        }
        _ => panic!("expected DatetimeIndex"),
    }
}

#[test]
fn cumulate_is_idempotent() {
    let df = sample();
    let once = cumulate(&df, TimeFrame::Min5, &AggSpec::ohlcv()).unwrap();
    let twice = cumulate(&once, TimeFrame::Min5, &AggSpec::ohlcv()).unwrap();
    assert!(same(&once, &twice));
}

#[test]
fn incremental_matches_one_shot() {
    let df = sample();
    let one_shot = cumulate(&df, TimeFrame::Min5, &AggSpec::ohlcv()).unwrap();
    let mut cum = Cumulator::new(TimeFrame::Min5, AggSpec::ohlcv());
    for i in 0..df.height() {
        cum.append(&df.slice(i, i + 1)).unwrap();
    }
    assert!(same(&cum.frame().unwrap(), &one_shot));
}

#[test]
fn incremental_in_two_chunks_matches_one_shot() {
    let df = sample();
    let one_shot = cumulate(&df, TimeFrame::Min5, &AggSpec::ohlcv()).unwrap();
    let mut cum = Cumulator::new(TimeFrame::Min5, AggSpec::ohlcv());
    cum.append(&df.slice(0, 3)).unwrap();
    cum.append(&df.slice(3, 6)).unwrap();
    assert!(same(&cum.frame().unwrap(), &one_shot));
}

#[test]
fn incremental_in_three_uneven_chunks_matches_one_shot() {
    let df = sample();
    let one_shot = cumulate(&df, TimeFrame::Min5, &AggSpec::ohlcv()).unwrap();
    let mut cum = Cumulator::new(TimeFrame::Min5, AggSpec::ohlcv());
    cum.append(&df.slice(0, 1)).unwrap();
    cum.append(&df.slice(1, 4)).unwrap();
    cum.append(&df.slice(4, df.height())).unwrap();
    assert!(same(&cum.frame().unwrap(), &one_shot));
}

#[test]
fn cumulator_empty_then_open_only() {
    let mut cum = Cumulator::new(TimeFrame::Min5, AggSpec::ohlcv());
    assert_eq!(cum.frame().unwrap().height(), 0);
    assert!(cum.last().unwrap().is_none());
    cum.append(&sample().slice(0, 2)).unwrap();
    assert!(cum.last().unwrap().is_some());
    assert_eq!(cum.frame().unwrap().height(), 1);
}

#[test]
fn dedup_keeps_last_same_timestamp() {
    let df = frame(
        &["2020-01-01 00:00:00", "2020-01-01 00:00:00", "2020-01-01 00:01:00"],
        &[10, 99, 12],
        &[15, 99, 17],
        &[5, 99, 7],
        &[11, 99, 13],
        &[100, 7, 100],
    );
    let out = cumulate(&df, TimeFrame::Min5, &AggSpec::ohlcv()).unwrap();
    assert_eq!(out.height(), 1);
    assert_eq!(ints(&out, "volume")[0], 107);
    assert_eq!(ints(&out, "open")[0], 99);
}

#[test]
fn empty_append_errors() {
    let mut cum = Cumulator::new(TimeFrame::Min5, AggSpec::ohlcv());
    let empty = Frame::new(
        vec!["open".into()],
        vec![Column::I64(vec![])],
        Some(Index::datetime(vec![], Tz::Utc)),
    )
    .unwrap();
    assert!(cum.append(&empty).is_err());
}

#[test]
fn non_datetime_index_errors() {
    let df = Frame::new(vec!["open".into()], vec![Column::I64(vec![1, 2])], None).unwrap();
    assert!(cumulate(&df, TimeFrame::Min5, &AggSpec::ohlcv()).is_err());
}

#[test]
fn aggregate_period_rejects_non_datetime_index() {
    let df = Frame::new(vec!["open".into()], vec![Column::I64(vec![1])], None).unwrap();
    assert!(aggregate_period(&df, &AggSpec::ohlcv()).is_err());
}

#[test]
fn nat_in_the_index_errors() {
    let df = Frame::new(
        vec!["open".into()],
        vec![Column::I64(vec![1, 2])],
        Some(Index::datetime(vec![0, i64::MIN], Tz::Utc)),
    )
    .unwrap();
    assert!(cumulate(&df, TimeFrame::Min5, &AggSpec::ohlcv()).is_err());
}

#[test]
fn group_runs_splits_on_key_change() {
    let ts: Vec<i64> = ["2020-01-01 00:00:00", "2020-01-01 00:04:00", "2020-01-01 00:05:00", "2020-01-01 00:09:59", "2020-01-01 00:10:00"]
        .iter()
        .map(|t| parse_ns(t))
        .collect();
    assert_eq!(group_runs(&ts, TimeFrame::Min5, Tz::Utc), vec![(0, 2), (2, 4), (4, 5)]);
}

#[test]
fn dedup_keep_last_positions() {
    assert_eq!(dedup_keep_last(&vec![1, 1, 2, 3, 3, 3]), vec![1, 2, 5]);
    assert_eq!(dedup_keep_last(&vec![]), Vec::<usize>::new());
    assert_eq!(dedup_keep_last(&vec![7]), vec![0]);
}

#[test]
fn open_clone_holds_the_forming_bars() {
    let mut cum = Cumulator::new(TimeFrame::Min5, AggSpec::ohlcv());
    assert!(cum.open_clone().is_none());
    cum.append(&sample()).unwrap();
    let open = cum.open_clone().unwrap();
    assert_eq!(open.height(), 1);
    assert_eq!(ints(&open, "open"), vec![20]);
}

#[test]
fn incompatible_append_errors() {
    let mut cum = Cumulator::new(TimeFrame::Min5, AggSpec::ohlcv());
    cum.append(&sample().slice(0, 2)).unwrap();
    let other = Frame::new(
        vec!["price".into()],
        vec![Column::I64(vec![1])],
        Some(Index::datetime(vec![parse_ns("2020-01-01 00:02:00")], Tz::Utc)),
    )
    .unwrap();
    assert!(cum.append(&other).is_err());
}

#[test]
fn empty_append_is_a_value_error_and_changes_nothing() {
    let mut cum = Cumulator::new(TimeFrame::Min5, AggSpec::ohlcv());
    let empty = Frame::new(vec!["open".into()], vec![Column::I64(vec![])], Some(Index::datetime(vec![], Tz::Utc))).unwrap();
    assert!(matches!(cum.append(&empty), Err(VolasError::Value(_))));
    assert_eq!(cum.frame().unwrap().height(), 0);
    assert!(cum.last().unwrap().is_none());
}
