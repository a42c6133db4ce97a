use volas::agg::{build_agg_spec, Agg, AggSpec};
use volas::error::VolasError;
use volas::frame::Column;

fn ints(c: &Column) -> Vec<i64> {
    match c {
        Column::I64(v) => v.clone(),
        other => panic!("expected I64, got {other:?}"),
    }
}

fn stamps(c: &Column) -> Vec<i64> {
    match c {
        Column::Datetime(v) => v.clone(),
        other => panic!("expected Datetime, got {other:?}"),
    }
}

#[test]
fn spec_defaults_and_overrides() {
    let mut spec = AggSpec::ohlcv();
    assert_eq!(spec.agg_for("open"), Agg::First);
    assert_eq!(spec.agg_for("volume"), Agg::Sum);
    assert_eq!(spec.agg_for("anything"), Agg::Last);
    spec.set("volume", Agg::Last);
    assert_eq!(spec.agg_for("volume"), Agg::Last);
}

#[test]
fn reduce_numeric_and_first_last() {
    let col = Column::I64(vec![3, 1, 4, 1]);
    let kept = vec![0, 1, 2, 3];
    assert_eq!(ints(&Agg::First.reduce(&col, &kept).unwrap()), vec![3]);
    assert_eq!(ints(&Agg::Last.reduce(&col, &kept).unwrap()), vec![1]);
    assert_eq!(ints(&Agg::Max.reduce(&col, &kept).unwrap()), vec![4]);
    assert_eq!(ints(&Agg::Min.reduce(&col, &kept).unwrap()), vec![1]);
    assert_eq!(ints(&Agg::Sum.reduce(&col, &kept).unwrap()), vec![9]);
}

#[test]
fn sum_on_string_errors() {
    let col = Column::Str(vec!["a".into(), "b".into()]);
    assert!(Agg::Sum.reduce(&col, &vec![0, 1]).is_err());
    match Agg::First.reduce(&col, &vec![0, 1]).unwrap() {
        Column::Str(v) => assert_eq!(v, vec!["a".to_string()]),
        other => panic!("expected Str, got {other:?}"),
    }
}

#[test]
fn from_name_parses_all_and_rejects_unknown() {
    assert_eq!(Agg::from_name("first").unwrap(), Agg::First);
    assert_eq!(Agg::from_name("max").unwrap(), Agg::Max);
    assert_eq!(Agg::from_name("min").unwrap(), Agg::Min);
    assert_eq!(Agg::from_name("last").unwrap(), Agg::Last);
    assert_eq!(Agg::from_name("sum").unwrap(), Agg::Sum);
    assert!(Agg::from_name("median").is_err());
}

#[test]
fn reduce_over_i64_and_datetime_columns() {
    let ints_col = Column::I64(vec![3, 1, 4, 1]);
    assert_eq!(ints(&Agg::Max.reduce(&ints_col, &vec![0, 1, 2, 3]).unwrap()), vec![4]);
    assert_eq!(ints(&Agg::Min.reduce(&ints_col, &vec![0, 1, 2, 3]).unwrap()), vec![1]);
    assert_eq!(ints(&Agg::Sum.reduce(&ints_col, &vec![0, 1, 2, 3]).unwrap()), vec![9]);

    let ts = Column::Datetime(vec![100, 500, 200]);
    assert_eq!(stamps(&Agg::Max.reduce(&ts, &vec![0, 1, 2]).unwrap()), vec![500]);
    assert_eq!(stamps(&Agg::Min.reduce(&ts, &vec![0, 1, 2]).unwrap()), vec![100]);

    let flags = Column::Bool(vec![true, false]);
    assert!(Agg::Sum.reduce(&flags, &vec![0, 1]).is_err());
}

#[test]
fn default_spec_and_max_min_dtype_errors() {
    assert_eq!(AggSpec::default().agg_for("open"), Agg::First);
    let flags = Column::Bool(vec![true, false]);
    assert!(Agg::Max.reduce(&flags, &vec![0, 1]).is_err());
    assert!(Agg::Min.reduce(&flags, &vec![0, 1]).is_err());
}

#[test]
fn reduce_uses_only_the_kept_rows() {
    let col = Column::I64(vec![10, 99, 12]);
    let kept = vec![1, 2];
    assert_eq!(ints(&Agg::First.reduce(&col, &kept).unwrap()), vec![99]);
    assert_eq!(ints(&Agg::Sum.reduce(&col, &kept).unwrap()), vec![111]);
    assert_eq!(ints(&Agg::Min.reduce(&col, &kept).unwrap()), vec![12]);
}

#[test]
fn sum_overflow_is_a_value_error() {
    let col = Column::I64(vec![i64::MAX, 1]);
    match Agg::Sum.reduce(&col, &vec![0, 1]) {
        Err(VolasError::Value(_)) => {}
        other => panic!("expected a value error, got {other:?}"),
    }
}

#[test]
fn dtype_error_message_names_agg_and_dtype() {
    let flags = Column::Bool(vec![true]);
    match Agg::Max.reduce(&flags, &vec![0]) {
        Err(VolasError::DType(m)) => assert_eq!(m, "cannot max a bool column"),
        other => panic!("expected a dtype error, got {other:?}"),
    }
}

#[test]
fn agg_names_round_trip() {
    for a in [Agg::First, Agg::Max, Agg::Min, Agg::Last, Agg::Sum] {
        assert_eq!(Agg::from_name(a.name()).unwrap(), a);
    }
    assert_eq!(Agg::Sum.name(), "sum");
}

#[test]
fn later_override_wins_and_others_stay() {
    let mut spec = AggSpec::ohlcv();
    spec.set("open", Agg::Max);
    spec.set("open", Agg::Min);
    spec.set("extra", Agg::Sum);
    assert_eq!(spec.agg_for("open"), Agg::Min);
    assert_eq!(spec.agg_for("extra"), Agg::Sum);
    assert_eq!(spec.agg_for("high"), Agg::Max);
    assert_eq!(spec.agg_for("close"), Agg::Last);
}

#[test]
fn overrides_apply_in_order() {
    let spec = build_agg_spec(&vec![
        ("volume".to_string(), "last".to_string()),
        ("extra".to_string(), "max".to_string()),
        ("volume".to_string(), "min".to_string()),
    ])
    .unwrap();
    assert_eq!(spec.agg_for("volume"), Agg::Min);
    assert_eq!(spec.agg_for("extra"), Agg::Max);
    assert_eq!(spec.agg_for("open"), Agg::First);
    assert_eq!(spec.agg_for("other"), Agg::Last);
}

#[test]
fn unknown_override_is_a_value_error() {
    match build_agg_spec(&vec![("volume".to_string(), "median".to_string())]) {
        Err(VolasError::Value(m)) => assert_eq!(m, "unknown aggregator 'median'"),
        other => panic!("expected a value error, got {other:?}"),
    }
}
