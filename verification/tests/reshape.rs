use volas::error::VolasError;
use volas::frame::{Column, Frame, Index, IndexKind};
use volas::reshape::{check_bar_keys, parse_errors_mode, Label};
use volas::time_frame::Tz;

fn bars() -> Frame {
    Frame::new(
        vec!["open".into(), "high".into(), "low".into(), "close".into()],
        vec![
            Column::I64(vec![10, 11, 12]),
            Column::I64(vec![15, 16, 17]),
            Column::I64(vec![9, 10, 11]),
            Column::I64(vec![14, 15, 16]),
        ],
        Some(Index::datetime(vec![100, 200, 300], Tz::Utc)),
    )
    .unwrap()
}

fn owned(v: &[&str]) -> Vec<String> {
    v.iter().map(|s| s.to_string()).collect()
}

#[test]
fn errors_mode_is_raise_or_ignore() {
    assert_eq!(parse_errors_mode("raise").unwrap(), false);
    assert_eq!(parse_errors_mode("ignore").unwrap(), true);
    assert!(matches!(parse_errors_mode("coerce"), Err(VolasError::Value(_))));
}

#[test]
fn drop_columns_keeps_the_others_in_order() {
    let f = bars();
    let g = f.drop_columns(&owned(&["high", "open"]), "raise").unwrap();
    assert_eq!(g.names(), &owned(&["low", "close"]));
    assert!(matches!(&g.columns()[0], Column::I64(v) if *v == vec![9, 10, 11]));
    assert_eq!(g.height(), 3);
    // the source frame is left as it was
    assert_eq!(f.width(), 4);
}

#[test]
fn drop_columns_missing_name_raises_or_is_ignored() {
    let f = bars();
    assert!(matches!(f.drop_columns(&owned(&["volume"]), "raise"), Err(VolasError::Key(_))));
    let g = f.drop_columns(&owned(&["volume", "low"]), "ignore").unwrap();
    assert_eq!(g.names(), &owned(&["open", "high", "close"]));
    assert!(matches!(f.drop_columns(&owned(&["low"]), "nope"), Err(VolasError::Value(_))));
}

#[test]
fn rename_maps_names_and_refuses_collisions() {
    let f = bars();
    let mapping = vec![("open".to_string(), "o".to_string()), ("close".to_string(), "c".to_string())];
    let g = f.rename(&mapping).unwrap();
    assert_eq!(g.names(), &owned(&["o", "high", "low", "c"]));
    assert!(matches!(&g.columns()[3], Column::I64(v) if *v == vec![14, 15, 16]));
    // a later pair for the same name wins
    let twice = vec![("low".to_string(), "x".to_string()), ("low".to_string(), "l".to_string())];
    assert_eq!(f.rename(&twice).unwrap().names(), &owned(&["open", "high", "l", "close"]));
    let clash = vec![("high".to_string(), "low".to_string())];
    assert!(matches!(f.rename(&clash), Err(VolasError::Value(_))));
}

#[test]
fn drop_rows_by_label() {
    let f = bars();
    let g = f.drop_rows(&vec![Label::I64(200)], "raise").unwrap();
    assert_eq!(g.height(), 2);
    assert!(matches!(&g.index().kind, IndexKind::Datetime(v, Tz::Utc) if *v == vec![100, 300]));
    assert!(matches!(&g.columns()[0], Column::I64(v) if *v == vec![10, 12]));
    assert!(matches!(f.drop_rows(&vec![Label::I64(250)], "raise"), Err(VolasError::Key(_))));
    assert_eq!(f.drop_rows(&vec![Label::I64(250), Label::I64(100)], "ignore").unwrap().height(), 2);
}

#[test]
fn drop_rows_of_a_range_index_keeps_the_row_positions_as_labels() {
    let f = Frame::new(owned(&["v"]), vec![Column::Bool(vec![true, false, true])], None).unwrap();
    let g = f.drop_rows(&vec![Label::I64(0)], "raise").unwrap();
    assert!(matches!(&g.index().kind, IndexKind::Int64(v) if *v == vec![1, 2]));
    assert!(matches!(&g.columns()[0], Column::Bool(v) if *v == vec![false, true]));
}

#[test]
fn drop_rows_of_a_text_index() {
    let f = Frame::new(
        owned(&["v"]),
        vec![Column::I64(vec![1, 2, 3])],
        Some(Index { kind: IndexKind::Str(owned(&["a", "b", "c"])), name: None }),
    )
    .unwrap();
    let g = f.drop_rows(&vec![Label::Str("c".into()), Label::Str("a".into())], "raise").unwrap();
    assert!(matches!(&g.index().kind, IndexKind::Str(v) if *v == owned(&["b"])));
    assert!(matches!(f.drop_rows(&vec![Label::I64(1)], "raise"), Err(VolasError::Key(_))));
}

#[test]
fn take_gathers_rows_in_order() {
    let f = bars();
    let g = f.take(&vec![2, 0, 2]);
    assert!(matches!(&g.index().kind, IndexKind::Datetime(v, _) if *v == vec![300, 100, 300]));
    assert!(matches!(&g.columns()[1], Column::I64(v) if *v == vec![17, 15, 17]));
    assert_eq!(g.names(), f.names());
}

#[test]
fn appended_rows_may_not_bring_new_columns() {
    let f = bars();
    let fewer = Frame::new(owned(&["close"]), vec![Column::I64(vec![1])], None).unwrap();
    assert!(volas::reshape::require_no_new_columns(&f, &fewer).is_ok());
    let more = Frame::new(owned(&["close", "volume"]), vec![Column::I64(vec![1]), Column::I64(vec![2])], None).unwrap();
    match volas::reshape::require_no_new_columns(&f, &more) {
        Err(VolasError::Value(m)) => assert!(m.contains("\"volume\"")),
        other => panic!("expected a value error, got {other:?}"),
    }
}

#[test]
fn bar_keys_must_match_the_columns_and_the_index_name() {

    let named = Frame::new(
        owned(&["open", "close"]),
        vec![Column::I64(vec![1]), Column::I64(vec![2])],
        Some(Index::datetime(vec![100], Tz::Utc).with_name(Some("time".into()))),
    )
    .unwrap();
    assert!(check_bar_keys(&named, &owned(&["time", "close", "open"])).is_ok());
    // the label key is missing
    assert!(matches!(check_bar_keys(&named, &owned(&["open", "close"])), Err(VolasError::Value(_))));
    // a column is missing
    assert!(matches!(check_bar_keys(&named, &owned(&["time", "open"])), Err(VolasError::Value(_))));
    // an unknown key
    assert!(matches!(check_bar_keys(&named, &owned(&["time", "open", "close", "vol"])), Err(VolasError::Value(_))));
    // an unnamed labelled index gives the label no key
    let unnamed = Frame::new(owned(&["open"]), vec![Column::I64(vec![1])], Some(Index::datetime(vec![100], Tz::Utc))).unwrap();
    assert!(matches!(check_bar_keys(&unnamed, &owned(&["open"])), Err(VolasError::Value(_))));
    // a range index needs no label key
    let ranged = Frame::new(owned(&["open"]), vec![Column::I64(vec![1])], None).unwrap();
    assert!(check_bar_keys(&ranged, &owned(&["open"])).is_ok());
    assert!(matches!(check_bar_keys(&ranged, &owned(&["open", "time"])), Err(VolasError::Value(_))));
}

#[test]
fn reset_index_moves_the_labels_into_a_column() {
    let f = bars();
    let g = f.reset_index(false).unwrap();
    assert_eq!(g.names(), &owned(&["index", "open", "high", "low", "close"]));
    assert!(matches!(&g.columns()[0], Column::Datetime(v) if *v == vec![100, 200, 300]));
    assert!(matches!(g.index().kind, IndexKind::Range(3)));
    let d = f.reset_index(true).unwrap();
    assert_eq!(d.names(), f.names());
    assert!(matches!(d.index().kind, IndexKind::Range(3)));
    // a named range index becomes a column of positions under its name
    let r = Frame::new(owned(&["v"]), vec![Column::I64(vec![7, 8])], Some(Index { kind: IndexKind::Range(2), name: Some("n".into()) })).unwrap();
    let rr = r.reset_index(false).unwrap();
    assert_eq!(rr.names(), &owned(&["n", "v"]));
    assert!(matches!(&rr.columns()[0], Column::I64(v) if *v == vec![0, 1]));
    // the label may not collide with a column
    let clash = Frame::new(owned(&["index"]), vec![Column::I64(vec![1])], None).unwrap();
    assert!(matches!(clash.reset_index(false), Err(VolasError::Value(_))));
    assert!(clash.reset_index(true).is_ok());
}

#[test]
fn head_and_tail_follow_python_slicing() {
    let f = bars();
    assert!(matches!(&f.head(2).index().kind, IndexKind::Datetime(v, _) if *v == vec![100, 200]));
    assert!(matches!(&f.head(-1).index().kind, IndexKind::Datetime(v, _) if *v == vec![100, 200]));
    assert_eq!(f.head(10).height(), 3);
    assert!(matches!(&f.tail(1).index().kind, IndexKind::Datetime(v, _) if *v == vec![300]));
    assert!(matches!(&f.tail(-1).index().kind, IndexKind::Datetime(v, _) if *v == vec![200, 300]));
    assert_eq!(f.tail(0).height(), 0);
}
