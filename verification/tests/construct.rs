use volas::construct::{check_columns_arg, check_cumulators_arg, frame_from_columns, logical_range, retain_tail, window_capacity};
use volas::error::VolasError;
use volas::frame::{Column, Frame, IndexKind};

fn owned(v: &[&str]) -> Vec<String> {
    v.iter().map(|s| s.to_string()).collect()
}

#[test]
fn columns_argument_checks() {
    assert!(check_columns_arg(&None).is_ok());
    assert!(check_columns_arg(&Some(owned(&["a", "b"]))).is_ok());
    assert!(matches!(check_columns_arg(&Some(vec![])), Err(VolasError::Value(_))));
    match check_columns_arg(&Some(owned(&["a", "b", "a"]))) {
        Err(VolasError::Value(m)) => assert_eq!(m, "duplicate column \"a\" in columns"),
        other => panic!("expected a value error, got {other:?}"),
    }
}

#[test]
fn frame_from_named_columns() {
    let pairs = vec![
        ("a".to_string(), Column::I64(vec![1, 2])),
        ("b".to_string(), Column::Bool(vec![true, false])),
        ("c".to_string(), Column::I64(vec![5, 6])),
    ];
    let f = frame_from_columns(&pairs, &None).unwrap();
    assert_eq!(f.names(), &owned(&["a", "b", "c"]));
    assert!(matches!(f.index().kind, IndexKind::Range(2)));
    let g = frame_from_columns(&pairs, &Some(owned(&["c", "a"]))).unwrap();
    assert_eq!(g.names(), &owned(&["c", "a"]));
    assert!(matches!(&g.columns()[0], Column::I64(v) if *v == vec![5, 6]));
    assert!(matches!(frame_from_columns(&pairs, &Some(owned(&["z"]))), Err(VolasError::Key(_))));
    // only the chosen columns need agree in length
    let ragged = vec![("a".to_string(), Column::I64(vec![1, 2])), ("b".to_string(), Column::I64(vec![1]))];
    assert!(matches!(frame_from_columns(&ragged, &None), Err(VolasError::Value(_))));
    assert_eq!(frame_from_columns(&ragged, &Some(owned(&["b"]))).unwrap().height(), 1);
}

#[test]
fn select_projects_by_name() {
    let f = Frame::new(owned(&["a", "b"]), vec![Column::I64(vec![1]), Column::I64(vec![2])], None).unwrap();
    let g = f.select(&owned(&["b", "b", "a"])).unwrap();
    assert_eq!(g.names(), &owned(&["b", "b", "a"]));
    assert!(matches!(f.select(&owned(&["x"])), Err(VolasError::Key(_))));
}

#[test]
fn window_capacity_rules() {
    assert_eq!(window_capacity(None, None).unwrap(), None);
    assert!(matches!(window_capacity(None, Some(3)), Err(VolasError::Value(_))));
    assert!(matches!(window_capacity(Some(0), Some(3)), Err(VolasError::Value(_))));
    assert!(matches!(window_capacity(Some(5), None), Err(VolasError::Value(_))));
    assert_eq!(window_capacity(Some(5), Some(3)).unwrap(), Some(8));
}

#[test]
fn a_windowed_frame_keeps_the_last_rows() {
    let f = Frame::new(owned(&["a"]), vec![Column::I64(vec![1, 2, 3, 4])], None).unwrap();
    let g = retain_tail(&f, Some(2));
    assert!(matches!(&g.columns()[0], Column::I64(v) if *v == vec![3, 4]));
    assert_eq!(retain_tail(&f, Some(9)).height(), 4);
    assert_eq!(retain_tail(&f, None).height(), 4);
}

#[test]
fn the_logical_rows_of_a_window() {

    assert_eq!(logical_range(10, Some(3)), (7, 3));
    assert_eq!(logical_range(2, Some(3)), (0, 2));
    assert_eq!(logical_range(10, None), (0, 10));
}

#[test]
fn cumulators_need_a_time_frame() {
    assert!(check_cumulators_arg(false, false).is_ok());
    assert!(check_cumulators_arg(true, false).is_ok());
    assert!(check_cumulators_arg(true, true).is_ok());
    assert!(matches!(check_cumulators_arg(false, true), Err(VolasError::Value(_))));
}
