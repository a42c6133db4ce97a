use volas::error::VolasError;
use volas::frame::{Column, Frame, IndexKind};
use volas::repeats::{duplicated_mask_keep, frame_mode, mode, mode_rows, nunique, row_duplicated, value_counts};

#[test]
fn duplicates_keep_first_or_last() {
    let c = Column::I64(vec![1, 2, 1, 3, 2, 1]);
    assert_eq!(duplicated_mask_keep(&c, "first").unwrap(), vec![false, false, true, false, true, true]);
    assert_eq!(duplicated_mask_keep(&c, "last").unwrap(), vec![true, true, true, false, false, false]);
    let s = Column::Str(vec!["a".into(), "b".into(), "a".into()]);
    assert_eq!(duplicated_mask_keep(&s, "first").unwrap(), vec![false, false, true]);
    match duplicated_mask_keep(&c, "none") {
        Err(VolasError::Value(m)) => assert_eq!(m, "keep must be 'first' or 'last', got \"none\""),
        other => panic!("expected a value error, got {other:?}"),
    }
}

#[test]
fn mode_lists_the_most_frequent_values_in_first_order() {
    let c = Column::I64(vec![3, 1, 3, 1, 2]);
    assert_eq!(mode_rows(&c), vec![0, 1]);
    assert!(matches!(mode(&c), Column::I64(v) if v == vec![3, 1]));
    let b = Column::Bool(vec![true, false, false]);
    assert!(matches!(mode(&b), Column::Bool(v) if v == vec![false]));
    let e = Column::I64(vec![]);
    assert!(matches!(mode(&e), Column::I64(v) if v.is_empty()));
    // all distinct: every value is a mode
    assert_eq!(mode_rows(&Column::Str(vec!["x".into(), "y".into()])), vec![0, 1]);
}

fn grid() -> Frame {
    Frame::new(
        vec!["a".into(), "b".into()],
        vec![Column::I64(vec![1, 1, 2, 1]), Column::Str(vec!["x".into(), "y".into(), "x".into(), "x".into()])],
        None,
    )
    .unwrap()
}

#[test]
fn duplicate_rows_compare_every_column() {
    let f = grid();
    assert_eq!(row_duplicated(&f, "first").unwrap(), vec![false, false, false, true]);
    assert_eq!(row_duplicated(&f, "last").unwrap(), vec![true, false, false, false]);
    assert!(matches!(row_duplicated(&f, "both"), Err(VolasError::Value(_))));
    let g = f.drop_duplicates("first").unwrap();
    assert_eq!(g.height(), 3);
    assert!(matches!(&g.index().kind, IndexKind::Int64(v) if *v == vec![0, 1, 2]));
    let h = f.drop_duplicates("last").unwrap();
    assert!(matches!(&h.index().kind, IndexKind::Int64(v) if *v == vec![1, 2, 3]));
}

#[test]
fn distinct_counts_per_column() {
    assert_eq!(nunique(&grid()), vec![2, 2]);
}

#[test]
fn first_mode_of_each_column() {
    let m = frame_mode(&grid());
    assert_eq!(m.height(), 1);
    assert!(matches!(&m.columns()[0], Column::I64(v) if *v == vec![1]));
    assert!(matches!(&m.columns()[1], Column::Str(v) if *v == vec!["x".to_string()]));
    let empty = Frame::new(vec!["a".into()], vec![Column::I64(vec![])], None).unwrap();
    assert_eq!(frame_mode(&empty).height(), 0);
}

#[test]
fn value_counts_by_frequency_then_first_appearance() {
    let c = Column::Str(vec!["b".into(), "a".into(), "b".into(), "c".into(), "a".into(), "b".into()]);
    // unsorted: order of first appearance
    assert_eq!(value_counts(&c, false, false, true).unwrap(), (vec![0, 1, 3], vec![3, 2, 1]));
    // most frequent first
    assert_eq!(value_counts(&c, true, false, true).unwrap(), (vec![0, 1, 3], vec![3, 2, 1]));
    // least frequent first
    assert_eq!(value_counts(&c, true, true, true).unwrap(), (vec![3, 1, 0], vec![1, 2, 3]));
    // ties keep first appearance
    let t = Column::I64(vec![5, 6, 6, 5, 7]);
    assert_eq!(value_counts(&t, true, false, true).unwrap(), (vec![0, 1, 4], vec![2, 2, 1]));
    assert!(matches!(value_counts(&t, true, false, false), Err(VolasError::Value(_))));
}
