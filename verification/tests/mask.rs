use volas::error::VolasError;
use volas::frame::{Column, Frame, Index, IndexKind};
use volas::mask::{align_condition, index_eq};
use volas::time_frame::Tz;

fn base() -> Frame {
    Frame::new(
        vec!["a".into(), "b".into()],
        vec![Column::I64(vec![1, 2]), Column::I64(vec![3, 4])],
        Some(Index::datetime(vec![10, 20], Tz::Utc)),
    )
    .unwrap()
}

fn cond(names: [&str; 2], cols: Vec<Column>, index: Index) -> Frame {
    Frame::new(names.iter().map(|s| s.to_string()).collect(), cols, Some(index)).unwrap()
}

#[test]
fn condition_in_the_same_order_is_kept() {
    let c = cond(["a", "b"], vec![Column::Bool(vec![true, false]), Column::Bool(vec![false, false])], Index::datetime(vec![10, 20], Tz::Utc));
    let out = align_condition(&base(), &c).unwrap();
    assert_eq!(format!("{out:?}"), format!("{c:?}"));
}

#[test]
fn condition_columns_pair_by_name() {
    let c = cond(["b", "a"], vec![Column::Bool(vec![true, true]), Column::Bool(vec![false, true])], Index::datetime(vec![10, 20], Tz::Utc));
    let out = align_condition(&base(), &c).unwrap();
    assert_eq!(out.names(), &vec!["a".to_string(), "b".to_string()]);
    assert!(matches!(&out.columns()[0], Column::Bool(v) if *v == vec![false, true]));
    assert!(matches!(&out.columns()[1], Column::Bool(v) if *v == vec![true, true]));
}

#[test]
fn condition_refusals() {
    let ix = || Index::datetime(vec![10, 20], Tz::Utc);
    let bools = || vec![Column::Bool(vec![true, false]), Column::Bool(vec![true, false])];
    // another shape
    let short = Frame::new(vec!["a".into()], vec![Column::Bool(vec![true, false])], Some(ix())).unwrap();
    assert!(matches!(align_condition(&base(), &short), Err(VolasError::Value(_))));
    // other names
    assert!(matches!(align_condition(&base(), &cond(["a", "c"], bools(), ix())), Err(VolasError::Value(_))));
    // another index
    let other_ix = Index::datetime(vec![10, 30], Tz::Utc);
    assert!(matches!(align_condition(&base(), &cond(["a", "b"], bools(), other_ix)), Err(VolasError::Value(_))));
    // not boolean
    let ints = vec![Column::Bool(vec![true, false]), Column::I64(vec![1, 0])];
    match align_condition(&base(), &cond(["a", "b"], ints, ix())) {
        Err(VolasError::Type(m)) => assert_eq!(m, "where/mask: `cond` must be a boolean frame, got a int64 column"),
        other => panic!("expected a type error, got {other:?}"),
    }
}

#[test]
fn index_equality_compares_kind_labels_and_name() {
    let a = Index::datetime(vec![1, 2], Tz::Utc);
    assert!(index_eq(&a, &Index::datetime(vec![1, 2], Tz::Utc)));
    assert!(!index_eq(&a, &Index::datetime(vec![1, 2], Tz::Naive)));
    assert!(!index_eq(&a, &Index { kind: IndexKind::Int64(vec![1, 2]), name: None }));
    assert!(!index_eq(&a, &Index::datetime(vec![1, 2], Tz::Utc).with_name(Some("t".into()))));
    let r = Index { kind: IndexKind::Range(3), name: None };
    assert!(index_eq(&r, &Index { kind: IndexKind::Range(3), name: None }));
}
