use volas::error::VolasError;
use volas::frame::{Column, Frame, Index, IndexKind};
use volas::time_frame::Tz;

fn two_rows() -> Frame {
    Frame::new(
        vec!["a".into(), "b".into()],
        vec![Column::I64(vec![1, 2]), Column::Str(vec!["x".into(), "y".into()])],
        Some(Index::datetime(vec![10, 20], Tz::Utc)),
    )
    .unwrap()
}

#[test]
fn new_checks_lengths() {
    assert!(Frame::new(vec!["a".into()], vec![], None).is_err());
    assert!(Frame::new(vec!["a".into(), "b".into()], vec![Column::I64(vec![1]), Column::I64(vec![1, 2])], None).is_err());
    let f = Frame::new(vec!["a".into()], vec![Column::I64(vec![1, 2, 3])], None).unwrap();
    assert_eq!((f.height(), f.width()), (3, 1));
    assert!(matches!(f.index().kind, IndexKind::Range(3)));
}

#[test]
fn column_lookup_by_name() {
    let f = two_rows();
    assert!(matches!(f.column("b"), Ok(Column::Str(_))));
    match f.column("zz") {
        Err(VolasError::Value(_)) => {}
        other => panic!("expected a value error, got {other:?}"),
    }
}

#[test]
fn slice_then_append_restores_rows() {
    let f = two_rows();
    let mut head = f.slice(0, 1);
    let tail = f.slice(1, 2);
    assert_eq!(head.height(), 1);
    head.append(&tail).unwrap();
    assert_eq!(format!("{head:?}"), format!("{f:?}"));
}

#[test]
fn append_refuses_other_columns_and_keeps_self() {
    let mut f = two_rows();
    let g = Frame::new(vec!["a".into()], vec![Column::I64(vec![3])], Some(Index::datetime(vec![30], Tz::Utc))).unwrap();
    assert!(!f.compatible(&g));
    assert!(f.append(&g).is_err());
    assert_eq!(f.height(), 2);
}

#[test]
fn error_message_is_carried() {
    let e = VolasError::DType("nope".into());
    assert_eq!(e.message(), "nope");
}
