use volas::assign::{assign_cell_mask, assign_row_mask, scatter_scalar, Scalar};
use volas::error::VolasError;
use volas::frame::{Column, Frame};

fn frame() -> Frame {
    Frame::new(
        vec!["n".into(), "s".into()],
        vec![Column::I64(vec![1, 2, 3]), Column::Str(vec!["a".into(), "b".into(), "c".into()])],
        None,
    )
    .unwrap()
}

#[test]
fn scatter_sets_the_selected_cells() {
    let c = scatter_scalar(&Column::I64(vec![1, 2, 3]), &vec![0, 2], &Scalar::I64(9)).unwrap();
    assert!(matches!(c, Column::I64(v) if v == vec![9, 2, 9]));
    let s = scatter_scalar(&Column::Str(vec!["a".into(), "b".into()]), &vec![1], &Scalar::Str("z".into())).unwrap();
    assert!(matches!(s, Column::Str(v) if v == vec!["a".to_string(), "z".to_string()]));
    // nothing selected: any value, the column unchanged
    let same = scatter_scalar(&Column::Bool(vec![true]), &vec![], &Scalar::I64(0)).unwrap();
    assert!(matches!(same, Column::Bool(v) if v == vec![true]));
    assert!(matches!(scatter_scalar(&Column::Bool(vec![true]), &vec![0], &Scalar::I64(0)), Err(VolasError::Type(_))));
}

#[test]
fn row_mask_assignment_is_all_or_nothing() {
    let f = frame();
    // an int does not fit the text column: nothing is set
    assert!(matches!(assign_row_mask(&f, &vec![true, false, false], &Scalar::I64(0)), Err(VolasError::Type(_))));
    assert!(matches!(assign_row_mask(&f, &vec![true], &Scalar::I64(0)), Err(VolasError::Value(_))));
    // no row selected: every column accepts any value
    let g = assign_row_mask(&f, &vec![false, false, false], &Scalar::I64(0)).unwrap();
    assert_eq!(format!("{g:?}"), format!("{f:?}"));
    let ints = Frame::new(vec!["a".into(), "b".into()], vec![Column::I64(vec![1, 2]), Column::I64(vec![3, 4])], None).unwrap();
    let h = assign_row_mask(&ints, &vec![false, true], &Scalar::I64(0)).unwrap();
    assert!(matches!(&h.columns()[0], Column::I64(v) if *v == vec![1, 0]));
    assert!(matches!(&h.columns()[1], Column::I64(v) if *v == vec![3, 0]));
}

#[test]
fn cell_mask_assignment_per_column() {
    let f = frame();
    let cond = Frame::new(
        vec!["n".into(), "s".into()],
        vec![Column::Bool(vec![false, true, true]), Column::Bool(vec![false, false, false])],
        None,
    )
    .unwrap();
    let g = assign_cell_mask(&f, &cond, &Scalar::I64(-1)).unwrap();
    assert!(matches!(&g.columns()[0], Column::I64(v) if *v == vec![1, -1, -1]));
    assert!(matches!(&g.columns()[1], Column::Str(v) if *v == vec!["a".to_string(), "b".to_string(), "c".to_string()]));
    let not_bool = Frame::new(
        vec!["n".into(), "s".into()],
        vec![Column::Bool(vec![false, true, true]), Column::I64(vec![0, 0, 0])],
        None,
    )
    .unwrap();
    assert!(matches!(assign_cell_mask(&f, &not_bool, &Scalar::I64(-1)), Err(VolasError::Type(_))));
    let narrow = Frame::new(vec!["n".into()], vec![Column::Bool(vec![true, true, true])], None).unwrap();
    assert!(matches!(assign_cell_mask(&f, &narrow, &Scalar::I64(-1)), Err(VolasError::Value(_))));
    let all = Frame::new(
        vec!["n".into(), "s".into()],
        vec![Column::Bool(vec![true, true, true]), Column::Bool(vec![true, false, false])],
        None,
    )
    .unwrap();
    assert!(matches!(assign_cell_mask(&f, &all, &Scalar::I64(-1)), Err(VolasError::Type(_))));
}
