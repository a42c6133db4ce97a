use volas::cells::{
    cell_to_csv, column_positions, data_cells, display_truncate, fmt_date, index_cells, index_label_csv, is_midnight, render_row,
    repr_truncate,
};
use volas::error::VolasError;
use volas::frame::{Column, Frame, Index, IndexKind};
use volas::time_frame::Tz;

// 2021-01-04 00:00 and 09:30 at +08:00, in UTC nanoseconds
const MIDNIGHT: i64 = 1609689600000000000;
const MORNING: i64 = 1609723800000000000;

#[test]
fn midnight_is_read_on_the_wall_clock() {
    assert!(is_midnight(MIDNIGHT, Tz::Fixed(28800)));
    assert!(!is_midnight(MIDNIGHT, Tz::Utc));
    assert!(!is_midnight(MORNING, Tz::Fixed(28800)));
    assert!(!is_midnight(MIDNIGHT + 1, Tz::Fixed(28800)));
    assert!(is_midnight(0, Tz::Naive));
}

#[test]
fn dates_in_the_zone() {
    assert_eq!(fmt_date(MIDNIGHT, Tz::Fixed(28800)), "2021-01-04");
    assert_eq!(fmt_date(MIDNIGHT, Tz::Utc), "2021-01-03");
    assert_eq!(fmt_date(-1, Tz::Naive), "1969-12-31");
}

#[test]
fn csv_fields_of_cells() {
    assert_eq!(cell_to_csv(&Column::I64(vec![3, -42]), 1).unwrap(), "-42");
    assert_eq!(cell_to_csv(&Column::Bool(vec![true, false]), 0).unwrap(), "True");
    assert_eq!(cell_to_csv(&Column::Bool(vec![true, false]), 1).unwrap(), "False");
    assert_eq!(cell_to_csv(&Column::Str(vec!["a,b".into()]), 0).unwrap(), "a,b");
    assert!(cell_to_csv(&Column::Datetime(vec![0]), 0).is_none());
}

#[test]
fn csv_texts_of_labels() {
    let range = Index { kind: IndexKind::Range(5), name: None };
    assert_eq!(index_label_csv(&range, 3).unwrap(), "3");
    let ints = Index { kind: IndexKind::Int64(vec![-7, 8]), name: None };
    assert_eq!(index_label_csv(&ints, 0).unwrap(), "-7");
    let strs = Index { kind: IndexKind::Str(vec!["x".into(), "y".into()]), name: None };
    assert_eq!(index_label_csv(&strs, 1).unwrap(), "y");
    assert!(index_label_csv(&Index::datetime(vec![0], Tz::Utc), 0).is_none());
}

#[test]
fn index_column_texts() {
    let range = Index { kind: IndexKind::Range(10), name: None };
    assert_eq!(index_cells(&range, &vec![0, 9]).unwrap(), vec!["0", "9"]);
    let ints = Index { kind: IndexKind::Int64(vec![5, -6, 7]), name: None };
    assert_eq!(index_cells(&ints, &vec![2, 1]).unwrap(), vec!["7", "-6"]);
    // a datetime index of midnights shows dates only
    let days = Index::datetime(vec![MIDNIGHT, MIDNIGHT + 86_400_000_000_000], Tz::Fixed(28800));
    assert_eq!(index_cells(&days, &vec![0, 1]).unwrap(), vec!["2021-01-04", "2021-01-05"]);
    // a time of day among the shown rows needs the full timestamp form
    let mixed = Index::datetime(vec![MIDNIGHT, MORNING], Tz::Fixed(28800));
    assert!(index_cells(&mixed, &vec![0, 1]).is_none());
    assert_eq!(index_cells(&mixed, &vec![0]).unwrap(), vec!["2021-01-04"]);
}

#[test]
fn a_row_renders_vertically_with_its_label_and_dtype() {
    let mixed = Frame::new(
        vec!["open".into(), "sym".into()],
        vec![Column::I64(vec![5]), Column::Str(vec!["abc".into()])],
        Some(Index { kind: IndexKind::Int64(vec![7]), name: None }),
    )
    .unwrap();
    assert_eq!(render_row(&mixed, true).unwrap(), "open      5\nsym     abc\nName: 7, dtype: object");
    assert_eq!(render_row(&mixed, false).unwrap(), "open      5\nsym     abc");
    let ints = Frame::new(
        vec!["a".into(), "b".into()],
        vec![Column::I64(vec![1]), Column::I64(vec![-20])],
        Some(Index { kind: IndexKind::Str(vec!["x".into()]), name: None }),
    )
    .unwrap();
    assert_eq!(render_row(&ints, true).unwrap(), "a     1\nb   -20\nName: x, dtype: int64");
    let stamped = Frame::new(vec!["t".into()], vec![Column::Datetime(vec![1])], None).unwrap();
    assert!(render_row(&stamped, true).is_none());
}

#[test]
fn default_repr_truncates_past_sixty_rows() {
    assert_eq!(repr_truncate(60), None);
    assert_eq!(repr_truncate(61), Some(5));
}

#[test]
fn to_string_truncation_from_max_and_min_rows() {
    assert_eq!(display_truncate(100, None, None), None);
    assert_eq!(display_truncate(100, Some(100), None), None);
    assert_eq!(display_truncate(100, Some(20), None), Some(10));
    assert_eq!(display_truncate(100, Some(20), Some(6)), Some(3));
    assert_eq!(display_truncate(100, Some(1), None), Some(1));
    assert_eq!(display_truncate(100, Some(20), Some(0)), Some(1));
}

#[test]
fn shown_columns_by_name_or_all() {
    let names: Vec<String> = vec!["a".into(), "b".into(), "c".into()];
    assert_eq!(column_positions(&names, &None).unwrap(), vec![0, 1, 2]);
    assert_eq!(column_positions(&names, &Some(vec!["c".into(), "a".into()])).unwrap(), vec![2, 0]);
    assert!(matches!(column_positions(&names, &Some(vec!["z".into()])), Err(VolasError::Key(_))));
    assert_eq!(column_positions(&Vec::new(), &None).unwrap(), Vec::<usize>::new());
}

#[test]
fn datetime_cells_of_midnights_are_dates() {
    let days = Column::Datetime(vec![0, 86_400_000_000_000]);
    assert_eq!(data_cells(&days, &vec![1, 0]).unwrap(), vec!["1970-01-02", "1970-01-01"]);
    let noon = Column::Datetime(vec![0, 43_200_000_000_000]);
    assert!(data_cells(&noon, &vec![0, 1]).is_none());
    assert_eq!(data_cells(&Column::I64(vec![-3]), &vec![0]).unwrap(), vec!["-3"]);
    let row = Frame::new(vec!["d".into()], vec![Column::Datetime(vec![0])], None).unwrap();
    assert_eq!(render_row(&row, true).unwrap(), "d   1970-01-01\nName: 0, dtype: datetime64[ns]");
}
