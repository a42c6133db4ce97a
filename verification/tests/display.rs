use volas::display::{render_frame, render_frame_html};
use volas::html::render_html;
use volas::frame::{Column, Frame, Index};
use volas::render::{Dimensions, TableOpts};
use volas::time_frame::Tz;

fn opts(dimensions: Dimensions) -> TableOpts {
    TableOpts { header: true, index: true, dimensions }
}

fn small() -> Frame {
    Frame::new(
        vec!["a".to_string(), "b".to_string()],
        vec![Column::I64(vec![1, 22]), Column::Str(vec!["x".to_string(), "yy".to_string()])],
        None,
    )
    .unwrap()
}

#[test]
fn render_frame_aligns_index_and_columns() {
    let out = render_frame(&small(), &vec![0, 1], None, opts(Dimensions::Never)).unwrap();
    assert_eq!(out, "    a   b\n0   1   x\n1  22  yy");
}

#[test]
fn render_frame_shows_the_chosen_columns_in_order() {
    let out = render_frame(&small(), &vec![1], None, opts(Dimensions::Always)).unwrap();
    assert_eq!(out, "    b\n0   x\n1  yy\n\n[2 rows x 2 columns]");
}

#[test]
fn render_frame_truncates_with_an_ellipsis_row_and_footer() {
    let f = Frame::new(vec!["a".to_string()], vec![Column::I64(vec![1, 2, 3, 4, 5])], None).unwrap();
    let out = render_frame(&f, &vec![0], Some(1), opts(Dimensions::OnTruncate)).unwrap();
    assert_eq!(out, "    a\n0   1\n.. ..\n4   5\n\n[5 rows x 1 columns]");
}

#[test]
fn render_frame_empty_placeholders() {
    let none = Frame::new(vec!["a".to_string()], vec![Column::I64(vec![])], None).unwrap();
    assert_eq!(render_frame(&none, &vec![0], None, opts(Dimensions::Never)).unwrap(), "Empty DataFrame\nColumns: [a]\nIndex: []");
    assert_eq!(render_frame(&small(), &vec![], None, opts(Dimensions::Never)).unwrap(), "Empty DataFrame\nColumns: []\nIndex: [0, 1]");
}

#[test]
fn render_frame_dates_and_times_of_day() {
    let day: i64 = 86_400_000_000_000;
    let dates = Frame::new(
        vec!["v".to_string()],
        vec![Column::I64(vec![7, 8])],
        Some(Index::datetime(vec![0, day], Tz::Utc)),
    )
    .unwrap();
    let out = render_frame(&dates, &vec![0], None, opts(Dimensions::Never)).unwrap();
    assert_eq!(out, "            v\n1970-01-01  7\n1970-01-02  8");
    let times = Frame::new(
        vec!["v".to_string()],
        vec![Column::I64(vec![7])],
        Some(Index::datetime(vec![60_000_000_000], Tz::Utc)),
    )
    .unwrap();
    assert!(render_frame(&times, &vec![0], None, opts(Dimensions::Never)).is_none());
}

fn strs(v: &[&str]) -> Vec<String> {
    v.iter().map(|s| s.to_string()).collect()
}

#[test]
fn render_frame_html_strips_the_sign_space() {
    let out = render_frame_html(&small()).unwrap();
    let expected = render_html(&strs(&["a", "b"]), None, strs(&["0", "1"]), vec![strs(&["1", "22"]), strs(&["x", "yy"])], false, 2);
    assert_eq!(out, expected);
    assert!(out.contains("<td>22</td>"));
}

#[test]
fn render_frame_html_truncates_past_sixty_rows() {
    let f = Frame::new(vec!["v".to_string()], vec![Column::I64((0..61).collect())], None).unwrap();
    let out = render_frame_html(&f).unwrap();
    let rows = strs(&["0", "1", "2", "3", "4", "56", "57", "58", "59", "60"]);
    let expected = render_html(&strs(&["v"]), None, rows.clone(), vec![rows], true, 61);
    assert_eq!(out, expected);
    assert!(out.contains("61 rows"));
}

#[test]
fn render_frame_names_the_index_on_its_own_row() {
    let day: i64 = 86_400_000_000_000;
    let f = Frame::new(
        vec!["v".to_string()],
        vec![Column::I64(vec![7, 8])],
        Some(Index::datetime(vec![0, day], Tz::Utc).with_name(Some("day".to_string()))),
    )
    .unwrap();
    let out = render_frame(&f, &vec![0], None, opts(Dimensions::Never)).unwrap();
    assert_eq!(out, format!("{}v\nday{}\n1970-01-01  7\n1970-01-02  8", " ".repeat(12), " ".repeat(10)));
}
