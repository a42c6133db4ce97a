use volas::frame::Column;
use volas::render::{
    displayed_rows, empty_frame, frame_headers, join_comma, join_lines, max_width, parse_float_format,
    plain_cells, render_table, vertical_body, Dimensions, TableOpts,
};

fn strs(v: &[&str]) -> Vec<String> {
    v.iter().map(|s| s.to_string()).collect()
}

#[test]
fn displayed_rows_plain_and_truncated() {
    assert_eq!(displayed_rows(3, None), (vec![0, 1, 2], false));
    assert_eq!(displayed_rows(10, Some(2)), (vec![0, 1, 8, 9], true));
}

#[test]
fn vertical_body_aligns_labels_and_values() {
    let out = vertical_body(&strs(&["a", "bb"]), &strs(&[" 1", " 22"]));
    assert_eq!(out, "a      1\nbb    22");
}

#[test]
fn parse_float_format_forms() {
    assert_eq!(parse_float_format("%.2f"), Some((Some(2), 'f')));
    assert_eq!(parse_float_format("%.10e"), Some((Some(10), 'e')));
    assert_eq!(parse_float_format("%g"), Some((None, 'g')));
    assert_eq!(parse_float_format("%.xf"), None);
    assert_eq!(parse_float_format("%.f"), None);
    assert_eq!(parse_float_format("%5f"), None);
    assert_eq!(parse_float_format("%d"), None);
    assert_eq!(parse_float_format("abc"), None);
    assert_eq!(parse_float_format(""), None);
}

#[test]
fn render_table_simple_frame() {
    let opts = TableOpts { header: true, index: true, dimensions: Dimensions::Never };
    let out = render_table(strs(&["0", "1"]), "", &strs(&[" a"]), &vec![strs(&[" 1", " 22"])], false, 2, 1, opts);
    assert_eq!(out, "    a\n0   1\n1  22");
}

#[test]
fn render_table_footer_and_index_name() {
    let opts = TableOpts { header: true, index: true, dimensions: Dimensions::Always };
    let out = render_table(strs(&["x", "y"]), "key", &strs(&[" v"]), &vec![strs(&[" 1", " 2"])], false, 2, 1, opts);
    assert_eq!(out, "     v\nkey   \nx    1\ny    2\n\n[2 rows x 1 columns]");
}

#[test]
fn render_table_truncated_inserts_ellipsis_row() {
    let opts = TableOpts { header: true, index: true, dimensions: Dimensions::OnTruncate };
    let out = render_table(strs(&["0", "9"]), "", &strs(&[" a"]), &vec![strs(&[" 1", " 2"])], true, 10, 1, opts);
    assert_eq!(out, "    a\n0   1\n.. ..\n9   2\n\n[10 rows x 1 columns]");
}

#[test]
fn render_table_without_header_or_index() {
    let opts = TableOpts { header: false, index: false, dimensions: Dimensions::Never };
    let out = render_table(strs(&["0", "1"]), "", &strs(&[" a", " b"]), &vec![strs(&[" 1", " 2"]), strs(&[" 10", " 3"])], false, 2, 2, opts);
    assert_eq!(out, " 1  10\n 2   3");
}

#[test]
fn empty_frame_placeholder() {
    assert_eq!(empty_frame(&strs(&["a", "b"]), &Vec::new()), "Empty DataFrame\nColumns: [a, b]\nIndex: []");
    assert_eq!(empty_frame(&Vec::new(), &strs(&["0", "1"])), "Empty DataFrame\nColumns: []\nIndex: [0, 1]");
}

#[test]
fn headers_and_plain_cells() {
    assert_eq!(frame_headers(&strs(&["a", "t"]), &vec![false, true]), strs(&[" a", "t"]));
    assert_eq!(plain_cells(&Column::I64(vec![5, -3, 0]), &vec![0, 1, 2]), Some(strs(&[" 5", "-3", " 0"])));
    assert_eq!(plain_cells(&Column::Bool(vec![true, false]), &vec![1, 0]), Some(strs(&[" False", " True"])));
    assert_eq!(plain_cells(&Column::Str(strs(&["x"])), &vec![0]), Some(strs(&[" x"])));
    assert_eq!(plain_cells(&Column::Datetime(vec![0]), &vec![0]), None);
}

#[test]
fn joins_and_widths() {
    assert_eq!(join_comma(&strs(&["a", "b", "c"])), "a, b, c");
    assert_eq!(join_lines(&strs(&["a", "b"])), "a\nb");
    assert_eq!(max_width(&strs(&["ab", "é€x", ""])), 3);
    assert_eq!(max_width(&Vec::new()), 0);
}

#[test]
fn series_with_name_footer() {
    let out = volas::render::render_series(strs(&["0", "1"]), strs(&[" 1", " 2"]), false, 2, None, Some("x"), "int64", true);
    assert_eq!(out, "0    1\n1    2\nName: x, dtype: int64");
}

#[test]
fn series_truncated_with_index_name() {
    let out = volas::render::render_series(strs(&["0", "9"]), strs(&[" 1", " 2"]), true, 10, Some("idx"), None, "int64", true);
    assert_eq!(out, "idx\n0    1\n    ..\n9    2\nLength: 10, dtype: int64");
}

#[test]
fn series_without_footer_and_empty() {
    let out = volas::render::render_series(strs(&["a"]), strs(&[" True"]), false, 1, None, Some("x"), "bool", false);
    assert_eq!(out, "a    True");
    assert_eq!(volas::render::render_series(vec![], vec![], false, 0, None, Some("s"), "float64", true), "Series([], Name: s, dtype: float64)");
    assert_eq!(volas::render::render_series(vec![], vec![], false, 0, None, None, "int64", true), "Series([], dtype: int64)");
}

#[test]
fn float_format_argument_is_resolved() {
    assert_eq!(volas::render::parse_ff(None).unwrap(), None);
    assert_eq!(volas::render::parse_ff(Some("%.2f")).unwrap(), Some((Some(2), 'f')));
    assert_eq!(volas::render::parse_ff(Some("%g")).unwrap(), Some((None, 'g')));
    match volas::render::parse_ff(Some("%d")) {
        Err(volas::error::VolasError::Value(m)) => assert_eq!(m, "unsupported float_format \"%d\""),
        other => panic!("expected a value error, got {other:?}"),
    }
}
