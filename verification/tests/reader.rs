use volas::error::VolasError;
use volas::reader::{
    assemble_columns, build_na_set, default_na_values, infer_column, na_contains, read_csv_text, Inferred, ReadCsvOptions,
};

fn default_na() -> Vec<String> {
    build_na_set(&ReadCsvOptions::default())
}

fn float_flags(cells: &[String]) -> Vec<bool> {
    cells.iter().map(|c| c.trim().parse::<f64>().is_ok()).collect()
}

fn infer_with(cells: Vec<String>, na: &Vec<String>) -> Inferred {
    let ok = float_flags(&cells);
    infer_column(cells, na, &ok)
}

fn infer(cells: &[&str]) -> Inferred {
    infer_with(cells.iter().map(|s| s.to_string()).collect(), &default_na())
}

#[test]
fn infers_i64() {
    match infer(&["1", "2", "3"]) {
        Inferred::I64(v) => assert_eq!(v, vec![1, 2, 3]),
        other => panic!("expected I64, got {other:?}"),
    }
}

#[test]
fn blank_or_na_upcasts_int_to_f64_nan() {
    for cells in [&["1", "", "3"][..], &["1", "NA", "null"][..]] {
        match infer(cells) {
            Inferred::F64(missing) => {
                assert!(!missing[0]);
                assert!(missing[1]);
            }
            other => panic!("expected F64, got {other:?}"),
        }
    }
}

#[test]
fn all_na_column_is_f64_all_nan() {
    match infer(&["NA", "null", ""]) {
        Inferred::F64(missing) => assert!(missing.iter().all(|m| *m)),
        other => panic!("expected F64, got {other:?}"),
    }
}

#[test]
fn scientific_and_negative_are_f64() {
    match infer(&["-1.5", "1e3"]) {
        Inferred::F64(missing) => assert_eq!(missing, vec![false, false]),
        other => panic!("expected F64, got {other:?}"),
    }
}

#[test]
fn infers_bool_any_case() {
    match infer(&["True", "false", "TRUE"]) {
        Inferred::Bool(v) => assert_eq!(v, vec![true, false, true]),
        other => panic!("expected Bool, got {other:?}"),
    }
}

#[test]
fn non_numeric_is_str() {
    match infer(&["a", "b"]) {
        Inferred::Str(v) => assert_eq!(v, vec!["a".to_string(), "b".to_string()]),
        other => panic!("expected Str, got {other:?}"),
    }
}

#[test]
fn empty_column_is_str() {
    match infer_column(Vec::new(), &default_na(), &Vec::new()) {
        Inferred::Str(v) => assert!(v.is_empty()),
        other => panic!("expected Str, got {other:?}"),
    }
}

#[test]
fn na_disabled_keeps_tokens_as_str() {
    let na = build_na_set(&ReadCsvOptions { keep_default_na: false, ..Default::default() });
    match infer_with(vec!["1".into(), "NA".into()], &na) {
        Inferred::Str(v) => assert_eq!(v, vec!["1".to_string(), "NA".to_string()]),
        other => panic!("expected Str, got {other:?}"),
    }
}

#[test]
fn custom_na_value_upcasts() {
    let na = build_na_set(&ReadCsvOptions { na_values: vec!["MISSING".into()], ..Default::default() });
    match infer_with(vec!["1".into(), "MISSING".into()], &na) {
        Inferred::F64(missing) => {
            assert!(!missing[0]);
            assert!(missing[1]);
        }
        other => panic!("expected F64, got {other:?}"),
    }
}

#[test]
fn padded_integers_are_trimmed() {
    match infer(&[" 7", "8 "]) {
        Inferred::I64(v) => assert_eq!(v, vec![7, 8]),
        other => panic!("expected I64, got {other:?}"),
    }
}

#[test]
fn default_tokens_and_extras() {
    let d = default_na_values();
    assert_eq!(d.len(), 19);
    assert!(na_contains(&d, "NaN"));
    assert!(!na_contains(&d, "nil"));
    let na = build_na_set(&ReadCsvOptions { keep_default_na: false, na_values: vec!["nil".into()], ..Default::default() });
    assert_eq!(na, vec!["nil".to_string()]);
}

#[test]
fn read_options_default() {
    let o = ReadCsvOptions::default();
    assert_eq!(o.delimiter, b',');
    assert!(o.has_header);
    assert!(o.na_values.is_empty());
    assert!(o.keep_default_na);
}

#[test]
fn assemble_by_header_and_pad_short_records() {
    let recs = vec![vec!["1".to_string(), "x".to_string()], vec!["2".to_string()]];
    let (names, cols) = assemble_columns(true, vec!["a".into(), "b".into()], &recs);
    assert_eq!(names, vec!["a".to_string(), "b".to_string()]);
    assert_eq!(cols, vec![vec!["1".to_string(), "2".to_string()], vec!["x".to_string(), "".to_string()]]);
}

#[test]
fn assemble_headerless_names_by_position() {
    let recs = vec![vec!["1".to_string(), "2".to_string(), "3".to_string()], vec!["4".to_string(), "5".to_string(), "6".to_string()]];
    let (names, cols) = assemble_columns(false, Vec::new(), &recs);
    assert_eq!(names, vec!["0".to_string(), "1".to_string(), "2".to_string()]);
    assert_eq!(cols[0], vec!["1".to_string(), "4".to_string()]);
}

#[test]
fn reads_csv_file_with_mixed_dtypes() {
    let text = b"a,b,c\n1,1.5,x\n2,,y\n";
    let (names, raw) = read_csv_text(text, &ReadCsvOptions::default()).unwrap();
    assert_eq!(names, vec!["a".to_string(), "b".to_string(), "c".to_string()]);
    assert_eq!(raw.len(), 3);
    assert_eq!(raw[0].len(), 2);
    let na = default_na();
    match infer_with(raw[0].clone(), &na) {
        Inferred::I64(v) => assert_eq!(v, vec![1, 2]),
        other => panic!("expected I64, got {other:?}"),
    }
    match infer_with(raw[1].clone(), &na) {
        Inferred::F64(missing) => {
            assert_eq!(missing, vec![false, true]);
            assert_eq!(raw[1][0].trim().parse::<f64>().unwrap(), 1.5);
        }
        other => panic!("expected F64, got {other:?}"),
    }
    match infer_with(raw[2].clone(), &na) {
        Inferred::Str(v) => assert_eq!(v, vec!["x".to_string(), "y".to_string()]),
        other => panic!("expected Str, got {other:?}"),
    }
}

#[test]
fn reads_headerless_and_tab_delimited() {
    let opts = ReadCsvOptions { delimiter: b'\t', has_header: false, ..Default::default() };
    let (names, raw) = read_csv_text(b"1\t2\t3\n4\t5\t6\n", &opts).unwrap();
    assert_eq!(names, vec!["0".to_string(), "1".to_string(), "2".to_string()]);
    assert_eq!((raw[0].len(), raw.len()), (2, 3));
    match infer_with(raw[0].clone(), &default_na()) {
        Inferred::I64(v) => assert_eq!(v, vec![1, 4]),
        other => panic!("expected I64, got {other:?}"),
    }
}

#[test]
fn csv_text_errors() {
    // a ragged record is not CSV the reader accepts
    assert!(matches!(read_csv_text(b"a,b\n1,2,3\n", &ReadCsvOptions::default()), Err(VolasError::Value(_))));
    // a field that is not UTF-8
    assert!(matches!(read_csv_text(b"a\n\xff\n", &ReadCsvOptions::default()), Err(VolasError::Value(_))));
    // no rows at all: no columns
    let (names, raw) = read_csv_text(b"", &ReadCsvOptions::default()).unwrap();
    assert!(names.is_empty() && raw.is_empty());
    // quoted fields keep their delimiters
    let (_, raw) = read_csv_text(b"s\n\"x,y\"\n", &ReadCsvOptions::default()).unwrap();
    assert_eq!(raw[0], vec!["x,y".to_string()]);
}
