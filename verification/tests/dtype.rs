use volas::dtype::{parse_dtype, DType};
use volas::error::VolasError;

#[test]
fn dtype_spellings() {
    for (s, d) in [
        ("float", DType::F64),
        ("float64", DType::F64),
        ("double", DType::F64),
        ("float32", DType::F32),
        ("single", DType::F32),
        ("int", DType::I64),
        ("long", DType::I64),
        ("int32", DType::I32),
        ("i32", DType::I32),
        ("boolean", DType::Bool),
        ("string", DType::Utf8),
        ("str", DType::Utf8),
        ("datetime64[ns]", DType::Datetime),
        ("datetime", DType::Datetime),
    ] {
        assert_eq!(parse_dtype(s).unwrap(), d, "{s}");
    }
}

#[test]
fn object_and_unknown_dtypes_are_refused() {
    match parse_dtype("object") {
        Err(VolasError::Value(m)) => assert!(m.contains("no object dtype")),
        other => panic!("expected a value error, got {other:?}"),
    }
    assert!(matches!(parse_dtype("O"), Err(VolasError::Value(_))));
    match parse_dtype("complex128") {
        Err(VolasError::Value(m)) => assert_eq!(m, "unknown dtype \"complex128\""),
        other => panic!("expected a value error, got {other:?}"),
    }
    assert!(matches!(parse_dtype("Float64"), Err(VolasError::Value(_))));
}
