//! The column dtypes and their pandas-style spellings.

use vstd::prelude::*;
use crate::error::VolasError;
use crate::text::same_text;

verus! {

/// A column dtype.
#[derive(Debug, Clone, Copy, PartialEq, Eq, Structural)]
pub enum DType {
    F64,
    F32,
    I64,
    I32,
    Bool,
    Utf8,
    Datetime,
}

/// The dtype a pandas-style dtype string names, or `None` when it names none
/// (`"object"` / `"O"` included: there is no object dtype).
pub open spec fn spec_parse_dtype(s: Seq<char>) -> Option<DType> {
    if s == "float"@ || s == "float64"@ || s == "float_"@ || s == "double"@ || s == "f64"@ {
        Some(DType::F64)
    } else if s == "float32"@ || s == "single"@ || s == "f32"@ {
        Some(DType::F32)
    } else if s == "int"@ || s == "int64"@ || s == "int_"@ || s == "long"@ || s == "i64"@ {
        Some(DType::I64)
    } else if s == "int32"@ || s == "i32"@ {
        Some(DType::I32)
    } else if s == "bool"@ || s == "boolean"@ {
        Some(DType::Bool)
    } else if s == "str"@ || s == "string"@ {
        Some(DType::Utf8)
    } else if s == "datetime"@ || s == "datetime64"@ || s == "datetime64[ns]"@ {
        Some(DType::Datetime)
    } else {
        None
    }
}

/// Parse a pandas-style dtype string. An unknown spelling, and the object
/// dtype that does not exist here, are `Value` errors.
pub fn parse_dtype(s: &str) -> (r: Result<DType, VolasError>)
    ensures
        match r {
            Ok(d) => spec_parse_dtype(s@) == Some(d),
            Err(e) => spec_parse_dtype(s@) is None && e is Value,
        },
{
    if same_text(s, "float") || same_text(s, "float64") || same_text(s, "float_") || same_text(s, "double")
        || same_text(s, "f64") {
        Ok(DType::F64)
    } else if same_text(s, "float32") || same_text(s, "single") || same_text(s, "f32") {
        Ok(DType::F32)
    } else if same_text(s, "int") || same_text(s, "int64") || same_text(s, "int_") || same_text(s, "long")
        || same_text(s, "i64") {
        Ok(DType::I64)
    } else if same_text(s, "int32") || same_text(s, "i32") {
        Ok(DType::I32)
    } else if same_text(s, "bool") || same_text(s, "boolean") {
        Ok(DType::Bool)
    } else if same_text(s, "str") || same_text(s, "string") {
        Ok(DType::Utf8)
    } else if same_text(s, "datetime") || same_text(s, "datetime64") || same_text(s, "datetime64[ns]") {
        Ok(DType::Datetime)
    } else if same_text(s, "object") || same_text(s, "O") {
        Err(VolasError::Value("volas has no object dtype; use \"str\" for text columns".to_owned()))
    } else {
        let mut m = "unknown dtype \"".to_owned();
        m.append(s);
        m.append("\"");
        Err(VolasError::Value(m))
    }
}

} // verus!
