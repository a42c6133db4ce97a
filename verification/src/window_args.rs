//! Argument checks of the rolling / expanding window API.

use vstd::prelude::*;

use crate::error::VolasError;
use crate::text::same_text;

verus! {

/// The quantile interpolation methods pandas accepts.
pub open spec fn is_interpolation(s: Seq<char>) -> bool {
    s == "linear"@ || s == "lower"@ || s == "higher"@ || s == "nearest"@ || s == "midpoint"@
}

/// Accept one of pandas's quantile interpolation methods.
pub fn validate_interpolation(interpolation: &str) -> (r: Result<(), VolasError>)
    ensures
        r is Ok <==> is_interpolation(interpolation@),
        r matches Err(e) ==> e is Value,
{
    if same_text(interpolation, "linear") || same_text(interpolation, "lower") || same_text(interpolation, "higher")
        || same_text(interpolation, "nearest") || same_text(interpolation, "midpoint") {
        Ok(())
    } else {
        let mut m = "interpolation must be one of linear/lower/higher/nearest/midpoint, got \"".to_owned();
        m.append(interpolation);
        m.append("\"");
        Err(VolasError::Value(m))
    }
}

/// A degrees-of-freedom correction: a negative one is refused.
pub fn validate_ddof(ddof: i64) -> (r: Result<usize, VolasError>)
    ensures
        match r {
            Ok(d) => ddof >= 0 && d == ddof as usize,
            Err(e) => ddof < 0 && e is Value,
        },
{
    if ddof < 0 {
        return Err(VolasError::Value("ddof must be >= 0".to_owned()));
    }
    Ok(ddof as usize)
}

/// The ranking methods accepted.
pub open spec fn is_rank_method(s: Seq<char>) -> bool {
    s == "average"@ || s == "min"@ || s == "max"@
}

/// Accept one of the ranking methods `average`, `min`, `max`.
pub fn validate_rank_method(method: &str) -> (r: Result<(), VolasError>)
    ensures
        r is Ok <==> is_rank_method(method@),
        r matches Err(e) ==> e is Value,
{
    if same_text(method, "average") || same_text(method, "min") || same_text(method, "max") {
        Ok(())
    } else {
        let mut m = "rank method must be 'average', 'min' or 'max', got \"".to_owned();
        m.append(method);
        m.append("\"");
        Err(VolasError::Value(m))
    }
}

/// The row labels of a `describe` result.
pub open spec fn spec_describe_labels() -> Seq<Seq<char>> {
    seq!["count"@, "mean"@, "std"@, "min"@, "25%"@, "50%"@, "75%"@, "max"@]
}

/// The row labels of a `describe` result, in order.
pub fn describe_labels() -> (r: Vec<String>)
    ensures
        crate::frame::texts(r@) == spec_describe_labels(),
{
    let mut r: Vec<String> = Vec::new();
    r.push("count".to_owned());
    r.push("mean".to_owned());
    r.push("std".to_owned());
    r.push("min".to_owned());
    r.push("25%".to_owned());
    r.push("50%".to_owned());
    r.push("75%".to_owned());
    r.push("max".to_owned());
    assert(crate::frame::texts(r@) =~= spec_describe_labels());
    r
}

} // verus!
