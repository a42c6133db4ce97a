//! The library's error type.

use vstd::prelude::*;

verus! {

/// What went wrong, with a human-readable message.
#[derive(Debug, Clone)]
pub enum VolasError {
    /// A value (argument, label, name) is not acceptable.
    Value(String),
    /// An operation does not apply to a column of this dtype.
    DType(String),
    /// A position is out of range.
    Index(String),
    /// An operation does not apply to a value of this kind (a naive or an
    /// aware timestamp, say).
    Type(String),
    /// A result falls outside the representable range.
    Overflow(String),
    /// A label or column name is not there.
    Key(String),
}

impl VolasError {
    /// The message carried by the error.
    pub fn message(&self) -> (r: &String)
        ensures
            r == match self {
                VolasError::Value(m) => m,
                VolasError::DType(m) => m,
                VolasError::Index(m) => m,
                VolasError::Type(m) => m,
                VolasError::Overflow(m) => m,
                VolasError::Key(m) => m,
            },
    {
        match self {
            VolasError::Value(m) => m,
            VolasError::DType(m) => m,
            VolasError::Index(m) => m,
            VolasError::Type(m) => m,
            VolasError::Overflow(m) => m,
            VolasError::Key(m) => m,
        }
    }
}

} // verus!
