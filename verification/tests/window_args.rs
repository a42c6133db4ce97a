use volas::error::VolasError;
use volas::window_args::{describe_labels, validate_ddof, validate_interpolation, validate_rank_method};

#[test]
fn interpolation_methods() {
    for m in ["linear", "lower", "higher", "nearest", "midpoint"] {
        assert!(validate_interpolation(m).is_ok());
    }
    assert!(matches!(validate_interpolation("cubic"), Err(VolasError::Value(_))));
}

#[test]
fn ddof_must_be_non_negative() {
    assert_eq!(validate_ddof(1).unwrap(), 1);
    assert_eq!(validate_ddof(0).unwrap(), 0);
    assert!(matches!(validate_ddof(-1), Err(VolasError::Value(_))));
}

#[test]
fn rank_methods() {
    for m in ["average", "min", "max"] {
        assert!(validate_rank_method(m).is_ok());
    }
    assert!(validate_rank_method("dense").is_err());
}

#[test]
fn describe_rows() {
    assert_eq!(describe_labels(), vec!["count", "mean", "std", "min", "25%", "50%", "75%", "max"]);
}
