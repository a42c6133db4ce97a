use volas::error::VolasError;
use volas::positions::{
    check_fill_shape, datetime_unit_of, days_in_month_of, head_tail_window, norm_idx, parse_freq_ns, strided,
};

#[test]
fn head_and_tail_windows_follow_python_slicing() {
    assert_eq!(head_tail_window(2, 5, true), (0, 2));
    assert_eq!(head_tail_window(-2, 5, true), (0, 3));
    assert_eq!(head_tail_window(10, 5, true), (0, 5));
    assert_eq!(head_tail_window(-10, 5, true), (0, 0));
    assert_eq!(head_tail_window(2, 5, false), (3, 5));
    assert_eq!(head_tail_window(-2, 5, false), (2, 5));
    assert_eq!(head_tail_window(10, 5, false), (0, 5));
    assert_eq!(head_tail_window(-10, 5, false), (5, 5));
}

#[test]
fn norm_idx_resolves_negative_positions() {
    assert_eq!(norm_idx(-1, 3).unwrap(), 2);
    assert_eq!(norm_idx(0, 3).unwrap(), 0);
    assert!(matches!(norm_idx(3, 3), Err(VolasError::Index(_))));
    assert!(matches!(norm_idx(-4, 3), Err(VolasError::Index(_))));
}

#[test]
fn datetime_units() {
    assert_eq!(datetime_unit_of("datetime"), Some("ns"));
    assert_eq!(datetime_unit_of("datetime64[ns]"), Some("ns"));
    assert_eq!(datetime_unit_of("datetime64[ms]"), Some("ms"));
    assert_eq!(datetime_unit_of("datetime64[s]"), Some("s"));
    assert_eq!(datetime_unit_of("datetime64[us]"), Some("us"));
    assert_eq!(datetime_unit_of("int64"), None);
}

#[test]
fn month_lengths() {
    assert_eq!(days_in_month_of(2024, 2), 29);
    assert_eq!(days_in_month_of(2023, 2), 28);
    assert_eq!(days_in_month_of(1900, 2), 28);
    assert_eq!(days_in_month_of(2000, 2), 29);
    assert_eq!(days_in_month_of(2024, 4), 30);
    assert_eq!(days_in_month_of(2024, 12), 31);
}

#[test]
fn frequencies_in_nanoseconds() {
    assert_eq!(parse_freq_ns("15min").unwrap(), 900_000_000_000);
    assert_eq!(parse_freq_ns("D").unwrap(), 86_400_000_000_000);
    assert_eq!(parse_freq_ns(" 2h ").unwrap(), 7_200_000_000_000);
    assert_eq!(parse_freq_ns("250ms").unwrap(), 250_000_000);
    assert_eq!(parse_freq_ns("ns").unwrap(), 1);
    assert!(matches!(parse_freq_ns("0s"), Err(VolasError::Value(_))));
    assert!(matches!(parse_freq_ns("x"), Err(VolasError::Value(_))));
    assert!(matches!(parse_freq_ns("1.5h"), Err(VolasError::Value(_))));
    assert!(matches!(parse_freq_ns("99999999999999999999s"), Err(VolasError::Value(_))));
}

#[test]
fn strided_positions_follow_python_ranges() {
    assert_eq!(strided(0, 5, 2), vec![0, 2, 4]);
    assert_eq!(strided(4, -1, -2), vec![4, 2, 0]);
    assert_eq!(strided(4, 1, -1), vec![4, 3, 2]);
    assert_eq!(strided(0, 10, 100), vec![0]);
    assert_eq!(strided(5, 0, 1), Vec::<usize>::new());
    assert_eq!(strided(0, 3, 0), Vec::<usize>::new());
    assert_eq!(strided(2, 2, -1), Vec::<usize>::new());
}

#[test]
fn fill_shape_must_match() {
    assert!(check_fill_shape(&vec![2, 3], 2, 3).is_ok());
    assert!(matches!(check_fill_shape(&vec![3, 2], 2, 3), Err(VolasError::Value(_))));
    assert!(check_fill_shape(&vec![2, 3, 1], 2, 3).is_err());
}
