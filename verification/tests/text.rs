use volas::text::{html_escape, i64_text, lead_num, ljust, py_center, rjust, u64_text};

#[test]
fn justification_pads_to_width() {
    assert_eq!(ljust("ab", 4), "ab  ");
    assert_eq!(rjust("ab", 4), "  ab");
    assert_eq!(ljust("abcdef", 3), "abcdef");
    assert_eq!(rjust("abcdef", 3), "abcdef");
    assert_eq!(rjust("é", 3), "  é");
}

#[test]
fn center_matches_python() {
    assert_eq!(py_center("ab", 5), "  ab ");
    assert_eq!(py_center("ab", 6), "  ab  ");
    assert_eq!(py_center("abc", 6), " abc  ");
    assert_eq!(py_center("...", 2), "...");
}

#[test]
fn lead_num_reserves_sign_slot() {
    assert_eq!(lead_num(false, "5".to_string()), " 5");
    assert_eq!(lead_num(true, "-5".to_string()), "-5");
}

#[test]
fn html_escape_all_five() {
    assert_eq!(html_escape("<a href=\"x\">&'"), "&lt;a href=&quot;x&quot;&gt;&amp;&#x27;");
    assert_eq!(html_escape("plain"), "plain");
}

#[test]
fn integer_texts() {
    assert_eq!(u64_text(0), "0");
    assert_eq!(u64_text(1234567890), "1234567890");
    assert_eq!(i64_text(-42), "-42");
    assert_eq!(i64_text(i64::MIN), "-9223372036854775808");
    assert_eq!(i64_text(i64::MAX), "9223372036854775807");
}
