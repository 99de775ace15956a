use fsync_core::size::{parse_size_filter, parse_trimmed_size};

#[test]
fn full_range() {
    assert_eq!(parse_size_filter(Some("10..20")), (Some(10), Some(20)));
}

#[test]
fn upper_bound_only() {
    assert_eq!(parse_size_filter(Some("..5")), (None, Some(5)));
}

#[test]
fn lower_bound_only() {
    assert_eq!(parse_size_filter(Some("5..")), (Some(5), None));
}

#[test]
fn bare_number_is_lower_bound() {
    assert_eq!(parse_size_filter(Some("7")), (Some(7), None));
}

#[test]
fn surrounding_space_ignored() {
    assert_eq!(parse_size_filter(Some("  3..4 ")), (Some(3), Some(4)));
}

#[test]
fn empty_and_absent() {
    assert_eq!(parse_size_filter(Some("")), (None, None));
    assert_eq!(parse_size_filter(Some("   ")), (None, None));
    assert_eq!(parse_size_filter(Some("..")), (None, None));
    assert_eq!(parse_size_filter(None), (None, None));
}

#[test]
fn bad_numbers_are_dropped() {
    assert_eq!(parse_size_filter(Some("abc")), (None, None));
    assert_eq!(parse_size_filter(Some("x..5")), (None, Some(5)));
    assert_eq!(parse_size_filter(Some("1...2")), (Some(1), None));
}

#[test]
fn plus_sign_and_limits() {
    assert_eq!(parse_size_filter(Some("+5")), (Some(5), None));
    assert_eq!(parse_size_filter(Some("18446744073709551615")), (Some(u64::MAX), None));
    assert_eq!(parse_size_filter(Some("18446744073709551616")), (None, None));
}

#[test]
fn trimmed_ranges() {
    assert_eq!(parse_trimmed_size("1..2"), (Some(1), Some(2)));
    assert_eq!(parse_trimmed_size(" 1..2"), (None, Some(2)));
    assert_eq!(parse_trimmed_size(""), (None, None));
}

#[test]
fn unicode_white_space_trimmed() {
    assert_eq!(parse_size_filter(Some("\u{a0}5..\u{3000}")), (Some(5), None));
    assert_eq!(parse_size_filter(Some("\t\n7\u{2009}")), (Some(7), None));
}
