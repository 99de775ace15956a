use fsync_core::config::Pattern;
use fsync_core::filter::{filter_verdict, PathFilter};

#[test]
fn test_filter_basic() {
    let inclusions = vec![Pattern("**/*.rs".into())];
    let exclusions = vec![Pattern("tests/**".into())];
    let filter = PathFilter::new(&inclusions, &exclusions);
    assert!(filter.check("src/lib.rs"));
    assert!(!filter.check("tests/main.rs"));
    assert!(!filter.check("README.md"));
}

#[test]
fn empty_inclusion_list_lets_all_but_excluded_through() {
    let filter = PathFilter::new(&[], &[Pattern("*.tmp".into())]);
    assert!(filter.check("a/b.txt"));
    assert!(!filter.check("x.tmp"));
}

#[test]
fn empty_filter_lets_everything_through() {
    let filter = PathFilter::new(&[], &[]);
    assert!(filter.check("anything"));
}

#[test]
fn bad_pattern_is_skipped() {
    let filter = PathFilter::new(&[Pattern("a[".into()), Pattern("*.md".into())], &[]);
    assert!(filter.check("README.md"));
    assert!(!filter.check("main.rs"));
}

#[test]
fn verdict_table() {
    assert!(filter_verdict(true, false, false));
    assert!(filter_verdict(false, true, false));
    assert!(!filter_verdict(false, false, false));
    assert!(!filter_verdict(true, true, true));
}
