use fsync_core::paths::{as_posix_path, dir_chain, remote_path, to_remote_path};

#[test]
fn remote_path_joins_relative_part() {
    assert_eq!(remote_path("/home/u/proj", "/srv/data", "/home/u/proj/a/b.txt"), "/srv/data/a/b.txt");
}

#[test]
fn remote_path_ignores_trailing_slashes() {
    assert_eq!(remote_path("/home/u/proj/", "/srv/data/", "/home/u/proj/a.txt"), "/srv/data/a.txt");
}

#[test]
fn remote_path_outside_root_is_kept() {
    assert_eq!(remote_path("/home/u/proj", "/srv/data", "/etc/hosts"), "/etc/hosts");
}

#[test]
fn remote_path_needs_component_boundary() {
    assert_eq!(remote_path("/home/u/proj", "/srv", "/home/u/project/x"), "/home/u/project/x");
}

#[test]
fn remote_path_of_root_itself() {
    assert_eq!(remote_path("/home/u/proj", "/srv", "/home/u/proj"), "/srv/");
}

#[test]
fn remote_path_folds_backslashes() {
    assert_eq!(remote_path("/l", "/srv", "/l/a\\b.txt"), "/srv/a/b.txt");
}

#[test]
fn remote_path_twice_is_identity() {
    let once = remote_path("/home/u/proj", "/srv/data", "/home/u/proj/x/y");
    let twice = remote_path("/home/u/proj", "/srv/data", &once);
    assert_eq!(once, twice);
}

#[test]
fn posix_conversion() {
    assert_eq!(as_posix_path("a\\b\\c"), "a/b/c");
    assert_eq!(as_posix_path("a/b"), "a/b");
    assert_eq!(as_posix_path(""), "");
    assert_eq!(to_remote_path("x\\y"), "x/y");
}

#[test]
fn dir_chain_top_down() {
    assert_eq!(dir_chain("/srv/a/b"), vec!["/srv".to_string(), "/srv/a".to_string(), "/srv/a/b".to_string()]);
    assert_eq!(dir_chain("a/b"), vec!["a".to_string(), "a/b".to_string()]);
    assert!(dir_chain("/").is_empty());
    assert!(dir_chain("").is_empty());
}
