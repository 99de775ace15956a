use fsync_core::endpoint::{host_key_allowed, split_host_port};

#[test]
fn host_with_port() {
    assert_eq!(split_host_port("example.org:2222"), Ok(("example.org".to_string(), 2222)));
}

#[test]
fn host_without_port_uses_default() {
    assert_eq!(split_host_port("example.org"), Ok(("example.org".to_string(), 22)));
}

#[test]
fn bad_port_is_an_error() {
    assert_eq!(split_host_port("h:70000"), Err("invalid port in host: h:70000".to_string()));
    assert_eq!(split_host_port("h:x"), Err("invalid port in host: h:x".to_string()));
}

#[test]
fn last_colon_splits() {
    assert_eq!(split_host_port("a:b:22"), Ok(("a:b".to_string(), 22)));
}

#[test]
fn host_keys() {
    assert!(host_key_allowed(&None, "SHA256:abc", "AAAA"));
    let list = Some(vec!["SHA256:abc".to_string()]);
    assert!(host_key_allowed(&list, "SHA256:abc", "AAAA"));
    assert!(!host_key_allowed(&list, "SHA256:xyz", "AAAA"));
    let keys = Some(vec!["AAAA".to_string()]);
    assert!(host_key_allowed(&keys, "SHA256:xyz", "AAAA"));
    assert!(!host_key_allowed(&Some(vec![]), "SHA256:abc", "AAAA"));
}
