use fsync_core::event::FsEvent;
use fsync_core::gate::{plan_batch, store_writes, FileInfo, Observed};
use fsync_core::remote::RemoteOp;

fn seen(size: u64, mtime: u64, stored: Option<u64>) -> Observed {
    Observed { stat: Some(FileInfo { size, mtime }), stored }
}

#[test]
fn mtime_equal_to_stored_skips_upload() {
    let p = plan_batch(&vec![FsEvent::Modify("/l/a".into())], &vec![seen(10, 100, Some(100))], "/l", "/r", None, None);
    assert!(p.ops.is_empty());
    assert!(p.ts_updates.is_empty());
}

#[test]
fn newer_mtime_uploads_and_records() {
    let p = plan_batch(&vec![FsEvent::Create("/l/a".into())], &vec![seen(10, 101, Some(100))], "/l", "/r", None, None);
    assert_eq!(p.ops, vec![RemoteOp::Upload { local: "/l/a".into(), remote: "/r/a".into() }]);
    assert_eq!(p.ts_updates, vec![("/l/a".to_string(), 101)]);
}

#[test]
fn file_below_size_min_skipped() {
    let p = plan_batch(&vec![FsEvent::Modify("/l/a".into())], &vec![seen(5, 100, None)], "/l", "/r", Some(10), None);
    assert!(p.ops.is_empty());
    assert!(p.ts_updates.is_empty());
}

#[test]
fn file_above_size_max_skipped() {
    let p = plan_batch(&vec![FsEvent::Modify("/l/a".into())], &vec![seen(50, 100, None)], "/l", "/r", None, Some(10));
    assert!(p.ops.is_empty());
}

#[test]
fn unreadable_file_skipped() {
    let p = plan_batch(&vec![FsEvent::Modify("/l/a".into())], &vec![Observed { stat: None, stored: None }], "/l", "/r", None, None);
    assert!(p.ops.is_empty());
    assert!(p.ts_updates.is_empty());
}

#[test]
fn rename_hands_stored_mtime_to_target() {
    let p = plan_batch(
        &vec![FsEvent::Rename("/l/a".into(), "/l/b".into())],
        &vec![Observed { stat: None, stored: Some(42) }],
        "/l",
        "/r",
        None,
        None,
    );
    assert_eq!(p.ops, vec![RemoteOp::Rename { from: "/r/a".into(), to: "/r/b".into() }]);
    let expected = vec![("/l/b".to_string(), 42), ("/l/a".to_string(), 0)];
    assert_eq!(p.ts_updates, expected);
    assert_eq!(store_writes(true, p.ts_updates.clone()), expected);
    assert!(store_writes(false, p.ts_updates).is_empty());
}

#[test]
fn rename_without_stored_mtime_clears_source() {
    let p = plan_batch(
        &vec![FsEvent::Rename("/l/a".into(), "/l/b".into())],
        &vec![Observed { stat: None, stored: None }],
        "/l",
        "/r",
        None,
        None,
    );
    assert_eq!(p.ts_updates, vec![("/l/a".to_string(), 0)]);
}

#[test]
fn remove_and_mkdir() {
    let p = plan_batch(
        &vec![FsEvent::Remove("/l/x".into()), FsEvent::MkDir("/l/d".into())],
        &vec![Observed { stat: None, stored: None }, Observed { stat: None, stored: None }],
        "/l",
        "/r",
        None,
        None,
    );
    assert_eq!(p.ops, vec![RemoteOp::Remove { remote: "/r/x".into() }, RemoteOp::MkDir { remote: "/r/d".into() }]);
    assert_eq!(p.ts_updates, vec![("/l/x".to_string(), 0)]);
}
