use fsync_core::event::{event_to_ops, FsEvent, WatchKind};
use fsync_core::remote::{split_uploads, tolerated, OpOutcome, RemoteOp};

#[test]
fn normalises_each_kind() {
    let ps = vec!["/a".to_string(), "/b".to_string()];
    assert_eq!(event_to_ops(WatchKind::CreateFile, ps.clone()), vec![FsEvent::Create("/a".into()), FsEvent::Create("/b".into())]);
    assert_eq!(event_to_ops(WatchKind::CreateFolder, vec!["/d".into()]), vec![FsEvent::MkDir("/d".into())]);
    assert_eq!(event_to_ops(WatchKind::ModifyMetadata, vec!["/a".into()]), vec![FsEvent::Modify("/a".into())]);
    assert_eq!(event_to_ops(WatchKind::ModifyData, vec!["/a".into()]), vec![FsEvent::Modify("/a".into())]);
    assert_eq!(event_to_ops(WatchKind::RemoveFolder, vec!["/d".into()]), vec![FsEvent::Remove("/d".into())]);
    assert_eq!(event_to_ops(WatchKind::ModifyName, ps), vec![FsEvent::Rename("/a".into(), "/b".into())]);
    assert!(event_to_ops(WatchKind::ModifyName, vec!["/a".into()]).is_empty());
    assert!(event_to_ops(WatchKind::Other, vec!["/a".into()]).is_empty());
}

#[test]
fn uploads_go_first_others_keep_order() {
    let ops = vec![
        RemoteOp::Remove { remote: "/r/x".into() },
        RemoteOp::Upload { local: "/l/a".into(), remote: "/r/a".into() },
        RemoteOp::MkDir { remote: "/r/d".into() },
        RemoteOp::Upload { local: "/l/b".into(), remote: "/r/b".into() },
    ];
    let (up, rest) = split_uploads(&ops);
    assert_eq!(up, vec![("/l/a".to_string(), "/r/a".to_string()), ("/l/b".to_string(), "/r/b".to_string())]);
    assert_eq!(rest, vec![RemoteOp::Remove { remote: "/r/x".into() }, RemoteOp::MkDir { remote: "/r/d".into() }]);
}

#[test]
fn which_outcomes_are_tolerated() {
    let rm = RemoteOp::Remove { remote: "/r/x".into() };
    let mv = RemoteOp::Rename { from: "/r/a".into(), to: "/r/b".into() };
    let mk = RemoteOp::MkDir { remote: "/r/d".into() };
    assert!(tolerated(&rm, OpOutcome::Missing));
    assert!(!tolerated(&rm, OpOutcome::Failed));
    assert!(tolerated(&mv, OpOutcome::Failed));
    assert!(tolerated(&mk, OpOutcome::Done));
    assert!(!tolerated(&mk, OpOutcome::Missing));
}
