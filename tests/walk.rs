use fsync_core::walk::{mkdir_created, mkdir_probed, mkdir_start, DirEntry, MkdirStep, PathKind, RemovalWalk, WalkAction};

fn entry(name: &str, is_dir: bool) -> DirEntry {
    DirEntry { name: name.into(), is_dir }
}

#[test]
fn removes_bottom_up() {
    let mut w = RemovalWalk::new("/r/t".into());
    assert_eq!(w.next(), WalkAction::List("/r/t".into()));
    let files = w.listed("/r/t", &vec![entry(".", true), entry("..", true), entry("f", false), entry("sub", true)]);
    assert_eq!(files, vec!["/r/t/f".to_string()]);
    assert_eq!(w.next(), WalkAction::List("/r/t/sub".into()));
    let files = w.listed("/r/t/sub", &vec![entry("g", false)]);
    assert_eq!(files, vec!["/r/t/sub/g".to_string()]);
    assert_eq!(w.next(), WalkAction::RemoveDir("/r/t/sub".into()));
    assert_eq!(w.next(), WalkAction::RemoveDir("/r/t".into()));
    assert_eq!(w.next(), WalkAction::Done);
}

#[test]
fn mkdir_decisions() {
    assert_eq!(mkdir_start(PathKind::Dir), MkdirStep::Continue);
    assert_eq!(mkdir_start(PathKind::Other), MkdirStep::NotADirectory);
    assert_eq!(mkdir_start(PathKind::Absent), MkdirStep::CreateChain);
    assert_eq!(mkdir_created(true, false), MkdirStep::Continue);
    assert_eq!(mkdir_created(false, true), MkdirStep::Probe);
    assert_eq!(mkdir_created(false, false), MkdirStep::Fail);
    assert_eq!(mkdir_probed(PathKind::Dir), MkdirStep::Continue);
    assert_eq!(mkdir_probed(PathKind::Other), MkdirStep::NotADirectory);
    assert_eq!(mkdir_probed(PathKind::Absent), MkdirStep::Fail);
}
