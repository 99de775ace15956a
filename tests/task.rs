use fsync_core::config::{config_format, ConfigFormat, Pattern, RemoteCfg, TaskConfig};
use fsync_core::event::FsEvent;
use fsync_core::task::{state_after_flush, TaskState, Batcher, LoopAction, LoopInput, Retry, RetryStep, SyncTask, TaskCommand, DEBOUNCE_MS};

fn config(size: Option<&str>) -> TaskConfig {
    TaskConfig {
        id: "0f8fad5b-d9cb-469f-a165-70867728950e".into(),
        name: "docs".into(),
        local: "/l".into(),
        remote: "/r".into(),
        inclusions: vec![],
        exclusions: vec![Pattern("*.tmp".into())],
        scan_ms: TaskConfig::default_scan_ms(),
        size: size.map(|s| s.to_string()),
        retry_max: TaskConfig::default_retry_max(),
        retry_backoff_ms: TaskConfig::default_retry_backoff_ms(),
        remote_cfg: RemoteCfg::Sftp { host: "h".into(), user: "u".into(), password: None, key: None, fingerprints: None },
    }
}

#[test]
fn defaults() {
    assert_eq!(TaskConfig::default_scan_ms(), 300);
    assert_eq!(TaskConfig::default_retry_max(), 3);
    assert_eq!(TaskConfig::default_retry_backoff_ms(), 500);
}

#[test]
fn batcher_collects_and_flushes() {
    let mut b = Batcher::new();
    assert!(matches!(b.step(LoopInput::TimerFired), LoopAction::Wait));
    assert!(matches!(b.step(LoopInput::Event(FsEvent::Modify("a".into()))), LoopAction::ArmTimer(DEBOUNCE_MS)));
    assert!(matches!(b.step(LoopInput::Event(FsEvent::Modify("b".into()))), LoopAction::ArmTimer(150)));
    match b.step(LoopInput::TimerFired) {
        LoopAction::Flush(v) => assert_eq!(v, vec![FsEvent::Modify("a".into()), FsEvent::Modify("b".into())]),
        _ => panic!("expected a flush"),
    }
    assert!(matches!(b.step(LoopInput::TimerFired), LoopAction::Wait));
}

#[test]
fn stop_hands_over_remaining_batch() {
    let mut b = Batcher::new();
    b.step(LoopInput::Event(FsEvent::Remove("x".into())));
    match b.step(LoopInput::Command(TaskCommand::Stop)) {
        LoopAction::Shutdown(v) => assert_eq!(v, vec![FsEvent::Remove("x".into())]),
        _ => panic!("expected shutdown"),
    }
}

#[test]
fn retry_ladder_doubles_and_gives_up() {
    let mut r = Retry::new(3, 500);
    assert_eq!(r.on_result(false), RetryStep::Wait(500));
    assert_eq!(r.on_result(false), RetryStep::Wait(1000));
    assert_eq!(r.on_result(false), RetryStep::Wait(2000));
    assert_eq!(r.on_result(false), RetryStep::GiveUp);
}

#[test]
fn retry_done_on_success_and_saturates() {
    let mut r = Retry::new(2, u64::MAX - 1);
    assert_eq!(r.on_result(true), RetryStep::Done);
    assert_eq!(r.on_result(false), RetryStep::Wait(u64::MAX - 1));
    assert_eq!(r.on_result(false), RetryStep::Wait(u64::MAX));
    assert_eq!(r.on_result(false), RetryStep::GiveUp);
}

#[test]
fn no_retries_gives_up_at_once() {
    let mut r = Retry::new(0, 10);
    assert_eq!(r.on_result(false), RetryStep::GiveUp);
}

#[test]
fn task_parses_bounds_and_filters_events() {
    let t = SyncTask::new(config(Some("10..")));
    assert_eq!((t.size_min, t.size_max), (Some(10), None));
    assert!(t.admits(&FsEvent::Modify("/l/a.txt".into())));
    assert!(!t.admits(&FsEvent::Modify("/l/a.tmp".into())));
    assert!(t.admits(&FsEvent::Rename("/l/a.tmp".into(), "/l/a.txt".into())));
    assert!(!t.admits(&FsEvent::Rename("/l/a.tmp".into(), "/l/b.tmp".into())));
}

#[test]
fn task_plans_against_its_roots() {
    let t = SyncTask::new(config(None));
    let p = t.plan(&vec![FsEvent::MkDir("/l/d".into())], &vec![fsync_core::gate::Observed { stat: None, stored: None }]);
    assert_eq!(p.ops, vec![fsync_core::remote::RemoteOp::MkDir { remote: "/r/d".into() }]);
}

#[test]
fn repeated_modifies_merge_until_interrupted() {
    let t = SyncTask::new(config(None));
    let m = |p: &str| FsEvent::Modify(p.into());
    let out = t.collapse_ops(vec![m("a"), m("b"), m("a"), FsEvent::Remove("a".into()), m("a"), m("a"), m("b")]);
    assert_eq!(out, vec![m("a"), m("b"), FsEvent::Remove("a".into()), m("a")]);
    let renamed = t.collapse_ops(vec![m("a"), FsEvent::Rename("x".into(), "a".into()), m("a")]);
    assert_eq!(renamed, vec![m("a"), FsEvent::Rename("x".into(), "a".into()), m("a")]);
}

#[test]
fn config_format_by_extension() {
    assert_eq!(config_format("tasks.json"), ConfigFormat::Json);
    assert_eq!(config_format("/etc/fsync/tasks.yaml"), ConfigFormat::Yaml);
    assert_eq!(config_format("conf.yml"), ConfigFormat::Yaml);
    assert_eq!(config_format("config"), ConfigFormat::Yaml);
    assert_eq!(config_format("dir/.json"), ConfigFormat::Yaml);
    assert_eq!(config_format("a.json/b.toml"), ConfigFormat::Yaml);
}

#[test]
fn state_after_a_batch() {
    assert_eq!(state_after_flush(None), TaskState::Running);
    assert_eq!(state_after_flush(Some("down".into())), TaskState::Error("batch error: down".into()));
}
