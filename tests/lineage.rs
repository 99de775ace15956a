use fsync_core::event::FsEvent;
use fsync_core::lineage::collapse_ops;

fn c(p: &str) -> FsEvent {
    FsEvent::Create(p.into())
}
fn m(p: &str) -> FsEvent {
    FsEvent::Modify(p.into())
}
fn rm(p: &str) -> FsEvent {
    FsEvent::Remove(p.into())
}
fn mk(p: &str) -> FsEvent {
    FsEvent::MkDir(p.into())
}
fn mv(a: &str, b: &str) -> FsEvent {
    FsEvent::Rename(a.into(), b.into())
}

#[test]
fn main() {
    let evts = vec![
        FsEvent::Create("A".into()),
        FsEvent::Create("S".into()),
        FsEvent::Modify("A".into()),
        FsEvent::Modify("S".into()),
        FsEvent::Rename("A".into(), "B".into()),
        FsEvent::Rename("X".into(), "A".into()),
        FsEvent::Modify("A".into()),
        FsEvent::Remove("C".into()),
        FsEvent::MkDir("D".into()),
        FsEvent::Rename("A".into(), "D/A".into()),
        FsEvent::Rename("F".into(), "A".into()),
        FsEvent::Modify("A".into()),
        FsEvent::Modify("A".into()),
        FsEvent::Rename("A1".into(), "B1".into()),
        FsEvent::Rename("B1".into(), "C1".into()),
        FsEvent::Rename("C1".into(), "D1".into()),
    ];
    let result = collapse_ops(evts);
    for op in result {
        println!("{:?}", op);
    }
}

#[test]
fn mixed_batch_compresses_to_expected_list() {
    let evts = vec![
        c("A"), c("S"), m("A"), m("S"), mv("A", "B"), mv("X", "A"), m("A"), rm("C"), mk("D"),
        mv("A", "D/A"), mv("F", "A"), m("A"), m("A"), mv("A1", "B1"), mv("B1", "C1"), mv("C1", "D1"),
    ];
    assert_eq!(
        collapse_ops(evts),
        vec![m("S"), c("B"), rm("C"), mk("D"), rm("X"), c("D/A"), rm("F"), m("A"), mv("A1", "D1")]
    );
}

#[test]
fn create_then_modify_keeps_latest_only() {
    assert_eq!(collapse_ops(vec![c("A"), m("A")]), vec![m("A")]);
}

#[test]
fn create_then_rename_creates_target() {
    assert_eq!(collapse_ops(vec![c("A"), mv("A", "B")]), vec![c("B")]);
}

#[test]
fn rename_then_modify_removes_source() {
    assert_eq!(collapse_ops(vec![mv("A", "B"), m("B")]), vec![rm("A"), m("B")]);
}

#[test]
fn rename_chain_collapses() {
    assert_eq!(
        collapse_ops(vec![mv("A1", "B1"), mv("B1", "C1"), mv("C1", "D1")]),
        vec![mv("A1", "D1")]
    );
}

#[test]
fn repeated_modify_kept_once() {
    assert_eq!(collapse_ops(vec![m("A"), m("A"), m("A")]), vec![m("A")]);
}

#[test]
fn mkdir_and_moved_then_modified_file() {
    assert_eq!(
        collapse_ops(vec![mk("D"), mv("A", "D/A"), m("D/A")]),
        vec![mk("D"), rm("A"), m("D/A")]
    );
}

#[test]
fn rename_onto_path_with_history_keeps_both() {
    assert_eq!(collapse_ops(vec![c("B"), mv("A", "B")]), vec![c("B"), mv("A", "B")]);
}

#[test]
fn event_on_rename_source_starts_new_chain() {
    assert_eq!(
        collapse_ops(vec![c("A"), mv("A", "B"), m("A")]),
        vec![c("B"), m("A")]
    );
}

#[test]
fn remove_emitted_once_per_path() {
    let out = collapse_ops(vec![mv("A", "B"), m("B"), rm("A")]);
    assert_eq!(out, vec![rm("A"), m("B")]);
}

#[test]
fn output_names_only_input_paths() {
    let input = vec![mv("/r/a", "/r/b"), m("/r/b"), mk("/r/d"), rm("/r/x")];
    let names: Vec<String> = vec!["/r/a".into(), "/r/b".into(), "/r/d".into(), "/r/x".into()];
    for e in collapse_ops(input) {
        let ps = match e {
            FsEvent::Rename(a, b) => vec![a, b],
            FsEvent::Create(p) | FsEvent::Modify(p) | FsEvent::Remove(p) | FsEvent::MkDir(p) => vec![p],
        };
        for p in ps {
            assert!(names.contains(&p));
        }
    }
}

#[test]
fn modified_then_renamed_file_is_created_at_target() {
    assert_eq!(collapse_ops(vec![m("A"), mv("A", "B")]), vec![c("B")]);
}

#[test]
fn empty_batch_stays_empty() {
    assert_eq!(collapse_ops(vec![]), Vec::<FsEvent>::new());
}

#[test]
fn path_is_rename_target() {
    assert_eq!(mv("A", "B").path(), "B");
    assert_eq!(m("A").path(), "A");
}

#[test]
fn single_path_history_keeps_last_event() {
    assert_eq!(collapse_ops(vec![c("A"), m("A"), rm("A")]), vec![rm("A")]);
    assert_eq!(collapse_ops(vec![rm("A"), c("A")]), vec![c("A")]);
}
