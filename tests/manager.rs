use fsync_core::manager::{SyncManager, TaskControl};
use std::cell::Cell;
use std::rc::Rc;

struct Probe(Rc<Cell<u32>>);

impl TaskControl for Probe {
    fn stop(&self) {
        self.0.set(self.0.get() + 1);
    }
}

#[test]
fn one_task_per_id() {
    let hits = Rc::new(Cell::new(0));
    let mut m = SyncManager::new();
    assert!(m.start("a".into(), Probe(hits.clone())));
    assert!(!m.start("a".into(), Probe(hits.clone())));
    assert!(m.start("b".into(), Probe(hits.clone())));
    assert!(m.is_running("a"));
    assert!(!m.is_running("c"));
    assert_eq!(m.stop("a"), Some(0));
    assert_eq!(hits.get(), 1);
    assert_eq!(m.stop("b"), Some(1));
    assert_eq!(hits.get(), 2);
    assert_eq!(m.stop("c"), None);
    assert_eq!(hits.get(), 2);
    assert_eq!(m.stop_all(), 2);
    assert_eq!(hits.get(), 4);
}
