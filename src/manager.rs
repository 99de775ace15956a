use vstd::prelude::*;
use crate::paths::same_text;

verus! {

/// Control over a running task, as the manager needs it.
pub trait TaskControl {
    fn stop(&self);
}

/// The running tasks, at most one per task id.
pub struct SyncManager<H> {
    tasks: Vec<(String, H)>,
}

pub open spec fn ids_unique(ids: Seq<Seq<char>>) -> bool {
    forall|i: int, j: int| 0 <= i < j < ids.len() ==> ids[i] != ids[j]
}

impl<H: TaskControl> SyncManager<H> {
    /// The ids of the running tasks, in the order they were started.
    pub closed spec fn ids(&self) -> Seq<Seq<char>> {
        self.tasks@.map_values(|t: (String, H)| t.0@)
    }

    pub open spec fn wf(&self) -> bool {
        ids_unique(self.ids())
    }

    pub fn new() -> (r: SyncManager<H>)
        ensures
            r.wf(),
            r.ids().len() == 0,
    {
        SyncManager { tasks: Vec::new() }
    }

    fn position(&self, id: &str) -> (r: Option<usize>)
        ensures
            match r {
                Some(i) => i < self.ids().len() && self.ids()[i as int] == id@,
                None => !self.ids().contains(id@),
            },
    {
        let mut i: usize = 0;
        while i < self.tasks.len()
            invariant
                i <= self.tasks.len(),
                forall|j: int| 0 <= j < i ==> self.ids()[j] != id@,
            decreases self.tasks.len() - i,
        {
            assert(self.ids()[i as int] == self.tasks@[i as int].0@);
            if same_text(self.tasks[i].0.as_str(), id) {
                return Some(i);
            }
            i = i + 1;
        }
        None
    }

    /// Whether a task with this id runs.
    pub fn is_running(&self, id: &str) -> (r: bool)
        ensures
            r == self.ids().contains(id@),
    {
        self.position(id).is_some()
    }

    /// Registers a started task under its id, unless one already runs under
    /// it; returns whether it was registered.
    pub fn start(&mut self, id: String, handle: H) -> (r: bool)
        requires
            old(self).wf(),
        ensures
            final(self).wf(),
            r == !old(self).ids().contains(id@),
            r ==> final(self).ids() == old(self).ids().push(id@),
            !r ==> final(self).ids() == old(self).ids(),
    {
        if self.position(id.as_str()).is_some() {
            return false;
        }
        let ghost before = self.ids();
        self.tasks.push((id, handle));
        assert(self.ids() =~= before.push(id@));
        true
    }

    /// Sends `Stop` to the task with this id, if one runs, and returns the
    /// position of the task that was sent it.
    pub fn stop(&mut self, id: &str) -> (r: Option<usize>)
        ensures
            final(self).ids() == old(self).ids(),
            r matches Some(i) ==> i < old(self).ids().len() && old(self).ids()[i as int] == id@,
            r is None <==> !old(self).ids().contains(id@),
    {
        match self.position(id) {
            Some(i) => {
                self.tasks[i].1.stop();
                Some(i)
            },
            None => None,
        }
    }

    /// Sends `Stop` to every running task, one each in the order they were
    /// started, and returns how many were sent it.
    pub fn stop_all(&mut self) -> (r: usize)
        ensures
            final(self).ids() == old(self).ids(),
            r == old(self).ids().len(),
    {
        let mut i: usize = 0;
        while i < self.tasks.len()
            invariant
                i <= self.tasks.len(),
                self.ids() == old(self).ids(),
                self.ids().len() == self.tasks@.len(),
            decreases self.tasks.len() - i,
        {
            self.tasks[i].1.stop();
            i = i + 1;
        }
        i
    }
}

} // verus!
