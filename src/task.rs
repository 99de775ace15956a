use vstd::prelude::*;
use crate::config::TaskConfig;
use crate::event::{FsEvent, event_target};
use crate::lineage::{merge_all, merge_repeated_modifies};
use crate::filter::{PathFilter, accepts, set_of};
use crate::gate::{Observed, Plan, Roots, plan_batch, plan_spec, updates_view};
use crate::remote::ops_view;
use crate::size::size_bounds;

verus! {

/// A command sent to a running task.
#[derive(Debug, Clone, Copy, PartialEq, Eq)]
pub enum TaskCommand {
    Stop,
}

/// What a task reports about itself.
#[derive(Debug, Clone, PartialEq, Eq)]
pub enum TaskState {
    Idle,
    Running,
    Error(String),
}

/// The state a task publishes after a batch: `Running` when it was applied,
/// else an error that carries the failure.
pub fn state_after_flush(failure: Option<String>) -> (r: TaskState)
    ensures
        failure is None ==> r == TaskState::Running,
        failure matches Some(m) ==> r matches TaskState::Error(e) && e@ == "batch error: "@ + m@,
{
    match failure {
        None => TaskState::Running,
        Some(m) => {
            let mut e = String::from_str("batch error: ");
            e.append(m.as_str());
            proof {
                reveal_strlit("batch error: ");
            }
            TaskState::Error(e)
        },
    }
}

/// Quiet time, in milliseconds, after the last event before a batch is
/// flushed.
pub const DEBOUNCE_MS: u64 = 150;

/// What wakes the task loop.
pub enum LoopInput {
    Command(TaskCommand),
    Event(FsEvent),
    TimerFired,
}

/// What the task loop does next.
pub enum LoopAction {
    /// (Re)arm the debounce timer for this many milliseconds.
    ArmTimer(u64),
    /// Hand this batch to the flush pipeline; the timer is disarmed.
    Flush(Vec<FsEvent>),
    /// Leave the loop after flushing this remaining batch, if it is not empty.
    Shutdown(Vec<FsEvent>),
    /// Nothing to do.
    Wait,
}

/// The batch being collected and whether the debounce timer is armed.
pub struct Batcher {
    batch: Vec<FsEvent>,
    armed: bool,
}

impl Batcher {
    pub closed spec fn pending(&self) -> Seq<FsEvent> {
        self.batch@
    }

    pub closed spec fn timer_armed(&self) -> bool {
        self.armed
    }

    pub fn new() -> (r: Batcher)
        ensures
            r.pending().len() == 0,
            !r.timer_armed(),
    {
        Batcher { batch: Vec::new(), armed: false }
    }

    /// One turn of the task loop: an event joins the batch and re-arms the
    /// timer; the timer firing hands the batch over and disarms it; `Stop`
    /// ends the loop, handing over what is left.
    pub fn step(&mut self, input: LoopInput) -> (r: LoopAction)
        ensures
            match input {
                LoopInput::Event(e) => {
                    &&& final(self).pending() == old(self).pending().push(e)
                    &&& final(self).timer_armed()
                    &&& r == LoopAction::ArmTimer(DEBOUNCE_MS)
                },
                LoopInput::TimerFired => if old(self).timer_armed() {
                    &&& r matches LoopAction::Flush(b) && b@ == old(self).pending()
                    &&& final(self).pending().len() == 0
                    &&& !final(self).timer_armed()
                } else {
                    &&& r == LoopAction::Wait
                    &&& final(self).pending() == old(self).pending()
                    &&& !final(self).timer_armed()
                },
                LoopInput::Command(TaskCommand::Stop) => {
                    &&& r matches LoopAction::Shutdown(b) && b@ == old(self).pending()
                    &&& final(self).pending().len() == 0
                    &&& !final(self).timer_armed()
                },
            },
    {
        match input {
            LoopInput::Event(e) => {
                self.batch.push(e);
                self.armed = true;
                LoopAction::ArmTimer(DEBOUNCE_MS)
            },
            LoopInput::TimerFired => {
                if self.armed {
                    self.armed = false;
                    let mut b: Vec<FsEvent> = Vec::new();
                    std::mem::swap(&mut b, &mut self.batch);
                    LoopAction::Flush(b)
                } else {
                    LoopAction::Wait
                }
            },
            LoopInput::Command(TaskCommand::Stop) => {
                self.armed = false;
                let mut b: Vec<FsEvent> = Vec::new();
                std::mem::swap(&mut b, &mut self.batch);
                LoopAction::Shutdown(b)
            },
        }
    }
}

/// What to do after one attempt at applying a batch.
#[derive(Debug, Clone, Copy, PartialEq, Eq)]
pub enum RetryStep {
    /// The batch was applied.
    Done,
    /// Sleep this many milliseconds, then try again.
    Wait(u64),
    /// Out of attempts: the batch failed.
    GiveUp,
}

/// The retry ladder of one batch: failed attempts so far and the next
/// backoff, which doubles (saturating) after each failure.
pub struct Retry {
    pub attempt: u32,
    pub backoff_ms: u64,
    pub retry_max: u32,
}

pub open spec fn doubled(b: u64) -> u64 {
    if b as int * 2 > u64::MAX { u64::MAX } else { (b * 2) as u64 }
}

impl Retry {
    pub fn new(retry_max: u32, backoff_ms: u64) -> (r: Retry)
        ensures
            r.attempt == 0,
            r.backoff_ms == backoff_ms,
            r.retry_max == retry_max,
    {
        Retry { attempt: 0, backoff_ms, retry_max }
    }

    /// Decides after an attempt: done on success; after a failure, give up
    /// once the failures exceed `retry_max`, else wait the current backoff
    /// and double it.
    pub fn on_result(&mut self, succeeded: bool) -> (r: RetryStep)
        ensures
            final(self).retry_max == old(self).retry_max,
            succeeded ==> r == RetryStep::Done && *final(self) == *old(self),
            !succeeded && old(self).attempt >= old(self).retry_max ==> r == RetryStep::GiveUp && *final(self) == *old(self),
            !succeeded && old(self).attempt < old(self).retry_max ==> {
                &&& r == RetryStep::Wait(old(self).backoff_ms)
                &&& final(self).attempt == old(self).attempt + 1
                &&& final(self).backoff_ms == doubled(old(self).backoff_ms)
            },
    {
        if succeeded {
            return RetryStep::Done;
        }
        if self.attempt >= self.retry_max {
            return RetryStep::GiveUp;
        }
        let wait = self.backoff_ms;
        self.attempt = self.attempt + 1;
        self.backoff_ms = if self.backoff_ms > u64::MAX / 2 { u64::MAX } else { self.backoff_ms * 2 };
        RetryStep::Wait(wait)
    }
}

/// A task's fixed parts: its configuration, its compiled filter and its
/// size bounds.
pub struct SyncTask {
    pub cfg: TaskConfig,
    pub filter: PathFilter,
    pub size_min: Option<u64>,
    pub size_max: Option<u64>,
}

pub open spec fn opt_view(s: Option<String>) -> Option<Seq<char>> {
    match s {
        Some(x) => Some(x@),
        None => None,
    }
}

impl SyncTask {
    pub fn new(cfg: TaskConfig) -> (r: SyncTask)
        ensures
            r.cfg == cfg,
            r.filter.inclusion_patterns() == set_of(cfg.inclusions@),
            r.filter.exclusion_patterns() == set_of(cfg.exclusions@),
            (r.size_min, r.size_max) == size_bounds(opt_view(cfg.size)),
    {
        let filter = PathFilter::new(cfg.inclusions.as_slice(), cfg.exclusions.as_slice());
        let bounds = match &cfg.size {
            Some(s) => crate::size::parse_size_filter(Some(s.as_str())),
            None => crate::size::parse_size_filter(None),
        };
        SyncTask { cfg, filter, size_min: bounds.0, size_max: bounds.1 }
    }

    /// Whether a watched event is passed on: a rename when either of its
    /// paths passes the filter, any other event when its path does.
    pub fn admits(&self, e: &FsEvent) -> (r: bool)
        ensures
            r == match e {
                FsEvent::Rename(from, to) => accepts(self.filter.inclusion_patterns(), self.filter.exclusion_patterns(), from@)
                    || accepts(self.filter.inclusion_patterns(), self.filter.exclusion_patterns(), to@),
                _ => accepts(self.filter.inclusion_patterns(), self.filter.exclusion_patterns(), event_target(*e)@),
            },
    {
        match e {
            FsEvent::Rename(from, to) => self.filter.check(from.as_str()) || self.filter.check(to.as_str()),
            _ => self.filter.check(e.path().as_str()),
        }
    }

    /// Merges repeated modifies of a path that nothing else touched in
    /// between; see `merge_repeated_modifies`.
    pub fn collapse_ops(&self, ops: Vec<FsEvent>) -> (r: Vec<FsEvent>)
        ensures
            r@ == merge_all(ops@).0,
    {
        merge_repeated_modifies(ops)
    }

    /// The remote operations and store writes of a compressed batch.
    pub fn plan(&self, events: &Vec<FsEvent>, observed: &Vec<Observed>) -> (r: Plan)
        requires
            observed.len() == events.len(),
        ensures
            ({
                let g = Roots { local: self.cfg.local@, remote: self.cfg.remote@, size_min: self.size_min, size_max: self.size_max };
                &&& ops_view(r.ops@) == plan_spec(events@, observed@, g).0
                &&& updates_view(r.ts_updates@) == plan_spec(events@, observed@, g).1
            }),
    {
        plan_batch(events, observed, self.cfg.local.as_str(), self.cfg.remote.as_str(), self.size_min, self.size_max)
    }
}

} // verus!
