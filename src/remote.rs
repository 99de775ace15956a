use vstd::prelude::*;

verus! {

/// One operation on the remote tree; remote paths use forward slashes.
#[derive(Debug, Clone, PartialEq, Eq)]
pub enum RemoteOp {
    Upload { local: String, remote: String },
    Remove { remote: String },
    MkDir { remote: String },
    Rename { from: String, to: String },
}

/// A remote operation with its strings taken as character sequences.
pub enum OpView {
    Upload { local: Seq<char>, remote: Seq<char> },
    Remove { remote: Seq<char> },
    MkDir { remote: Seq<char> },
    Rename { from: Seq<char>, to: Seq<char> },
}

impl View for RemoteOp {
    type V = OpView;

    open spec fn view(&self) -> OpView {
        match self {
            RemoteOp::Upload { local, remote } => OpView::Upload { local: local@, remote: remote@ },
            RemoteOp::Remove { remote } => OpView::Remove { remote: remote@ },
            RemoteOp::MkDir { remote } => OpView::MkDir { remote: remote@ },
            RemoteOp::Rename { from, to } => OpView::Rename { from: from@, to: to@ },
        }
    }
}

pub open spec fn ops_view(ops: Seq<RemoteOp>) -> Seq<OpView> {
    ops.map_values(|o: RemoteOp| o@)
}

/// A remote filesystem that a batch of operations is applied to.
///
/// `apply_batch` succeeds only if every operation succeeded. Uploads may run
/// concurrently; every other operation runs after all uploads, in the order
/// given. Removing a missing path succeeds, `MkDir` creates missing parents,
/// and renaming an absent source is tolerated.
pub trait RemoteFs {
    fn apply_batch(&self, ops: Vec<RemoteOp>) -> Result<(), String>;

    fn ping(&self) -> Result<(), String>;
}

/// The uploads of a batch, as `(local, remote)` pairs, in order.
pub open spec fn uploads_of(ops: Seq<RemoteOp>) -> Seq<(String, String)>
    decreases ops.len(),
{
    if ops.len() == 0 {
        Seq::empty()
    } else {
        match ops.last() {
            RemoteOp::Upload { local, remote } => uploads_of(ops.drop_last()).push((local, remote)),
            _ => uploads_of(ops.drop_last()),
        }
    }
}

/// The operations of a batch other than uploads, in order.
pub open spec fn sequential_of(ops: Seq<RemoteOp>) -> Seq<RemoteOp>
    decreases ops.len(),
{
    if ops.len() == 0 {
        Seq::empty()
    } else if ops.last() is Upload {
        sequential_of(ops.drop_last())
    } else {
        sequential_of(ops.drop_last()).push(ops.last())
    }
}

impl RemoteOp {
    /// A copy of the operation that is equal to it.
    pub fn duplicate(&self) -> (r: RemoteOp)
        ensures
            r == *self,
    {
        match self {
            RemoteOp::Upload { local, remote } => RemoteOp::Upload { local: local.clone(), remote: remote.clone() },
            RemoteOp::Remove { remote } => RemoteOp::Remove { remote: remote.clone() },
            RemoteOp::MkDir { remote } => RemoteOp::MkDir { remote: remote.clone() },
            RemoteOp::Rename { from, to } => RemoteOp::Rename { from: from.clone(), to: to.clone() },
        }
    }
}

/// Splits a batch into its uploads, which run first, and the operations
/// that run after them one by one; each part keeps the order given.
pub fn split_uploads(ops: &Vec<RemoteOp>) -> (r: (Vec<(String, String)>, Vec<RemoteOp>))
    ensures
        r.0@ == uploads_of(ops@),
        r.1@ == sequential_of(ops@),
{
    let mut uploads: Vec<(String, String)> = Vec::new();
    let mut rest: Vec<RemoteOp> = Vec::new();
    let mut i: usize = 0;
    while i < ops.len()
        invariant
            i <= ops.len(),
            uploads@ == uploads_of(ops@.take(i as int)),
            rest@ == sequential_of(ops@.take(i as int)),
        decreases ops.len() - i,
    {
        assert(ops@.take(i + 1).drop_last() =~= ops@.take(i as int));
        match &ops[i] {
            RemoteOp::Upload { local, remote } => {
                uploads.push((local.clone(), remote.clone()));
            },
            other => {
                rest.push(other.duplicate());
            },
        }
        i = i + 1;
    }
    assert(ops@.take(i as int) =~= ops@);
    (uploads, rest)
}


/// How one remote operation ended.
#[derive(Debug, Clone, Copy, PartialEq, Eq)]
pub enum OpOutcome {
    Done,
    /// The path it works on does not exist.
    Missing,
    Failed,
}

/// Whether a batch goes on after an operation ended so: a removal of a
/// missing path succeeds, a rename is best-effort, anything else must be done.
pub open spec fn tolerated_spec(op: RemoteOp, outcome: OpOutcome) -> bool {
    match op {
        RemoteOp::Rename { .. } => true,
        RemoteOp::Remove { .. } => !(outcome is Failed),
        _ => outcome is Done,
    }
}

pub fn tolerated(op: &RemoteOp, outcome: OpOutcome) -> (r: bool)
    ensures
        r == tolerated_spec(*op, outcome),
{
    match op {
        RemoteOp::Rename { .. } => true,
        RemoteOp::Remove { .. } => !matches!(outcome, OpOutcome::Failed),
        _ => matches!(outcome, OpOutcome::Done),
    }
}

} // verus!
