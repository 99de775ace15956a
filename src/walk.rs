use vstd::prelude::*;
use crate::paths::{join_below, join_path};

verus! {

/// One entry of a remote directory listing.
#[derive(Debug, Clone, PartialEq, Eq)]
pub struct DirEntry {
    pub name: String,
    pub is_dir: bool,
}

/// What a recursive removal does next.
#[derive(Debug, Clone, PartialEq, Eq)]
pub enum WalkAction {
    /// List this directory and report its entries with `listed`.
    List(String),
    /// Remove this directory, whose contents were removed before.
    RemoveDir(String),
    /// Nothing is left.
    Done,
}

/// A depth-first walk that removes a directory tree bottom up: a directory
/// is listed when first met, and removed when met again after everything
/// listed below it.
pub struct RemovalWalk {
    stack: Vec<(String, bool)>,
}

pub open spec fn is_dot_name(n: Seq<char>) -> bool {
    n =~= seq!['.'] || n =~= seq!['.', '.']
}

/// The subdirectories of a listing of `dir`, as pending stack entries.
pub open spec fn subdirs_of(dir: Seq<char>, entries: Seq<DirEntry>) -> Seq<(Seq<char>, bool)>
    decreases entries.len(),
{
    if entries.len() == 0 {
        Seq::empty()
    } else {
        let e = entries.last();
        let rest = subdirs_of(dir, entries.drop_last());
        if !is_dot_name(e.name@) && e.is_dir { rest.push((join_path(dir, e.name@), false)) } else { rest }
    }
}

/// The files of a listing of `dir`, as paths.
pub open spec fn files_of(dir: Seq<char>, entries: Seq<DirEntry>) -> Seq<Seq<char>>
    decreases entries.len(),
{
    if entries.len() == 0 {
        Seq::empty()
    } else {
        let e = entries.last();
        let rest = files_of(dir, entries.drop_last());
        if !is_dot_name(e.name@) && !e.is_dir { rest.push(join_path(dir, e.name@)) } else { rest }
    }
}

fn is_dot(name: &str) -> (r: bool)
    ensures
        r == is_dot_name(name@),
{
    let n = name.unicode_len();
    let r = (n == 1 && name.get_char(0) == '.') || (n == 2 && name.get_char(0) == '.' && name.get_char(1) == '.');
    proof {
        if n == 1 && name@[0] == '.' {
            assert(name@ =~= seq!['.']);
        }
        if n == 2 && name@[0] == '.' && name@[1] == '.' {
            assert(name@ =~= seq!['.', '.']);
        }
    }
    r
}

impl RemovalWalk {
    /// The pending directories, innermost last, each marked once listed.
    pub closed spec fn pending(&self) -> Seq<(Seq<char>, bool)> {
        self.stack@.map_values(|t: (String, bool)| (t.0@, t.1))
    }

    pub fn new(root: String) -> (r: RemovalWalk)
        ensures
            r.pending() == seq![(root@, false)],
    {
        let mut stack: Vec<(String, bool)> = Vec::new();
        stack.push((root, false));
        let r = RemovalWalk { stack };
        assert(r.pending() =~= seq![(r.stack@[0].0@, false)]);
        r
    }

    /// The next step: `Done` when nothing is pending; the removal of the
    /// innermost pending directory once it was listed; else its listing.
    pub fn next(&mut self) -> (r: WalkAction)
        ensures
            old(self).pending().len() == 0 ==> r == WalkAction::Done && final(self).pending() == old(self).pending(),
            old(self).pending().len() > 0 ==> ({
                let top = old(self).pending().last();
                let rest = old(self).pending().drop_last();
                if top.1 {
                    r matches WalkAction::RemoveDir(d) && d@ == top.0 && final(self).pending() == rest
                } else {
                    r matches WalkAction::List(d) && d@ == top.0 && final(self).pending() == rest.push((top.0, true))
                }
            }),
    {
        let ghost before = self.pending();
        match self.stack.pop() {
            None => WalkAction::Done,
            Some((dir, visited)) => {
                assert(self.pending() =~= before.drop_last());
                if visited {
                    WalkAction::RemoveDir(dir)
                } else {
                    let listed = dir.clone();
                    self.stack.push((dir, true));
                    assert(self.pending() =~= before.drop_last().push((listed@, true)));
                    WalkAction::List(listed)
                }
            },
        }
    }

    /// Takes the listing of `dir`: its subdirectories join the pending ones
    /// in listing order, and its files are returned for removal; `.` and
    /// `..` are skipped.
    pub fn listed(&mut self, dir: &str, entries: &Vec<DirEntry>) -> (r: Vec<String>)
        ensures
            final(self).pending() == old(self).pending() + subdirs_of(dir@, entries@),
            r@.map_values(|f: String| f@) == files_of(dir@, entries@),
    {
        let mut files: Vec<String> = Vec::new();
        let ghost start = self.pending();
        let mut i: usize = 0;
        while i < entries.len()
            invariant
                i <= entries.len(),
                self.pending() == start + subdirs_of(dir@, entries@.take(i as int)),
                files@.map_values(|f: String| f@) == files_of(dir@, entries@.take(i as int)),
            decreases entries.len() - i,
        {
            let ghost p0 = self.pending();
            let ghost f0 = files@;
            assert(entries@.take(i + 1).drop_last() =~= entries@.take(i as int));
            let e = &entries[i];
            if !is_dot(e.name.as_str()) {
                let child = join_below(dir, e.name.as_str());
                if e.is_dir {
                    self.stack.push((child, false));
                    assert(self.pending() =~= p0.push((join_path(dir@, e.name@), false)));
                } else {
                    files.push(child);
                    assert(files@.map_values(|f: String| f@) =~= f0.map_values(|f: String| f@).push(join_path(dir@, e.name@)));
                }
            }
            i = i + 1;
        }
        assert(entries@.take(i as int) =~= entries@);
        files
    }
}


/// What a recursive directory creation does after a probe.
#[derive(Debug, Clone, Copy, PartialEq, Eq)]
pub enum MkdirStep {
    /// Go on with the next directory of the chain (or finish).
    Continue,
    /// Create every directory of the chain, top down.
    CreateChain,
    /// Look up what stands at the path that could not be created.
    Probe,
    /// A file stands where a directory is needed.
    NotADirectory,
    /// Give up with the error that creating the directory gave.
    Fail,
}

/// What stands at a path: a directory, something else, or nothing readable.
#[derive(Debug, Clone, Copy, PartialEq, Eq)]
pub enum PathKind {
    Dir,
    Other,
    Absent,
}

/// Before anything is created: done if the target is a directory, an error
/// if something else stands there, else the whole chain is created.
pub fn mkdir_start(target: PathKind) -> (r: MkdirStep)
    ensures
        r == match target {
            PathKind::Dir => MkdirStep::Continue,
            PathKind::Other => MkdirStep::NotADirectory,
            PathKind::Absent => MkdirStep::CreateChain,
        },
{
    match target {
        PathKind::Dir => MkdirStep::Continue,
        PathKind::Other => MkdirStep::NotADirectory,
        PathKind::Absent => MkdirStep::CreateChain,
    }
}

/// After creating one directory of the chain: go on when it was created;
/// when the server reports a generic failure, the directory may exist
/// already, so probe it; any other error ends the creation.
pub fn mkdir_created(created: bool, generic_failure: bool) -> (r: MkdirStep)
    ensures
        r == (if created { MkdirStep::Continue } else if generic_failure { MkdirStep::Probe } else { MkdirStep::Fail }),
{
    if created {
        MkdirStep::Continue
    } else if generic_failure {
        MkdirStep::Probe
    } else {
        MkdirStep::Fail
    }
}

/// After probing a directory that could not be created: go on if it is a
/// directory, an error if a file stands there, and the creation error if
/// the probe failed too.
pub fn mkdir_probed(found: PathKind) -> (r: MkdirStep)
    ensures
        r == match found {
            PathKind::Dir => MkdirStep::Continue,
            PathKind::Other => MkdirStep::NotADirectory,
            PathKind::Absent => MkdirStep::Fail,
        },
{
    match found {
        PathKind::Dir => MkdirStep::Continue,
        PathKind::Other => MkdirStep::NotADirectory,
        PathKind::Absent => MkdirStep::Fail,
    }
}

} // verus!
