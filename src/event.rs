use vstd::prelude::*;

verus! {

/// A normalised local filesystem change; every path is an absolute local path.
#[derive(Debug, Clone, PartialEq, Eq, Hash)]
pub enum FsEvent {
    Create(String),
    Modify(String),
    Rename(String, String),
    Remove(String),
    MkDir(String),
}

/// The path an event leaves behind: the destination of a rename, the
/// subject of every other kind.
pub open spec fn event_target(e: FsEvent) -> String {
    match e {
        FsEvent::Create(p) => p,
        FsEvent::Modify(p) => p,
        FsEvent::Remove(p) => p,
        FsEvent::MkDir(p) => p,
        FsEvent::Rename(_, to) => to,
    }
}

/// The path whose history an event continues: the source of a rename, the
/// subject of every other kind.
pub open spec fn event_source(e: FsEvent) -> String {
    match e {
        FsEvent::Rename(from, _) => from,
        _ => event_target(e),
    }
}

/// Whether `p` is one of the paths that the event names.
pub open spec fn event_names(e: FsEvent, p: Seq<char>) -> bool {
    event_target(e)@ == p || event_source(e)@ == p
}

impl FsEvent {
    /// The path that the event leaves behind.
    pub fn path(&self) -> (r: &String)
        ensures
            *r == event_target(*self),
    {
        match self {
            FsEvent::Create(p) => p,
            FsEvent::Modify(p) => p,
            FsEvent::Remove(p) => p,
            FsEvent::MkDir(p) => p,
            FsEvent::Rename(_from, to) => to,
        }
    }

    /// The path whose history the event continues.
    pub fn source(&self) -> (r: &String)
        ensures
            *r == event_source(*self),
    {
        match self {
            FsEvent::Rename(from, _to) => from,
            FsEvent::Create(p) => p,
            FsEvent::Modify(p) => p,
            FsEvent::Remove(p) => p,
            FsEvent::MkDir(p) => p,
        }
    }

    /// A copy of the event that is equal to it.
    pub fn duplicate(&self) -> (r: FsEvent)
        ensures
            r == *self,
    {
        match self {
            FsEvent::Create(p) => FsEvent::Create(p.clone()),
            FsEvent::Modify(p) => FsEvent::Modify(p.clone()),
            FsEvent::Remove(p) => FsEvent::Remove(p.clone()),
            FsEvent::MkDir(p) => FsEvent::MkDir(p.clone()),
            FsEvent::Rename(from, to) => FsEvent::Rename(from.clone(), to.clone()),
        }
    }
}


/// The kind of a raw notification from the filesystem watcher, reduced to
/// what normalisation distinguishes.
#[derive(Debug, Clone, Copy, PartialEq, Eq)]
pub enum WatchKind {
    CreateFile,
    CreateFolder,
    ModifyData,
    ModifyMetadata,
    ModifyName,
    RemoveFile,
    RemoveFolder,
    Other,
}

/// The events one path gives under a kind that maps paths one by one.
pub open spec fn event_for(kind: WatchKind, p: String) -> FsEvent {
    match kind {
        WatchKind::CreateFile => FsEvent::Create(p),
        WatchKind::CreateFolder => FsEvent::MkDir(p),
        WatchKind::ModifyData | WatchKind::ModifyMetadata => FsEvent::Modify(p),
        _ => FsEvent::Remove(p),
    }
}

pub open spec fn maps_each_path(kind: WatchKind) -> bool {
    !(kind is ModifyName || kind is Other)
}

/// The events that a raw notification normalises to: one per path for
/// creations, data or metadata changes and removals; a rename for a name
/// change with exactly two paths; nothing otherwise.
pub open spec fn normalize(kind: WatchKind, paths: Seq<String>) -> Seq<FsEvent> {
    if maps_each_path(kind) {
        paths.map_values(|p: String| event_for(kind, p))
    } else if kind is ModifyName && paths.len() == 2 {
        seq![FsEvent::Rename(paths[0], paths[1])]
    } else {
        Seq::empty()
    }
}

/// Normalises a raw watcher notification into events.
pub fn event_to_ops(kind: WatchKind, paths: Vec<String>) -> (r: Vec<FsEvent>)
    ensures
        r@ == normalize(kind, paths@),
{
    let mut ops: Vec<FsEvent> = Vec::new();
    match kind {
        WatchKind::ModifyName => {
            if paths.len() == 2 {
                ops.push(FsEvent::Rename(paths[0].clone(), paths[1].clone()));
            }
            assert(ops@ =~= normalize(kind, paths@));
        },
        WatchKind::Other => {},
        _ => {
            let mut i: usize = 0;
            while i < paths.len()
                invariant
                    maps_each_path(kind),
                    i <= paths.len(),
                    ops@ == paths@.take(i as int).map_values(|p: String| event_for(kind, p)),
                decreases paths.len() - i,
            {
                let p = paths[i].clone();
                let e = match kind {
                    WatchKind::CreateFile => FsEvent::Create(p),
                    WatchKind::CreateFolder => FsEvent::MkDir(p),
                    WatchKind::ModifyData | WatchKind::ModifyMetadata => FsEvent::Modify(p),
                    _ => FsEvent::Remove(p),
                };
                ops.push(e);
                assert(ops@ =~= paths@.take(i + 1).map_values(|p: String| event_for(kind, p)));
                i = i + 1;
            }
            assert(paths@.take(i as int) =~= paths@);
        },
    }
    ops
}

} // verus!
