use vstd::prelude::*;
use crate::event::{FsEvent, event_target, event_source, event_names};
use crate::paths::{remote_of, remote_path, is_under, no_backslash, lemma_remote_of_under};
use crate::lineage::{compress, lemma_compress_stays_under};
use crate::remote::{RemoteOp, OpView, ops_view};

verus! {

/// Size and modification time (whole seconds since the Unix epoch) of a
/// local file.
#[derive(Debug, Clone, Copy, PartialEq, Eq)]
pub struct FileInfo {
    pub size: u64,
    pub mtime: u64,
}

/// What was read from the local disk and from the mtime store for one event
/// before its batch is planned: for a create or modify, the file's metadata
/// (`None` when it cannot be read) and the stored mtime of its path; for a
/// rename, the stored mtime of its source.
#[derive(Debug, Clone, Copy, PartialEq, Eq)]
pub struct Observed {
    pub stat: Option<FileInfo>,
    pub stored: Option<u64>,
}

/// The remote operations of a batch, and the mtime-store writes that are to
/// follow once they all succeed.
pub struct Plan {
    pub ops: Vec<RemoteOp>,
    pub ts_updates: Vec<(String, u64)>,
}

pub open spec fn size_ok(size: u64, size_min: Option<u64>, size_max: Option<u64>) -> bool {
    !(size_min matches Some(m) && size < m) && !(size_max matches Some(m) && size > m)
}

/// The store already holds this mtime or a later one.
pub open spec fn is_current(stored: Option<u64>, mtime: u64) -> bool {
    stored matches Some(v) && v >= mtime
}

/// Paths and bounds that planning works with.
pub struct Roots {
    pub local: Seq<char>,
    pub remote: Seq<char>,
    pub size_min: Option<u64>,
    pub size_max: Option<u64>,
}

/// The operations and store writes of one event.
pub open spec fn plan_step(e: FsEvent, o: Observed, g: Roots) -> (Seq<OpView>, Seq<(Seq<char>, u64)>) {
    match e {
        FsEvent::Create(p) | FsEvent::Modify(p) => match o.stat {
            Some(st) => if size_ok(st.size, g.size_min, g.size_max) && !is_current(o.stored, st.mtime) {
                (
                    seq![OpView::Upload { local: p@, remote: remote_of(g.local, g.remote, p@) }],
                    seq![(p@, st.mtime)],
                )
            } else {
                (Seq::empty(), Seq::empty())
            },
            None => (Seq::empty(), Seq::empty()),
        },
        FsEvent::Remove(p) => (
            seq![OpView::Remove { remote: remote_of(g.local, g.remote, p@) }],
            seq![(p@, 0u64)],
        ),
        FsEvent::MkDir(p) => (seq![OpView::MkDir { remote: remote_of(g.local, g.remote, p@) }], Seq::empty()),
        FsEvent::Rename(from, to) => (
            seq![OpView::Rename {
                from: remote_of(g.local, g.remote, from@),
                to: remote_of(g.local, g.remote, to@),
            }],
            match o.stored {
                Some(ts) => seq![(to@, ts), (from@, 0u64)],
                None => seq![(from@, 0u64)],
            },
        ),
    }
}

/// The plan of a batch: each event's operations and store writes, in order.
pub open spec fn plan_spec(evs: Seq<FsEvent>, obs: Seq<Observed>, g: Roots) -> (Seq<OpView>, Seq<(Seq<char>, u64)>)
    decreases evs.len(),
{
    if evs.len() == 0 || obs.len() < evs.len() {
        (Seq::empty(), Seq::empty())
    } else {
        let n = evs.len() - 1;
        let prev = plan_spec(evs.take(n), obs.take(n), g);
        let step = plan_step(evs[n], obs[n], g);
        (prev.0 + step.0, prev.1 + step.1)
    }
}

pub open spec fn updates_view(u: Seq<(String, u64)>) -> Seq<(Seq<char>, u64)> {
    u.map_values(|x: (String, u64)| (x.0@, x.1))
}

/// Turns a compressed batch into remote operations and store writes. A
/// create or modify uploads the file unless it cannot be read, its size is
/// outside the bounds, or the store already holds its mtime or a later one;
/// a remove resets the stored mtime to 0; a rename hands the source's stored
/// mtime to the target and resets the source's.
pub fn plan_batch(
    events: &Vec<FsEvent>,
    observed: &Vec<Observed>,
    local: &str,
    remote: &str,
    size_min: Option<u64>,
    size_max: Option<u64>,
) -> (r: Plan)
    requires
        observed.len() == events.len(),
    ensures
        ({
            let g = Roots { local: local@, remote: remote@, size_min, size_max };
            &&& ops_view(r.ops@) == plan_spec(events@, observed@, g).0
            &&& updates_view(r.ts_updates@) == plan_spec(events@, observed@, g).1
        }),
{
    let ghost g = Roots { local: local@, remote: remote@, size_min, size_max };
    let mut ops: Vec<RemoteOp> = Vec::new();
    let mut ts: Vec<(String, u64)> = Vec::new();
    let mut i: usize = 0;
    while i < events.len()
        invariant
            i <= events.len(),
            observed.len() == events.len(),
            g == (Roots { local: local@, remote: remote@, size_min, size_max }),
            ops_view(ops@) == plan_spec(events@.take(i as int), observed@.take(i as int), g).0,
            updates_view(ts@) == plan_spec(events@.take(i as int), observed@.take(i as int), g).1,
        decreases events.len() - i,
    {
        let ghost ops0 = ops@;
        let ghost ts0 = ts@;
        let o = observed[i];
        match &events[i] {
            FsEvent::Create(p) | FsEvent::Modify(p) => {
                if let Some(st) = o.stat {
                    let too_small = match size_min {
                        Some(m) => st.size < m,
                        None => false,
                    };
                    let too_large = match size_max {
                        Some(m) => st.size > m,
                        None => false,
                    };
                    let current = match o.stored {
                        Some(v) => v >= st.mtime,
                        None => false,
                    };
                    if !too_small && !too_large && !current {
                        ops.push(RemoteOp::Upload { local: p.clone(), remote: remote_path(local, remote, p.as_str()) });
                        ts.push((p.clone(), st.mtime));
                    }
                }
            },
            FsEvent::Remove(p) => {
                ops.push(RemoteOp::Remove { remote: remote_path(local, remote, p.as_str()) });
                ts.push((p.clone(), 0));
            },
            FsEvent::MkDir(p) => {
                ops.push(RemoteOp::MkDir { remote: remote_path(local, remote, p.as_str()) });
            },
            FsEvent::Rename(from, to) => {
                ops.push(RemoteOp::Rename {
                    from: remote_path(local, remote, from.as_str()),
                    to: remote_path(local, remote, to.as_str()),
                });
                if let Some(v) = o.stored {
                    ts.push((to.clone(), v));
                }
                ts.push((from.clone(), 0));
            },
        }
        proof {
            let n = i as int;
            let ev = events@.take(n + 1);
            let ob = observed@.take(n + 1);
            assert(ev.take(n) =~= events@.take(n));
            assert(ob.take(n) =~= observed@.take(n));
            assert(ev[n] == events@[n]);
            assert(ob[n] == observed@[n]);
            let step = plan_step(events@[n], observed@[n], g);
            assert(ops_view(ops@) =~= ops_view(ops0) + step.0);
            assert(updates_view(ts@) =~= updates_view(ts0) + step.1);
        }
        i = i + 1;
    }
    assert(events@.take(i as int) =~= events@);
    assert(observed@.take(i as int) =~= observed@);
    Plan { ops, ts_updates: ts }
}


/// The store after its writes are applied in order; the last write to a
/// path wins.
pub open spec fn store_after(store: Map<Seq<char>, u64>, ups: Seq<(Seq<char>, u64)>) -> Map<Seq<char>, u64>
    decreases ups.len(),
{
    if ups.len() == 0 {
        store
    } else {
        store_after(store, ups.drop_last()).insert(ups.last().0, ups.last().1)
    }
}

/// What the store holds for `p`.
pub open spec fn stored_of(store: Map<Seq<char>, u64>, p: Seq<char>) -> Option<u64> {
    if store.contains_key(p) { Some(store[p]) } else { None }
}

/// The store writes to make once a batch is over: all of them when the
/// remote applied the batch, none otherwise.
pub fn store_writes(applied: bool, ts_updates: Vec<(String, u64)>) -> (r: Vec<(String, u64)>)
    ensures
        applied ==> r@ == ts_updates@,
        !applied ==> r@.len() == 0,
{
    if applied { ts_updates } else { Vec::new() }
}

/// After the writes of a created or modified file whose size passes the
/// bounds, the store holds for it at least the mtime that the file had when
/// the batch was planned: either the store was already that current, or the
/// file is uploaded and its mtime written.
pub proof fn lemma_store_covers_mtime(e: FsEvent, o: Observed, g: Roots, store: Map<Seq<char>, u64>)
    requires
        e is Create || e is Modify,
        o.stat matches Some(st) && size_ok(st.size, g.size_min, g.size_max),
        o.stored == stored_of(store, event_target(e)@),
    ensures
        ({
            let after = store_after(store, plan_step(e, o, g).1);
            let p = event_target(e)@;
            after.contains_key(p) && after[p] >= o.stat.unwrap().mtime
        }),
{
    let ups = plan_step(e, o, g).1;
    if ups.len() == 1 {
        assert(ups.drop_last() =~= Seq::<(Seq<char>, u64)>::empty());
    } else {
        assert(ups.len() == 0);
    }
}

/// After the writes of a removal, the store holds 0 for the removed path.
pub proof fn lemma_store_cleared_on_remove(p: String, o: Observed, g: Roots, store: Map<Seq<char>, u64>)
    ensures
        store_after(store, plan_step(FsEvent::Remove(p), o, g).1)[p@] == 0,
        store_after(store, plan_step(FsEvent::Remove(p), o, g).1).contains_key(p@),
{
    let ups = plan_step(FsEvent::Remove(p), o, g).1;
    assert(ups.drop_last() =~= Seq::<(Seq<char>, u64)>::empty());
}

/// A file whose mtime is not newer than the stored one is not uploaded, and
/// nothing is written for it.
pub proof fn lemma_current_file_skipped(e: FsEvent, o: Observed, g: Roots)
    requires
        e is Create || e is Modify,
        o.stat matches Some(st) && is_current(o.stored, st.mtime),
    ensures
        plan_step(e, o, g).0.len() == 0,
        plan_step(e, o, g).1.len() == 0,
{
}

/// A file smaller than the lower size bound is not uploaded, and nothing is
/// written for it.
pub proof fn lemma_small_file_skipped(e: FsEvent, o: Observed, g: Roots)
    requires
        e is Create || e is Modify,
        o.stat matches Some(st) && g.size_min matches Some(m) && st.size < m,
    ensures
        plan_step(e, o, g).0.len() == 0,
        plan_step(e, o, g).1.len() == 0,
{
}

/// A rename whose source has a stored mtime hands it to the target and
/// resets the source once the remote applied the batch; when it did not,
/// nothing is written (`store_writes`) and the store is as it was.
pub proof fn lemma_rename_hands_over_mtime(from: String, to: String, o: Observed, g: Roots, ts: u64, store: Map<Seq<char>, u64>)
    requires
        o.stored == Some(ts),
        from@ != to@,
    ensures
        plan_step(FsEvent::Rename(from, to), o, g).1 == seq![(to@, ts), (from@, 0u64)],
        store_after(store, plan_step(FsEvent::Rename(from, to), o, g).1)[to@] == ts,
        store_after(store, plan_step(FsEvent::Rename(from, to), o, g).1)[from@] == 0,
        store_after(store, Seq::empty()) == store,
{
    let ups = plan_step(FsEvent::Rename(from, to), o, g).1;
    assert(ups.drop_last() =~= seq![(to@, ts)]);
    assert(ups.drop_last().drop_last() =~= Seq::<(Seq<char>, u64)>::empty());
    let m1 = store_after(store, ups.drop_last());
    assert(m1 == store_after(store, ups.drop_last().drop_last()).insert(to@, ts));
    assert(m1 == store.insert(to@, ts));
    assert(store_after(store, ups) == m1.insert(from@, 0u64));
}


/// The store writes of the first `n` events of a batch.
pub open spec fn writes_upto(evs: Seq<FsEvent>, obs: Seq<Observed>, g: Roots, n: int) -> Seq<(Seq<char>, u64)> {
    plan_spec(evs.take(n), obs.take(n), g).1
}

proof fn lemma_store_after_concat(s0: Map<Seq<char>, u64>, a: Seq<(Seq<char>, u64)>, b: Seq<(Seq<char>, u64)>)
    ensures
        store_after(s0, a + b) == store_after(store_after(s0, a), b),
    decreases b.len(),
{
    if b.len() == 0 {
        assert(a + b =~= a);
    } else {
        assert((a + b).drop_last() =~= a + b.drop_last());
        assert((a + b).last() == b.last());
        lemma_store_after_concat(s0, a, b.drop_last());
    }
}

proof fn lemma_store_after_other_keys(s0: Map<Seq<char>, u64>, b: Seq<(Seq<char>, u64)>, p: Seq<char>)
    requires
        forall|i: int| 0 <= i < b.len() ==> (#[trigger] b[i]).0 != p,
    ensures
        stored_of(store_after(s0, b), p) == stored_of(s0, p),
    decreases b.len(),
{
    if b.len() > 0 {
        assert(b.last() == b[b.len() - 1]);
        lemma_store_after_other_keys(s0, b.drop_last(), p);
    }
}

proof fn lemma_step_writes_named(e: FsEvent, o: Observed, g: Roots)
    ensures
        forall|i: int| 0 <= i < plan_step(e, o, g).1.len() ==> event_names(e, (#[trigger] plan_step(e, o, g).1[i]).0),
{
}

proof fn lemma_writes_next(evs: Seq<FsEvent>, obs: Seq<Observed>, g: Roots, n: int)
    requires
        0 <= n < evs.len(),
        obs.len() == evs.len(),
    ensures
        writes_upto(evs, obs, g, n + 1) == writes_upto(evs, obs, g, n) + plan_step(evs[n], obs[n], g).1,
{
    let e1 = evs.take(n + 1);
    let o1 = obs.take(n + 1);
    assert(e1.take(n) =~= evs.take(n));
    assert(o1.take(n) =~= obs.take(n));
    assert(e1[n] == evs[n]);
    assert(o1[n] == obs[n]);
}

/// Events in `[a, n)` that do not name `p` leave what the store holds for it.
proof fn lemma_untouched_range(evs: Seq<FsEvent>, obs: Seq<Observed>, g: Roots, s0: Map<Seq<char>, u64>, p: Seq<char>, a: int, n: int)
    requires
        0 <= a <= n <= evs.len(),
        obs.len() == evs.len(),
        forall|j: int| a <= j < n ==> !event_names(#[trigger] evs[j], p),
    ensures
        stored_of(store_after(s0, writes_upto(evs, obs, g, n)), p)
            == stored_of(store_after(s0, writes_upto(evs, obs, g, a)), p),
    decreases n - a,
{
    if a < n {
        lemma_untouched_range(evs, obs, g, s0, p, a, n - 1);
        lemma_writes_next(evs, obs, g, n - 1);
        let w = writes_upto(evs, obs, g, n - 1);
        let st = plan_step(evs[n - 1], obs[n - 1], g).1;
        lemma_store_after_concat(s0, w, st);
        lemma_step_writes_named(evs[n - 1], obs[n - 1], g);
        assert forall|i: int| 0 <= i < st.len() implies (#[trigger] st[i]).0 != p by {
            assert(event_names(evs[n - 1], st[i].0));
        }
        lemma_store_after_other_keys(store_after(s0, w), st, p);
    }
}

/// Over a whole batch: when a created or modified file is the only event
/// of the batch that names its path, its size passes the bounds, and the
/// mtime read from the store is the store's, then after the batch's writes
/// the store holds for it at least the mtime the file had when planned.
pub proof fn lemma_batch_store_covers_mtime(evs: Seq<FsEvent>, obs: Seq<Observed>, g: Roots, store: Map<Seq<char>, u64>, k: int)
    requires
        obs.len() == evs.len(),
        0 <= k < evs.len(),
        evs[k] is Create || evs[k] is Modify,
        forall|j: int| 0 <= j < evs.len() && j != k ==> !event_names(#[trigger] evs[j], event_target(evs[k])@),
        obs[k].stat matches Some(st) && size_ok(st.size, g.size_min, g.size_max),
        obs[k].stored == stored_of(store, event_target(evs[k])@),
    ensures
        ({
            let after = store_after(store, plan_spec(evs, obs, g).1);
            let p = event_target(evs[k])@;
            after.contains_key(p) && after[p] >= obs[k].stat.unwrap().mtime
        }),
{
    let p = event_target(evs[k])@;
    let n = evs.len() as int;
    assert(store_after(store, writes_upto(evs, obs, g, 0)) == store) by {
        assert(evs.take(0).len() == 0);
    }
    lemma_untouched_range(evs, obs, g, store, p, 0, k);
    let mid = store_after(store, writes_upto(evs, obs, g, k));
    lemma_store_covers_mtime(evs[k], obs[k], g, mid);
    lemma_writes_next(evs, obs, g, k);
    lemma_store_after_concat(store, writes_upto(evs, obs, g, k), plan_step(evs[k], obs[k], g).1);
    lemma_untouched_range(evs, obs, g, store, p, k + 1, n);
    assert(evs.take(n) =~= evs);
    assert(obs.take(n) =~= obs);
}

/// Over a whole batch: after a removal that no later event of the batch
/// names again, the store holds 0 for the removed path.
pub proof fn lemma_batch_store_cleared(evs: Seq<FsEvent>, obs: Seq<Observed>, g: Roots, store: Map<Seq<char>, u64>, k: int)
    requires
        obs.len() == evs.len(),
        0 <= k < evs.len(),
        evs[k] is Remove,
        forall|j: int| k < j < evs.len() ==> !event_names(#[trigger] evs[j], event_target(evs[k])@),
    ensures
        store_after(store, plan_spec(evs, obs, g).1).contains_key(event_target(evs[k])@),
        store_after(store, plan_spec(evs, obs, g).1)[event_target(evs[k])@] == 0,
{
    let p = event_target(evs[k])@;
    let n = evs.len() as int;
    let mid = store_after(store, writes_upto(evs, obs, g, k));
    if let FsEvent::Remove(q) = evs[k] {
        lemma_store_cleared_on_remove(q, obs[k], g, mid);
    }
    lemma_writes_next(evs, obs, g, k);
    lemma_store_after_concat(store, writes_upto(evs, obs, g, k), plan_step(evs[k], obs[k], g).1);
    lemma_untouched_range(evs, obs, g, store, p, k + 1, n);
    assert(evs.take(n) =~= evs);
    assert(obs.take(n) =~= obs);
}


/// A remote path as the remote side needs it: under the remote root, with
/// forward slashes only.
pub open spec fn remote_ok(r: Seq<char>, g: Roots) -> bool {
    g.remote.is_prefix_of(r) && no_backslash(r)
}

/// Every path of an operation is where it belongs: an upload's local file
/// under the local root, every remote path under the remote root.
pub open spec fn op_within(o: OpView, g: Roots) -> bool {
    match o {
        OpView::Upload { local, remote } => is_under(g.local, local) && remote_ok(remote, g),
        OpView::Remove { remote } => remote_ok(remote, g),
        OpView::MkDir { remote } => remote_ok(remote, g),
        OpView::Rename { from, to } => remote_ok(from, g) && remote_ok(to, g),
    }
}

pub open spec fn events_under(evs: Seq<FsEvent>, root: Seq<char>) -> bool {
    forall|i: int| 0 <= i < evs.len() ==> is_under(root, event_target(#[trigger] evs[i])@)
        && is_under(root, event_source(evs[i])@)
}

/// When every event names paths under the local root and the remote root
/// holds no backslash, every planned operation stays within the roots.
pub proof fn lemma_plan_within(evs: Seq<FsEvent>, obs: Seq<Observed>, g: Roots)
    requires
        obs.len() == evs.len(),
        no_backslash(g.remote),
        events_under(evs, g.local),
    ensures
        forall|k: int| 0 <= k < plan_spec(evs, obs, g).0.len() ==> op_within(#[trigger] plan_spec(evs, obs, g).0[k], g),
    decreases evs.len(),
{
    if evs.len() > 0 {
        let n = evs.len() - 1;
        let e0 = evs.take(n);
        let o0 = obs.take(n);
        assert forall|i: int| 0 <= i < e0.len() implies is_under(g.local, event_target(#[trigger] e0[i])@)
            && is_under(g.local, event_source(e0[i])@) by {
            assert(e0[i] == evs[i]);
        }
        lemma_plan_within(e0, o0, g);
        let e = evs[n];
        assert(is_under(g.local, event_target(e)@) && is_under(g.local, event_source(e)@));
        lemma_remote_of_under(g.local, g.remote, event_target(e)@);
        lemma_remote_of_under(g.local, g.remote, event_source(e)@);
        let prev = plan_spec(e0, o0, g).0;
        let step = plan_step(e, obs[n], g).0;
        assert(plan_spec(evs, obs, g).0 == prev + step);
        assert forall|k: int| 0 <= k < step.len() implies op_within(#[trigger] step[k], g) by {
        }
        assert forall|k: int| 0 <= k < (prev + step).len() implies op_within(#[trigger] (prev + step)[k], g) by {
            if k < prev.len() {
                assert((prev + step)[k] == prev[k]);
            } else {
                assert((prev + step)[k] == step[k - prev.len()]);
            }
        }
    }
}

/// For a whole flush: when every event of a raw batch names paths under the
/// local root and the remote root holds no backslash, every operation
/// planned from its compressed form stays within the roots.
pub proof fn lemma_flush_within(evs: Seq<FsEvent>, obs: Seq<Observed>, g: Roots)
    requires
        obs.len() == compress(evs).len(),
        no_backslash(g.remote),
        events_under(evs, g.local),
    ensures
        forall|k: int| 0 <= k < plan_spec(compress(evs), obs, g).0.len()
            ==> op_within(#[trigger] plan_spec(compress(evs), obs, g).0[k], g),
{
    lemma_compress_stays_under(evs, g.local);
    lemma_plan_within(compress(evs), obs, g);
}

} // verus!
