use vstd::prelude::*;
use crate::event::{FsEvent, event_target, event_source, event_names};
use crate::paths::is_under;

verus! {

/// One step of a per-path history: the event, the path it leaves behind, the
/// step it continues, and whether no later event continued it.
pub struct EventNode {
    pub target_path: String,
    pub prev: Option<usize>,
    pub kind: FsEvent,
    pub is_latest: bool,
}

/// A list of `(path, entry)` pairs that stands for the map from a path to the
/// index of the latest node of its chain; the last pair for a path wins, and
/// an entry of `None` closes that path's chain.
pub type LatestTable = Seq<(String, Option<usize>)>;

pub open spec fn latest_lookup(table: LatestTable, p: Seq<char>) -> Option<usize>
    decreases table.len(),
{
    if table.len() == 0 {
        None
    } else if table.last().0@ == p {
        table.last().1
    } else {
        latest_lookup(table.drop_last(), p)
    }
}

/// Appends the node for one event, marking the node it continues as no
/// longer the latest.
pub open spec fn chain_step(nodes: Seq<EventNode>, table: LatestTable, e: FsEvent) -> (Seq<EventNode>, LatestTable) {
    let prev = latest_lookup(table, event_source(e)@);
    let marked = match prev {
        Some(i) => if i < nodes.len() {
            nodes.update(i as int, EventNode { is_latest: false, ..nodes[i as int] })
        } else {
            nodes
        },
        None => nodes,
    };
    let node = EventNode { target_path: event_target(e), prev, kind: e, is_latest: true };
    let n = nodes.len() as usize;
    let table2 = match e {
        FsEvent::Rename(from, to) => table.push((from, None)).push((to, Some(n))),
        _ => table.push((event_target(e), Some(n))),
    };
    (marked.push(node), table2)
}

/// The node list and latest-node table after a sequence of events.
pub open spec fn build_chains(evs: Seq<FsEvent>) -> (Seq<EventNode>, LatestTable)
    decreases evs.len(),
{
    if evs.len() == 0 {
        (Seq::empty(), Seq::empty())
    } else {
        let (nodes, table) = build_chains(evs.drop_last());
        chain_step(nodes, table, evs.last())
    }
}

/// Every link points to an earlier node.
pub open spec fn nodes_wf(nodes: Seq<EventNode>) -> bool {
    forall|i: int| 0 <= i < nodes.len() ==> match (#[trigger] nodes[i]).prev {
        Some(j) => j < i,
        None => true,
    }
}

pub open spec fn table_wf(table: LatestTable, n: nat) -> bool {
    forall|k: int| 0 <= k < table.len() ==> match (#[trigger] table[k]).1 {
        Some(j) => j < n,
        None => true,
    }
}

/// Summary of a chain: the source of its earliest rename, and whether a
/// modify, a remove or a create occurs on it.
pub type Summary = (Option<String>, bool, bool, bool);

pub open spec fn summary_step(kind: FsEvent, rest: Summary) -> Summary {
    let origin = match rest.0 {
        Some(f) => Some(f),
        None => match kind {
            FsEvent::Rename(from, _) => Some(from),
            _ => None,
        },
    };
    (
        origin,
        rest.1 || kind is Modify,
        rest.2 || kind is Remove,
        rest.3 || kind is Create,
    )
}

pub open spec fn link_below(nodes: Seq<EventNode>, i: usize) -> Option<usize> {
    match nodes[i as int].prev {
        Some(j) => if j < i { Some(j) } else { None },
        None => None,
    }
}

/// The summary of the chain that ends at `cur`, walking the links back.
pub open spec fn lineage(nodes: Seq<EventNode>, cur: Option<usize>) -> Summary
    decreases (match cur { Some(i) => i as int + 1, None => 0 }),
{
    match cur {
        None => (None, false, false, false),
        Some(i) => if i < nodes.len() {
            summary_step(nodes[i as int].kind, lineage(nodes, link_below(nodes, i)))
        } else {
            (None, false, false, false)
        },
    }
}

pub open spec fn was_removed(deleted: Seq<String>, p: Seq<char>) -> bool {
    exists|k: int| 0 <= k < deleted.len() && (#[trigger] deleted[k])@ == p
}

/// Output so far, and the paths whose removal was already emitted.
pub type Emitted = (Seq<FsEvent>, Seq<String>);

/// Emits the removal of a chain's earliest source, when the chain moved
/// content away from it that the remote still holds there.
pub open spec fn drop_origin(l: Summary, target: String, st: Emitted) -> Emitted {
    match l.0 {
        Some(f) => if f@ != target@ && !l.2 && !l.3 && !was_removed(st.1, f@) {
            (st.0.push(FsEvent::Remove(f)), st.1.push(f))
        } else {
            st
        },
        None => st,
    }
}

/// What node `i` contributes to the output.
pub open spec fn emit_node(nodes: Seq<EventNode>, i: int, st: Emitted) -> Emitted {
    let nd = nodes[i];
    if !nd.is_latest {
        st
    } else {
        match nd.kind {
            FsEvent::Create(_) | FsEvent::Modify(_) => {
                let st1 = drop_origin(lineage(nodes, nd.prev), nd.target_path, st);
                (st1.0.push(nd.kind), st1.1)
            },
            FsEvent::Rename(from, _) => {
                let l = lineage(nodes, nd.prev);
                if l.1 || l.2 {
                    let st1 = drop_origin(l, nd.target_path, st);
                    (st1.0.push(FsEvent::Create(nd.target_path)), st1.1)
                } else if l.3 {
                    (st.0.push(FsEvent::Create(nd.target_path)), st.1)
                } else {
                    let f = match l.0 {
                        Some(a) => a,
                        None => from,
                    };
                    (st.0.push(FsEvent::Rename(f, nd.target_path)), st.1)
                }
            },
            FsEvent::Remove(p) => if !was_removed(st.1, p@) {
                (st.0.push(FsEvent::Remove(p)), st.1.push(p))
            } else {
                st
            },
            FsEvent::MkDir(_) => (st.0.push(FsEvent::MkDir(nd.target_path)), st.1),
        }
    }
}

pub open spec fn emit_upto(nodes: Seq<EventNode>, n: nat) -> Emitted
    decreases n,
{
    if n == 0 {
        (Seq::empty(), Seq::empty())
    } else {
        emit_node(nodes, n - 1, emit_upto(nodes, (n - 1) as nat))
    }
}

/// The compressed form of a batch of events.
pub open spec fn compress(evs: Seq<FsEvent>) -> Seq<FsEvent> {
    let nodes = build_chains(evs).0;
    emit_upto(nodes, nodes.len()).0
}


proof fn lemma_lookup_bound(table: LatestTable, p: Seq<char>, n: nat)
    requires
        table_wf(table, n),
    ensures
        latest_lookup(table, p) matches Some(j) ==> j < n,
    decreases table.len(),
{
    if table.len() > 0 {
        assert(table.last() == table[table.len() - 1]);
        let t2 = table.drop_last();
        assert forall|k: int| 0 <= k < t2.len() implies match (#[trigger] t2[k]).1 {
            Some(j) => j < n,
            None => true,
        } by {
            assert(t2[k] == table[k]);
        }
        lemma_lookup_bound(t2, p, n);
    }
}

proof fn lemma_build_wf(evs: Seq<FsEvent>)
    ensures
        build_chains(evs).0.len() == evs.len(),
        nodes_wf(build_chains(evs).0),
        table_wf(build_chains(evs).1, evs.len()),
    decreases evs.len(),
{
    if evs.len() > 0 {
        let e = evs.last();
        lemma_build_wf(evs.drop_last());
        let (nodes, table) = build_chains(evs.drop_last());
        lemma_lookup_bound(table, event_source(e)@, nodes.len());
        let (n2, t2) = chain_step(nodes, table, e);
        assert(build_chains(evs) == (n2, t2));
        assert forall|i: int| 0 <= i < n2.len() implies match (#[trigger] n2[i]).prev {
            Some(j) => j < i,
            None => true,
        } by {
            if i < nodes.len() {
                assert(n2[i].prev == nodes[i].prev);
            }
        }
        assert forall|k: int| 0 <= k < t2.len() implies match (#[trigger] t2[k]).1 {
            Some(j) => j < evs.len(),
            None => true,
        } by {
            if k < table.len() {
                assert(t2[k] == table[k]);
            }
        }
    }
}

fn lookup_latest(table: &Vec<(String, Option<usize>)>, p: &String) -> (r: Option<usize>)
    ensures
        r == latest_lookup(table@, p@),
{
    let mut i: usize = table.len();
    assert(table@.take(i as int) =~= table@);
    while i > 0
        invariant
            i <= table.len(),
            latest_lookup(table@, p@) == latest_lookup(table@.take(i as int), p@),
        decreases i,
    {
        assert(table@.take(i as int).drop_last() =~= table@.take(i - 1));
        if table[i - 1].0 == *p {
            return table[i - 1].1;
        }
        i = i - 1;
    }
    None
}

fn summarize_lineage(nodes: &Vec<EventNode>, start: Option<usize>) -> (r: (Option<String>, bool, bool, bool))
    requires
        nodes_wf(nodes@),
        start matches Some(i) ==> i < nodes.len(),
    ensures
        r == lineage(nodes@, start),
{
    let mut origin_path: Option<String> = None;
    let mut saw_modify = false;
    let mut saw_delete = false;
    let mut saw_create = false;
    let mut cur = start;
    while cur.is_some()
        invariant
            nodes_wf(nodes@),
            cur matches Some(i) ==> i < nodes.len(),
            lineage(nodes@, start) == ({
                let rest = lineage(nodes@, cur);
                (
                    match rest.0 { Some(f) => Some(f), None => origin_path },
                    saw_modify || rest.1,
                    saw_delete || rest.2,
                    saw_create || rest.3,
                )
            }),
        decreases (match cur { Some(i) => i as int + 1, None => 0 }),
    {
        let i = cur.unwrap();
        let node = &nodes[i];
        assert(link_below(nodes@, i) == node.prev);
        match &node.kind {
            FsEvent::Rename(from, _) => {
                origin_path = Some(from.clone());
            },
            FsEvent::Modify(_) => saw_modify = true,
            FsEvent::Remove(_) => saw_delete = true,
            FsEvent::Create(_) => saw_create = true,
            FsEvent::MkDir(_) => {},
        }
        cur = node.prev;
    }
    (origin_path, saw_modify, saw_delete, saw_create)
}

fn contains_path(deleted: &Vec<String>, p: &String) -> (r: bool)
    ensures
        r == was_removed(deleted@, p@),
{
    let mut k: usize = 0;
    while k < deleted.len()
        invariant
            k <= deleted.len(),
            forall|j: int| 0 <= j < k ==> (#[trigger] deleted@[j])@ != p@,
        decreases deleted.len() - k,
    {
        if deleted[k] == *p {
            return true;
        }
        k = k + 1;
    }
    false
}


fn copy_node(nd: &EventNode) -> (r: EventNode)
    ensures
        r == *nd,
{
    EventNode {
        target_path: nd.target_path.clone(),
        prev: nd.prev,
        kind: nd.kind.duplicate(),
        is_latest: nd.is_latest,
    }
}

/// Builds the per-path chains of a batch.
fn build_nodes(events: &Vec<FsEvent>) -> (r: Vec<EventNode>)
    ensures
        r@ == build_chains(events@).0,
        nodes_wf(r@),
{
    let mut nodes: Vec<EventNode> = Vec::new();
    let mut table: Vec<(String, Option<usize>)> = Vec::new();
    let mut k: usize = 0;
    while k < events.len()
        invariant
            k <= events.len(),
            (nodes@, table@) == build_chains(events@.take(k as int)),
            nodes@.len() == k,
            table_wf(table@, k as nat),
        decreases events.len() - k,
    {
        proof {
            assert(events@.take(k + 1).drop_last() =~= events@.take(k as int));
            lemma_build_wf(events@.take(k as int));
            lemma_lookup_bound(table@, event_source(events@[k as int])@, k as nat);
        }
        let event = &events[k];
        let prev = lookup_latest(&table, event.source());
        if let Some(idx) = prev {
            let mut nd = copy_node(&nodes[idx]);
            nd.is_latest = false;
            nodes.set(idx, nd);
        }
        let n = nodes.len();
        nodes.push(EventNode {
            target_path: event.path().clone(),
            prev,
            kind: event.duplicate(),
            is_latest: true,
        });
        match event {
            FsEvent::Rename(from, to) => {
                table.push((from.clone(), None));
                table.push((to.clone(), Some(n)));
            },
            _ => {
                table.push((event.path().clone(), Some(n)));
            },
        }
        proof {
            let (n0, t0) = build_chains(events@.take(k as int));
            assert(build_chains(events@.take(k + 1)) == chain_step(n0, t0, events@[k as int]));
            assert(nodes@ =~= chain_step(n0, t0, events@[k as int]).0);
            assert(table@ =~= chain_step(n0, t0, events@[k as int]).1);
            assert forall|j: int| 0 <= j < table@.len() implies match (#[trigger] table@[j]).1 {
                Some(x) => x < k + 1,
                None => true,
            } by {
                if j < t0.len() {
                    assert(table@[j] == t0[j]);
                }
            }
        }
        k = k + 1;
    }
    proof {
        assert(events@.take(k as int) =~= events@);
        lemma_build_wf(events@);
    }
    nodes
}

/// Emits the removal of a chain's earliest source when `drop_origin` asks for it.
fn push_origin_removal(
    l: &(Option<String>, bool, bool, bool),
    target: &String,
    ops: &mut Vec<FsEvent>,
    deleted: &mut Vec<String>,
)
    ensures
        (final(ops)@, final(deleted)@) == drop_origin(*l, *target, (old(ops)@, old(deleted)@)),
{
    if let Some(from) = &l.0 {
        if *from != *target && !l.2 && !l.3 && !contains_path(deleted, from) {
            ops.push(FsEvent::Remove(from.clone()));
            deleted.push(from.clone());
        }
    }
}

/// Folds a batch of events, in arrival order, into a shorter list with the
/// same net effect on a remote that mirrors the local tree as it was when
/// the batch began: each path keeps only its latest event, a chain of
/// renames collapses to one rename from the earliest source to the final
/// target, a renamed and then changed file becomes the removal of its
/// source and the creation of its target, and each path is removed at most
/// once.
pub fn collapse_ops(events: Vec<FsEvent>) -> (r: Vec<FsEvent>)
    ensures
        r@ == compress(events@),
{
    let nodes = build_nodes(&events);
    let mut ops: Vec<FsEvent> = Vec::new();
    let mut deleted: Vec<String> = Vec::new();
    let mut i: usize = 0;
    while i < nodes.len()
        invariant
            i <= nodes.len(),
            nodes_wf(nodes@),
            (ops@, deleted@) == emit_upto(nodes@, i as nat),
        decreases nodes.len() - i,
    {
        let node = &nodes[i];
        assert(nodes@[i as int] == *node);
        if node.is_latest {
            match &node.kind {
                FsEvent::Create(_) | FsEvent::Modify(_) => {
                    let l = summarize_lineage(&nodes, node.prev);
                    push_origin_removal(&l, &node.target_path, &mut ops, &mut deleted);
                    ops.push(node.kind.duplicate());
                },
                FsEvent::Rename(from, _) => {
                    let l = summarize_lineage(&nodes, node.prev);
                    if l.1 || l.2 {
                        push_origin_removal(&l, &node.target_path, &mut ops, &mut deleted);
                        ops.push(FsEvent::Create(node.target_path.clone()));
                    } else if l.3 {
                        ops.push(FsEvent::Create(node.target_path.clone()));
                    } else {
                        let f = match &l.0 {
                            Some(a) => a.clone(),
                            None => from.clone(),
                        };
                        ops.push(FsEvent::Rename(f, node.target_path.clone()));
                    }
                },
                FsEvent::Remove(p) => {
                    if !contains_path(&deleted, p) {
                        ops.push(FsEvent::Remove(p.clone()));
                        deleted.push(p.clone());
                    }
                },
                FsEvent::MkDir(_) => {
                    ops.push(FsEvent::MkDir(node.target_path.clone()));
                },
            }
        }
        i = i + 1;
    }
    ops
}


/// Each removal in `ops` is recorded in `deleted`, and no path is removed twice.
pub open spec fn removals_tracked(st: Emitted) -> bool {
    &&& forall|k: int| 0 <= k < st.0.len() && (#[trigger] st.0[k]) is Remove
        ==> was_removed(st.1, event_target(st.0[k])@)
    &&& removes_unique(st.0)
}

/// No two removals in `ops` name the same path.
pub open spec fn removes_unique(ops: Seq<FsEvent>) -> bool {
    forall|i: int, j: int|
        0 <= i < j < ops.len() && (#[trigger] ops[i]) is Remove && (#[trigger] ops[j]) is Remove
            ==> event_target(ops[i])@ != event_target(ops[j])@
}

proof fn lemma_push_other(st: Emitted, e: FsEvent)
    requires
        removals_tracked(st),
        !(e is Remove),
    ensures
        removals_tracked((st.0.push(e), st.1)),
{
    let o2 = st.0.push(e);
    assert forall|k: int| 0 <= k < o2.len() && (#[trigger] o2[k]) is Remove
        implies was_removed(st.1, event_target(o2[k])@) by {
        assert(o2[k] == st.0[k]);
    }
    assert forall|i: int, j: int|
        0 <= i < j < o2.len() && (#[trigger] o2[i]) is Remove && (#[trigger] o2[j]) is Remove
        implies event_target(o2[i])@ != event_target(o2[j])@ by {
        assert(o2[i] == st.0[i]);
        assert(o2[j] == st.0[j]);
    }
}

proof fn lemma_push_removal(st: Emitted, f: String)
    requires
        removals_tracked(st),
        !was_removed(st.1, f@),
    ensures
        removals_tracked((st.0.push(FsEvent::Remove(f)), st.1.push(f))),
{
    let o2 = st.0.push(FsEvent::Remove(f));
    let d2 = st.1.push(f);
    assert forall|q: Seq<char>| was_removed(st.1, q) implies was_removed(d2, q) by {
        let k = choose|k: int| 0 <= k < st.1.len() && (#[trigger] st.1[k])@ == q;
        assert(d2[k] == st.1[k]);
    }
    assert(d2[st.1.len() as int] == f);
    assert forall|k: int| 0 <= k < o2.len() && (#[trigger] o2[k]) is Remove
        implies was_removed(d2, event_target(o2[k])@) by {
        if k < st.0.len() {
            assert(o2[k] == st.0[k]);
        }
    }
    assert forall|i: int, j: int|
        0 <= i < j < o2.len() && (#[trigger] o2[i]) is Remove && (#[trigger] o2[j]) is Remove
        implies event_target(o2[i])@ != event_target(o2[j])@ by {
        assert(o2[i] == st.0[i]);
        if j < st.0.len() {
            assert(o2[j] == st.0[j]);
        }
    }
}

proof fn lemma_drop_origin_tracked(l: Summary, target: String, st: Emitted)
    requires
        removals_tracked(st),
    ensures
        removals_tracked(drop_origin(l, target, st)),
{
    if let Some(f) = l.0 {
        if f@ != target@ && !l.2 && !l.3 && !was_removed(st.1, f@) {
            lemma_push_removal(st, f);
        }
    }
}

proof fn lemma_emit_tracked(nodes: Seq<EventNode>, n: nat)
    requires
        n <= nodes.len(),
    ensures
        removals_tracked(emit_upto(nodes, n)),
    decreases n,
{
    if n > 0 {
        let i = n - 1;
        let st = emit_upto(nodes, (n - 1) as nat);
        lemma_emit_tracked(nodes, (n - 1) as nat);
        let nd = nodes[i];
        if nd.is_latest {
            let l = lineage(nodes, nd.prev);
            lemma_drop_origin_tracked(l, nd.target_path, st);
            let st1 = drop_origin(l, nd.target_path, st);
            match nd.kind {
                FsEvent::Create(_) | FsEvent::Modify(_) => {
                    lemma_push_other(st1, nd.kind);
                },
                FsEvent::Rename(from, _) => {
                    if l.1 || l.2 {
                        lemma_push_other(st1, FsEvent::Create(nd.target_path));
                    } else if l.3 {
                        lemma_push_other(st, FsEvent::Create(nd.target_path));
                    } else {
                        let f = match l.0 {
                            Some(a) => a,
                            None => from,
                        };
                        lemma_push_other(st, FsEvent::Rename(f, nd.target_path));
                    }
                },
                FsEvent::Remove(p) => {
                    if !was_removed(st.1, p@) {
                        lemma_push_removal(st, p);
                    }
                },
                FsEvent::MkDir(_) => {
                    lemma_push_other(st, FsEvent::MkDir(nd.target_path));
                },
            }
        }
    }
}

/// A compressed batch removes each path at most once.
pub proof fn lemma_compress_removes_once(evs: Seq<FsEvent>)
    ensures
        removes_unique(compress(evs)),
{
    let nodes = build_chains(evs).0;
    lemma_emit_tracked(nodes, nodes.len());
}


/// Some event of `evs` names the path `p`.
pub open spec fn mentioned(evs: Seq<FsEvent>, p: Seq<char>) -> bool {
    exists|i: int| 0 <= i < evs.len() && #[trigger] event_names(evs[i], p)
}

proof fn lemma_build_kinds(evs: Seq<FsEvent>)
    ensures
        build_chains(evs).0.len() == evs.len(),
        forall|j: int| 0 <= j < evs.len() ==> (#[trigger] build_chains(evs).0[j]).kind == evs[j]
            && build_chains(evs).0[j].target_path == event_target(evs[j]),
    decreases evs.len(),
{
    if evs.len() > 0 {
        let prefix = evs.drop_last();
        lemma_build_kinds(prefix);
        let (nodes, table) = build_chains(prefix);
        let n2 = chain_step(nodes, table, evs.last()).0;
        assert(build_chains(evs).0 == n2);
        assert forall|j: int| 0 <= j < evs.len() implies (#[trigger] n2[j]).kind == evs[j]
            && n2[j].target_path == event_target(evs[j]) by {
            if j < prefix.len() {
                assert(nodes[j].kind == prefix[j]);
                assert(prefix[j] == evs[j]);
            }
        }
    }
}

proof fn lemma_lineage_origin(nodes: Seq<EventNode>, cur: Option<usize>)
    ensures
        lineage(nodes, cur).0 matches Some(f) ==> exists|j: int| 0 <= j < nodes.len()
            && #[trigger] event_source(nodes[j].kind) == f,
    decreases (match cur { Some(i) => i as int + 1, None => 0 }),
{
    if let Some(i) = cur {
        if i < nodes.len() {
            lemma_lineage_origin(nodes, link_below(nodes, i));
            let rest = lineage(nodes, link_below(nodes, i));
            if rest.0 is None {
                if let FsEvent::Rename(from, _) = nodes[i as int].kind {
                    assert(event_source(nodes[i as int].kind) == from);
                }
            }
        }
    }
}

/// Some node of `nodes` holds an event that names `p`.
pub open spec fn node_named(nodes: Seq<EventNode>, p: Seq<char>) -> bool {
    exists|j: int| 0 <= j < nodes.len() && #[trigger] event_names(nodes[j].kind, p)
}

pub open spec fn ops_from_nodes(nodes: Seq<EventNode>, ops: Seq<FsEvent>) -> bool {
    forall|k: int| 0 <= k < ops.len() ==> node_named(nodes, event_target(#[trigger] ops[k])@)
        && node_named(nodes, event_source(ops[k])@)
}

proof fn lemma_push_named(nodes: Seq<EventNode>, ops: Seq<FsEvent>, e: FsEvent)
    requires
        ops_from_nodes(nodes, ops),
        node_named(nodes, event_target(e)@),
        node_named(nodes, event_source(e)@),
    ensures
        ops_from_nodes(nodes, ops.push(e)),
{
    assert forall|k: int| 0 <= k < ops.push(e).len() implies node_named(nodes, event_target(#[trigger] ops.push(e)[k])@)
        && node_named(nodes, event_source(ops.push(e)[k])@) by {
        if k < ops.len() {
            assert(ops.push(e)[k] == ops[k]);
        }
    }
}

proof fn lemma_node_named(nodes: Seq<EventNode>, j: int)
    requires
        0 <= j < nodes.len(),
    ensures
        node_named(nodes, event_target(nodes[j].kind)@),
        node_named(nodes, event_source(nodes[j].kind)@),
{
    assert(event_names(nodes[j].kind, event_target(nodes[j].kind)@));
    assert(event_names(nodes[j].kind, event_source(nodes[j].kind)@));
}

proof fn lemma_drop_origin_named(nodes: Seq<EventNode>, cur: Option<usize>, target: String, st: Emitted)
    requires
        ops_from_nodes(nodes, st.0),
    ensures
        ops_from_nodes(nodes, drop_origin(lineage(nodes, cur), target, st).0),
        lineage(nodes, cur).0 matches Some(f) ==> node_named(nodes, f@),
{
    let l = lineage(nodes, cur);
    lemma_lineage_origin(nodes, cur);
    if let Some(f) = l.0 {
        let j = choose|j: int| 0 <= j < nodes.len() && #[trigger] event_source(nodes[j].kind) == f;
        lemma_node_named(nodes, j);
        if f@ != target@ && !l.2 && !l.3 && !was_removed(st.1, f@) {
            lemma_push_named(nodes, st.0, FsEvent::Remove(f));
        }
    }
}

proof fn lemma_emit_named(nodes: Seq<EventNode>, n: nat)
    requires
        n <= nodes.len(),
        forall|j: int| 0 <= j < nodes.len() ==> (#[trigger] nodes[j]).target_path == event_target(nodes[j].kind),
    ensures
        ops_from_nodes(nodes, emit_upto(nodes, n).0),
    decreases n,
{
    if n > 0 {
        let i = n - 1;
        let st = emit_upto(nodes, (n - 1) as nat);
        lemma_emit_named(nodes, (n - 1) as nat);
        let nd = nodes[i];
        lemma_node_named(nodes, i);
        assert(nd.target_path == event_target(nd.kind));
        if nd.is_latest {
            let l = lineage(nodes, nd.prev);
            lemma_drop_origin_named(nodes, nd.prev, nd.target_path, st);
            let st1 = drop_origin(l, nd.target_path, st);
            match nd.kind {
                FsEvent::Create(_) | FsEvent::Modify(_) => {
                    lemma_push_named(nodes, st1.0, nd.kind);
                },
                FsEvent::Rename(from, _) => {
                    if l.1 || l.2 {
                        lemma_push_named(nodes, st1.0, FsEvent::Create(nd.target_path));
                    } else if l.3 {
                        lemma_push_named(nodes, st.0, FsEvent::Create(nd.target_path));
                    } else {
                        let f = match l.0 {
                            Some(a) => a,
                            None => from,
                        };
                        lemma_push_named(nodes, st.0, FsEvent::Rename(f, nd.target_path));
                    }
                },
                FsEvent::Remove(p) => {
                    if !was_removed(st.1, p@) {
                        lemma_push_named(nodes, st.0, FsEvent::Remove(p));
                    }
                },
                FsEvent::MkDir(_) => {
                    lemma_push_named(nodes, st.0, FsEvent::MkDir(nd.target_path));
                },
            }
        }
    }
}

/// Every path that a compressed batch names is named by an event of the
/// batch itself: compression never invents a path.
pub proof fn lemma_compress_paths_from_input(evs: Seq<FsEvent>)
    ensures
        forall|k: int| 0 <= k < compress(evs).len() ==>
            mentioned(evs, event_target(#[trigger] compress(evs)[k])@)
            && mentioned(evs, event_source(compress(evs)[k])@),
{
    let nodes = build_chains(evs).0;
    lemma_build_kinds(evs);
    assert forall|j: int| 0 <= j < nodes.len() implies (#[trigger] nodes[j]).target_path == event_target(nodes[j].kind) by {
        assert(nodes[j].kind == evs[j]);
    }
    lemma_emit_named(nodes, nodes.len());
    assert forall|p: Seq<char>| node_named(nodes, p) implies mentioned(evs, p) by {
        let j = choose|j: int| 0 <= j < nodes.len() && #[trigger] event_names(nodes[j].kind, p);
        assert(nodes[j].kind == evs[j]);
    }
}


/// When every event of a batch names only paths under `root`, so does its
/// compressed form.
pub proof fn lemma_compress_stays_under(evs: Seq<FsEvent>, root: Seq<char>)
    requires
        forall|i: int| 0 <= i < evs.len() ==> is_under(root, event_target(#[trigger] evs[i])@)
            && is_under(root, event_source(evs[i])@),
    ensures
        forall|k: int| 0 <= k < compress(evs).len() ==>
            is_under(root, event_target(#[trigger] compress(evs)[k])@)
            && is_under(root, event_source(compress(evs)[k])@),
{
    lemma_compress_paths_from_input(evs);
    assert forall|q: Seq<char>| mentioned(evs, q) implies is_under(root, q) by {
        let i = choose|i: int| 0 <= i < evs.len() && #[trigger] event_names(evs[i], q);
    }
}


/// One step of merging repeated modifies: a modify of a path that already
/// has an open modify replaces it in place; any other event on a path closes
/// that path's open modify and is appended.
pub open spec fn merge_step(out: Seq<FsEvent>, table: LatestTable, e: FsEvent) -> (Seq<FsEvent>, LatestTable) {
    match e {
        FsEvent::Modify(p) => match latest_lookup(table, p@) {
            Some(idx) => if idx < out.len() { (out.update(idx as int, e), table) } else { (out, table) },
            None => (out.push(e), table.push((p, Some(out.len() as usize)))),
        },
        FsEvent::Rename(from, to) => (out.push(e), table.push((from, None)).push((to, None))),
        FsEvent::Create(p) | FsEvent::Remove(p) | FsEvent::MkDir(p) => (out.push(e), table.push((p, None))),
    }
}

pub open spec fn merge_all(evs: Seq<FsEvent>) -> (Seq<FsEvent>, LatestTable)
    decreases evs.len(),
{
    if evs.len() == 0 {
        (Seq::empty(), Seq::empty())
    } else {
        let (out, table) = merge_all(evs.drop_last());
        merge_step(out, table, evs.last())
    }
}

/// Merges runs of modifies of one path that no other event on that path
/// interrupts into the position of the first; every other event keeps its
/// place and order.
pub fn merge_repeated_modifies(ops: Vec<FsEvent>) -> (r: Vec<FsEvent>)
    ensures
        r@ == merge_all(ops@).0,
{
    let mut out: Vec<FsEvent> = Vec::new();
    let mut table: Vec<(String, Option<usize>)> = Vec::new();
    let mut k: usize = 0;
    while k < ops.len()
        invariant
            k <= ops.len(),
            (out@, table@) == merge_all(ops@.take(k as int)),
            out@.len() <= k,
            table_wf(table@, out@.len()),
        decreases ops.len() - k,
    {
        proof {
            assert(ops@.take(k + 1).drop_last() =~= ops@.take(k as int));
        }
        let ghost out0 = out@;
        let ghost t0 = table@;
        let e = &ops[k];
        match e {
            FsEvent::Modify(p) => {
                proof {
                    lemma_lookup_bound(table@, p@, out@.len());
                }
                match lookup_latest(&table, p) {
                    Some(idx) => {
                        out.set(idx, FsEvent::Modify(p.clone()));
                    },
                    None => {
                        let n = out.len();
                        out.push(FsEvent::Modify(p.clone()));
                        table.push((p.clone(), Some(n)));
                    },
                }
            },
            FsEvent::Rename(from, to) => {
                out.push(e.duplicate());
                table.push((from.clone(), None));
                table.push((to.clone(), None));
            },
            FsEvent::Create(p) | FsEvent::Remove(p) | FsEvent::MkDir(p) => {
                out.push(e.duplicate());
                table.push((p.clone(), None));
            },
        }
        proof {
            assert(merge_all(ops@.take(k + 1)) == merge_step(out0, t0, ops@[k as int]));
            assert(out@ =~= merge_step(out0, t0, ops@[k as int]).0);
            assert(table@ =~= merge_step(out0, t0, ops@[k as int]).1);
            assert forall|j: int| 0 <= j < table@.len() implies match (#[trigger] table@[j]).1 {
                Some(x) => x < out@.len(),
                None => true,
            } by {
                if j < t0.len() {
                    assert(table@[j] == t0[j]);
                }
            }
        }
        k = k + 1;
    }
    assert(ops@.take(k as int) =~= ops@);
    out
}


/// Each event continues the path that the previous one left behind.
pub open spec fn is_linked(evs: Seq<FsEvent>) -> bool {
    forall|i: int| 0 <= i < evs.len() - 1 ==> event_target(#[trigger] evs[i])@ == event_source(evs[i + 1])@
}

/// Each event is a rename whose source is the previous event's target.
pub open spec fn is_rename_chain(evs: Seq<FsEvent>) -> bool {
    &&& forall|i: int| 0 <= i < evs.len() ==> (#[trigger] evs[i]) is Rename
    &&& is_linked(evs)
}

proof fn lemma_chain_build(evs: Seq<FsEvent>, k: int)
    requires
        is_linked(evs),
        1 <= k <= evs.len(),
        evs.len() <= usize::MAX,
    ensures
        ({
            let (nodes, table) = build_chains(evs.take(k));
            &&& nodes.len() == k
            &&& forall|j: int| 0 <= j < k ==> (#[trigger] nodes[j]).kind == evs[j]
                && nodes[j].target_path == event_target(evs[j])
                && nodes[j].prev == (if j == 0 { None } else { Some((j - 1) as usize) })
                && nodes[j].is_latest == (j == k - 1)
            &&& latest_lookup(table, event_target(evs[k - 1])@) == Some((k - 1) as usize)
        }),
    decreases k,
{
    let pre = evs.take(k);
    assert(pre.drop_last() =~= evs.take(k - 1));
    assert(pre.last() == evs[k - 1]);
    let e = evs[k - 1];
    let (n0, t0) = build_chains(evs.take(k - 1));
    if k == 1 {
        assert(evs.take(0) =~= Seq::<FsEvent>::empty());
        assert(latest_lookup(t0, event_source(e)@) is None);
    } else {
        lemma_chain_build(evs, k - 1);
        assert(event_target(evs[k - 2])@ == event_source(evs[k - 1])@);
    }
    let (n1, t1) = chain_step(n0, t0, e);
    assert(build_chains(pre) == (n1, t1));
    let prev = latest_lookup(t0, event_source(e)@);
    assert(n0.len() == k - 1);
    if k == 1 {
        assert(prev is None);
    } else {
        assert(prev == Some((k - 2) as usize));
    }
    let marked = match prev {
        Some(i) => if i < n0.len() {
            n0.update(i as int, EventNode { is_latest: false, ..n0[i as int] })
        } else {
            n0
        },
        None => n0,
    };
    assert(n1 == marked.push(EventNode { target_path: event_target(e), prev, kind: e, is_latest: true }));
    if let FsEvent::Rename(from, to) = e {
        let t2 = t0.push((from, None));
        assert(t1 == t2.push((to, Some((k - 1) as usize))));
        assert(t1.last() == (to, Some((k - 1) as usize)));
    }
    assert forall|j: int| 0 <= j < k implies (#[trigger] n1[j]).kind == evs[j]
        && n1[j].target_path == event_target(evs[j])
        && n1[j].prev == (if j == 0 { None } else { Some((j - 1) as usize) })
        && n1[j].is_latest == (j == k - 1) by {
        if j < k - 1 {
            assert(n1[j] == marked[j]);
            if j == k - 2 {
                assert(marked[j] == EventNode { is_latest: false, ..n0[j] });
            } else {
                assert(marked[j] == n0[j]);
            }
        }
    }
}

proof fn lemma_chain_lineage(nodes: Seq<EventNode>, evs: Seq<FsEvent>, j: int)
    requires
        is_rename_chain(evs),
        0 <= j < nodes.len() <= evs.len(),
        evs.len() <= usize::MAX,
        forall|i: int| 0 <= i < nodes.len() ==> (#[trigger] nodes[i]).kind == evs[i]
            && nodes[i].prev == (if i == 0 { None } else { Some((i - 1) as usize) }),
    ensures
        lineage(nodes, Some(j as usize)) == (Some(event_source(evs[0])), false, false, false),
    decreases j,
{
    let nd = nodes[j];
    assert(nd.kind == evs[j]);
    assert(evs[j] is Rename);
    if j == 0 {
        assert(link_below(nodes, 0) is None);
        assert(lineage(nodes, None) == (None::<String>, false, false, false));
        if let FsEvent::Rename(from, _) = evs[0] {
            assert(event_source(evs[0]) == from);
        }
        assert(lineage(nodes, Some(0usize)) == summary_step(nd.kind, lineage(nodes, None)));
    } else {
        assert(link_below(nodes, j as usize) == Some((j - 1) as usize));
        lemma_chain_lineage(nodes, evs, j - 1);
    }
}

proof fn lemma_chain_emit_quiet(nodes: Seq<EventNode>, m: nat)
    requires
        m <= nodes.len(),
        forall|i: int| 0 <= i < m ==> !(#[trigger] nodes[i]).is_latest,
    ensures
        emit_upto(nodes, m) == (Seq::<FsEvent>::empty(), Seq::<String>::empty()),
    decreases m,
{
    if m > 0 {
        lemma_chain_emit_quiet(nodes, (m - 1) as nat);
    }
}

/// A chain of renames, each moving the previous target on, compresses to a
/// single rename from the chain's first source to its last target.
pub proof fn lemma_rename_chain_collapses(evs: Seq<FsEvent>)
    requires
        0 < evs.len() <= usize::MAX,
        is_rename_chain(evs),
    ensures
        compress(evs) == seq![FsEvent::Rename(event_source(evs[0]), event_target(evs[evs.len() - 1]))],
{
    let k = evs.len() as int;
    lemma_chain_build(evs, k);
    assert(evs.take(k) =~= evs);
    let nodes = build_chains(evs).0;
    lemma_chain_emit_quiet(nodes, (k - 1) as nat);
    let nd = nodes[k - 1];
    let l = lineage(nodes, nd.prev);
    if k > 1 {
        lemma_chain_lineage(nodes, evs, k - 2);
    }
    assert(evs[k - 1] is Rename);
    assert(l.0 is None ==> k == 1);
    assert(emit_upto(nodes, k as nat) == emit_node(nodes, k - 1, emit_upto(nodes, (k - 1) as nat)));
    assert(compress(evs) =~= seq![FsEvent::Rename(event_source(evs[0]), event_target(evs[k - 1]))]);
}


proof fn lemma_plain_lineage(nodes: Seq<EventNode>, j: int)
    requires
        0 <= j < nodes.len() <= usize::MAX,
        forall|i: int| 0 <= i < nodes.len() ==> !((#[trigger] nodes[i]).kind is Rename),
    ensures
        lineage(nodes, Some(j as usize)).0 is None,
    decreases j,
{
    let ju = j as usize;
    assert(ju as int == j);
    assert(!(nodes[j].kind is Rename));
    let rest = lineage(nodes, link_below(nodes, ju));
    assert(lineage(nodes, Some(ju)) == summary_step(nodes[j].kind, rest));
    if let Some(b) = link_below(nodes, ju) {
        lemma_plain_lineage(nodes, b as int);
        assert(rest.0 is None);
    }
}

/// A batch of creates, modifies, removes and mkdirs of one path, with no
/// rename, compresses to its last event alone.
pub proof fn lemma_single_path_keeps_last(evs: Seq<FsEvent>)
    requires
        0 < evs.len() <= usize::MAX,
        forall|i: int| 0 <= i < evs.len() ==> !((#[trigger] evs[i]) is Rename),
        forall|i: int| 0 <= i < evs.len() ==> event_target(#[trigger] evs[i])@ == event_target(evs[0])@,
    ensures
        compress(evs) == seq![evs[evs.len() - 1]],
{
    let k = evs.len() as int;
    assert forall|i: int| 0 <= i < evs.len() - 1 implies event_target(#[trigger] evs[i])@ == event_source(evs[i + 1])@ by {
        assert(event_target(evs[i + 1])@ == event_target(evs[0])@);
        assert(!(evs[i + 1] is Rename));
    }
    lemma_chain_build(evs, k);
    assert(evs.take(k) =~= evs);
    let nodes = build_chains(evs).0;
    lemma_chain_emit_quiet(nodes, (k - 1) as nat);
    let nd = nodes[k - 1];
    assert(nd.kind == evs[k - 1]);
    assert forall|i: int| 0 <= i < nodes.len() implies !((#[trigger] nodes[i]).kind is Rename) by {
        assert(nodes[i].kind == evs[i]);
    }
    if k > 1 {
        lemma_plain_lineage(nodes, k - 2);
    }
    let l = lineage(nodes, nd.prev);
    assert(l.0 is None);
    assert(!was_removed(Seq::<String>::empty(), event_target(nd.kind)@));
    assert(emit_upto(nodes, k as nat) == emit_node(nodes, k - 1, emit_upto(nodes, (k - 1) as nat)));
    assert(compress(evs) =~= seq![evs[k - 1]]);
}

} // verus!
