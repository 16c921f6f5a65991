//! Point-in-time process-tree inspection.
//!
//! The embedding layer snapshots the OS process table once and hands it
//! in as a plain vector; everything here is pure computation on that
//! snapshot, so a batch of trees built from one snapshot is consistent
//! with a single point-in-time view by construction. A tree is the root
//! process of a session plus every live descendant, discovered
//! breadth-first; an absent root is a normal outcome, not an error.

use vstd::prelude::*;

use crate::hashing::decimal_of;
use crate::hashing::decimal_string;
use crate::process_manager::KillPlan;

verus! {

/// One process from the snapshot of the OS process table.
pub struct ProcessNode {
    pub pid: u32,
    pub parent_pid: u32,
    pub name: String,
}

/// The process tree of one session: the root process and all of its
/// live descendants at the time of the snapshot, root first, every
/// node's parent listed before the node itself.
pub struct SessionProcessTree {
    pub session_id: u32,
    pub root_pid: u32,
    pub nodes: Vec<ProcessNode>,
}

/// A snapshot lists each pid at most once (as the OS process table does).
pub open spec fn snapshot_wf(snap: Seq<ProcessNode>) -> bool {
    forall|i: int, j: int|
        0 <= i < j < snap.len() ==> (#[trigger] snap[i]).pid != (#[trigger] snap[j]).pid
}

/// Some process in the snapshot has this pid.
pub open spec fn snap_has_pid(snap: Seq<ProcessNode>, pid: u32) -> bool {
    exists|i: int| 0 <= i < snap.len() && (#[trigger] snap[i]).pid == pid
}

/// Some listed node has this pid.
pub open spec fn nodes_have_pid(nodes: Seq<ProcessNode>, pid: u32) -> bool {
    exists|i: int| 0 <= i < nodes.len() && (#[trigger] nodes[i]).pid == pid
}

/// What it means for `t` to be the process tree of `root_pid` within
/// `snap`: the root comes first; every node is taken from the snapshot,
/// no pid twice; every non-root node's parent appears earlier in the
/// list (so the tree hangs together below the root); and every snapshot
/// process whose parent is in the tree is in the tree (so no live
/// descendant is missed).
pub open spec fn tree_wf(
    snap: Seq<ProcessNode>,
    session_id: u32,
    root_pid: u32,
    t: SessionProcessTree,
) -> bool {
    &&& t.session_id == session_id
    &&& t.root_pid == root_pid
    &&& t.nodes@.len() >= 1
    &&& t.nodes@[0].pid == root_pid
    &&& forall|a: int| 0 <= a < t.nodes@.len() ==> snap.contains(#[trigger] t.nodes@[a])
    &&& forall|a: int, b: int|
        0 <= a < b < t.nodes@.len() ==> (#[trigger] t.nodes@[a]).pid != (
        #[trigger] t.nodes@[b]).pid
    &&& forall|b: int|
        1 <= b < t.nodes@.len() ==> (#[trigger] t.nodes@[b]).pid != t.nodes@[b].parent_pid
            && exists|a: int| 0 <= a < b && (#[trigger] t.nodes@[a]).pid == t.nodes@[b].parent_pid
    &&& forall|j: int|
        0 <= j < snap.len() && (#[trigger] snap[j]).pid != snap[j].parent_pid && nodes_have_pid(
            t.nodes@,
            snap[j].parent_pid,
        ) ==> nodes_have_pid(t.nodes@, snap[j].pid)
}

/// A list of nodes with pairwise-distinct pids, all drawn from the
/// snapshot, can be no longer than the snapshot.
proof fn lemma_distinct_nodes_bound(nodes: Seq<ProcessNode>, snap: Seq<ProcessNode>)
    requires
        forall|a: int, b: int|
            0 <= a < b < nodes.len() ==> (#[trigger] nodes[a]).pid != (#[trigger] nodes[b]).pid,
        forall|a: int| 0 <= a < nodes.len() ==> snap.contains(#[trigger] nodes[a]),
    ensures
        nodes.len() <= snap.len(),
{
    let pid_of = |n: ProcessNode| n.pid;
    let nps = nodes.map_values(pid_of);
    let sps = snap.map_values(pid_of);
    assert(nps.no_duplicates()) by {
        assert(forall|a: int| 0 <= a < nodes.len() ==> nps[a] == pid_of(nodes[a]));
    }
    nps.unique_seq_to_set();
    sps.lemma_cardinality_of_set();
    assert(nps.to_set().subset_of(sps.to_set())) by {
        assert forall|p: u32| nps.to_set().contains(p) implies sps.to_set().contains(p) by {
            let a = choose|a: int| 0 <= a < nps.len() && nps[a] == p;
            assert(snap.contains(nodes[a]));
            let j = choose|j: int| 0 <= j < snap.len() && snap[j] == nodes[a];
            assert(sps[j] == p);
        }
    }
    vstd::set_lib::lemma_len_subset(nps.to_set(), sps.to_set());
}

/// A copy of a snapshot node.
fn clone_node(n: &ProcessNode) -> (r: ProcessNode)
    ensures
        r == *n,
{
    ProcessNode { pid: n.pid, parent_pid: n.parent_pid, name: n.name.clone() }
}

/// Is `pid` already listed?
fn contains_pid(nodes: &Vec<ProcessNode>, pid: u32) -> (r: bool)
    ensures
        r == nodes_have_pid(nodes@, pid),
{
    let n = nodes.len();
    let mut i: usize = 0;
    while i < n
        invariant
            i <= n,
            n == nodes@.len(),
            forall|j: int| 0 <= j < i ==> (#[trigger] nodes@[j]).pid != pid,
        decreases n - i,
    {
        if nodes[i].pid == pid {
            return true;
        }
        i += 1;
    }
    false
}

/// The snapshot index of the process with this pid, if it is present.
fn find_pid_index(snap: &Vec<ProcessNode>, pid: u32) -> (r: Option<usize>)
    ensures
        match r {
            Some(i) => i < snap@.len() && snap@[i as int].pid == pid,
            None => !snap_has_pid(snap@, pid),
        },
{
    let n = snap.len();
    let mut i: usize = 0;
    while i < n
        invariant
            i <= n,
            n == snap@.len(),
            forall|j: int| 0 <= j < i ==> (#[trigger] snap@[j]).pid != pid,
        decreases n - i,
    {
        if snap[i].pid == pid {
            return Some(i);
        }
        i += 1;
    }
    None
}

/// Builds the process tree of `root_pid` from one snapshot of the
/// process table. Returns a tree exactly when the root pid is still
/// present in the snapshot; a vanished root yields nothing, which is a
/// normal outcome for a session that has already exited.
pub fn get_process_tree(snap: &Vec<ProcessNode>, session_id: u32, root_pid: u32) -> (r: Option<
    SessionProcessTree,
>)
    requires
        snapshot_wf(snap@),
    ensures
        r is Some <==> snap_has_pid(snap@, root_pid),
        r matches Some(t) ==> tree_wf(snap@, session_id, root_pid, t),
{
    let root_idx = match find_pid_index(snap, root_pid) {
        Some(i) => i,
        None => {
            return None;
        },
    };

    let mut nodes: Vec<ProcessNode> = Vec::new();
    nodes.push(clone_node(&snap[root_idx]));
    proof {
        assert(snap@.contains(nodes@[0])) by {
            assert(snap@[root_idx as int] == nodes@[0]);
        }
    }

    let mut i: usize = 0;
    while i < nodes.len()
        invariant
            snapshot_wf(snap@),
            1 <= nodes@.len() <= snap@.len(),
            i <= nodes@.len(),
            nodes@[0].pid == root_pid,
            forall|a: int| 0 <= a < nodes@.len() ==> snap@.contains(#[trigger] nodes@[a]),
            forall|a: int, b: int|
                0 <= a < b < nodes@.len() ==> (#[trigger] nodes@[a]).pid != (
                #[trigger] nodes@[b]).pid,
            forall|b: int|
                1 <= b < nodes@.len() ==> (#[trigger] nodes@[b]).pid != nodes@[b].parent_pid
                    && exists|a: int|
                    0 <= a < b && (#[trigger] nodes@[a]).pid == nodes@[b].parent_pid,
            forall|j: int|
                0 <= j < snap@.len() && (#[trigger] snap@[j]).pid != snap@[j].parent_pid && (
                exists|a: int|
                    0 <= a < i && (#[trigger] nodes@[a]).pid == snap@[j].parent_pid)
                    ==> nodes_have_pid(nodes@, snap@[j].pid),
        decreases snap@.len() - i,
    {
        let cur_pid = nodes[i].pid;
        let sn = snap.len();
        let mut j: usize = 0;
        while j < sn
            invariant
                snapshot_wf(snap@),
                1 <= nodes@.len() <= snap@.len(),
                i < nodes@.len(),
                j <= sn,
                sn == snap@.len(),
                cur_pid == nodes@[i as int].pid,
                nodes@[0].pid == root_pid,
                forall|a: int| 0 <= a < nodes@.len() ==> snap@.contains(#[trigger] nodes@[a]),
                forall|a: int, b: int|
                    0 <= a < b < nodes@.len() ==> (#[trigger] nodes@[a]).pid != (
                    #[trigger] nodes@[b]).pid,
                forall|b: int|
                    1 <= b < nodes@.len() ==> (#[trigger] nodes@[b]).pid != nodes@[b].parent_pid
                        && exists|a: int|
                        0 <= a < b && (#[trigger] nodes@[a]).pid == nodes@[b].parent_pid,
                forall|jj: int|
                    0 <= jj < snap@.len() && (#[trigger] snap@[jj]).pid != snap@[jj].parent_pid
                        && (exists|a: int|
                        0 <= a < i && (#[trigger] nodes@[a]).pid == snap@[jj].parent_pid)
                        ==> nodes_have_pid(nodes@, snap@[jj].pid),
                forall|jj: int|
                    0 <= jj < j && (#[trigger] snap@[jj]).pid != snap@[jj].parent_pid
                        && snap@[jj].parent_pid == cur_pid ==> nodes_have_pid(nodes@,
                    snap@[jj].pid),
            decreases sn - j,
        {
            let cand = &snap[j];
            if cand.parent_pid == cur_pid && cand.pid != cand.parent_pid && !contains_pid(
                &nodes,
                cand.pid,
            ) {
                let ghost pre = nodes@;
                nodes.push(clone_node(cand));
                proof {
                    assert(nodes@ == pre.push(snap@[j as int]));
                    assert(snap@.contains(nodes@[pre.len() as int])) by {
                        assert(snap@[j as int] == nodes@[pre.len() as int]);
                    }
                    assert(nodes@[i as int].pid == cur_pid);
                    lemma_distinct_nodes_bound(nodes@, snap@);
                    assert forall|p: u32| nodes_have_pid(pre, p) implies nodes_have_pid(
                        nodes@, p) by {
                        let a = choose|a: int| 0 <= a < pre.len() && (#[trigger] pre[a]).pid == p;
                        assert(nodes@[a] == pre[a]);
                    }
                    assert(nodes_have_pid(nodes@, snap@[j as int].pid)) by {
                        assert(nodes@[pre.len() as int].pid == snap@[j as int].pid);
                    }
                    assert forall|b: int|
                        1 <= b < nodes@.len() implies (#[trigger] nodes@[b]).pid
                        != nodes@[b].parent_pid && exists|a: int|
                        0 <= a < b && (#[trigger] nodes@[a]).pid == nodes@[b].parent_pid by {
                        if b < pre.len() {
                            assert(pre[b].pid != pre[b].parent_pid && exists|a: int|
                                0 <= a < b && (#[trigger] pre[a]).pid == pre[b].parent_pid);
                            let a = choose|a: int|
                                0 <= a < b && (#[trigger] pre[a]).pid == pre[b].parent_pid;
                            assert(nodes@[a].pid == nodes@[b].parent_pid);
                        } else {
                            assert(nodes@[i as int].pid == nodes@[b].parent_pid);
                        }
                    }
                }
            }
            j += 1;
        }
        i += 1;
    }
    proof {
        assert forall|j: int|
            0 <= j < snap@.len() && (#[trigger] snap@[j]).pid != snap@[j].parent_pid
                && nodes_have_pid(nodes@, snap@[j].parent_pid) implies nodes_have_pid(nodes@,
            snap@[j].pid) by {
            let a = choose|a: int|
                0 <= a < nodes@.len() && (#[trigger] nodes@[a]).pid == snap@[j].parent_pid;
            assert(0 <= a < i);
        }
    }
    Some(SessionProcessTree { session_id, root_pid, nodes })
}

/// How many of the first `k` listed sessions have a live root in the
/// snapshot.
pub open spec fn live_before(snap: Seq<ProcessNode>, sessions: Seq<(u32, u32)>, k: int) -> int
    decreases k,
{
    if k <= 0 {
        0
    } else {
        live_before(snap, sessions, k - 1) + if snap_has_pid(snap, sessions[k - 1].1) {
            1int
        } else {
            0int
        }
    }
}

/// Builds the trees of every listed session from one shared snapshot,
/// so the batch is consistent with a single point-in-time view.
/// Sessions whose root pid is gone are skipped; each session with a
/// live root contributes its tree, in order.
pub fn get_all_process_trees(snap: &Vec<ProcessNode>, sessions: &Vec<(u32, u32)>) -> (r: Vec<
    SessionProcessTree,
>)
    requires
        snapshot_wf(snap@),
    ensures
        r@.len() == live_before(snap@, sessions@, sessions@.len() as int),
        r@.len() <= sessions@.len(),
        forall|k: int|
            0 <= k < sessions@.len() && snap_has_pid(snap@, (#[trigger] sessions@[k]).1) ==> {
                let i = live_before(snap@, sessions@, k);
                &&& 0 <= i < r@.len()
                &&& r@[i].session_id == sessions@[k].0
                &&& r@[i].root_pid == sessions@[k].1
                &&& tree_wf(snap@, sessions@[k].0, sessions@[k].1, r@[i])
            },
{
    let n = sessions.len();
    let mut r: Vec<SessionProcessTree> = Vec::new();
    let mut k: usize = 0;
    while k < n
        invariant
            snapshot_wf(snap@),
            k <= n,
            n == sessions@.len(),
            r@.len() == live_before(snap@, sessions@, k as int),
            r@.len() <= k,
            forall|kk: int|
                0 <= kk < k && snap_has_pid(snap@, (#[trigger] sessions@[kk]).1) ==> {
                    let i = live_before(snap@, sessions@, kk);
                    &&& 0 <= i < r@.len()
                    &&& r@[i].session_id == sessions@[kk].0
                    &&& r@[i].root_pid == sessions@[kk].1
                    &&& tree_wf(snap@, sessions@[kk].0, sessions@[kk].1, r@[i])
                },
        decreases n - k,
    {
        let (sid, root_pid) = sessions[k];
        proof {
            assert(sessions@[k as int] == (sid, root_pid));
        }
        match get_process_tree(snap, sid, root_pid) {
            Some(t) => {
                proof {
                    assert(live_before(snap@, sessions@, k + 1) == live_before(snap@, sessions@,
                        k as int) + 1);
                }
                r.push(t);
            },
            None => {
                proof {
                    assert(live_before(snap@, sessions@, k + 1) == live_before(snap@, sessions@,
                        k as int));
                }
            },
        }
        k += 1;
    }
    r
}

/// The decision of whether a raw pid may be killed, and the order to
/// carry it out: a pid that is the root of a registered session is
/// refused (that termination must go through the session kill flow,
/// which also cleans the registries); any other pid gets a graceful
/// signal, a wait of up to two seconds, then a forceful kill.
pub fn kill_process(pid: u32, session_root_pids: &Vec<u32>) -> (r: Result<KillPlan, String>)
    ensures
        r is Ok <==> !session_root_pids@.contains(pid),
        r matches Ok(p) ==> p.target_pid == pid && p.grace_ms == 2000,
        r matches Err(m) ==> m@ == "Cannot kill session root process "@ + decimal_of(pid as nat)
            + " directly"@,
{
    let n = session_root_pids.len();
    let mut i: usize = 0;
    while i < n
        invariant
            i <= n,
            n == session_root_pids@.len(),
            forall|j: int| 0 <= j < i ==> session_root_pids@[j] != pid,
        decreases n - i,
    {
        if session_root_pids[i] == pid {
            let mut m = String::from_str("Cannot kill session root process ");
            let d = decimal_string(pid as u64);
            m.append(d.as_str());
            m.append(" directly");
            proof {
                assert(session_root_pids@[i as int] == pid);
            }
            return Err(m);
        }
        i += 1;
    }
    proof {
        assert(!session_root_pids@.contains(pid));
    }
    Ok(KillPlan { target_pid: pid, grace_ms: 2000 })
}

/// The process tree of a session, by its registry entry: nothing for
/// a session that is not registered (in particular, immediately after
/// its kill completes), and otherwise the tree of its root pid from
/// the snapshot — which is absent in turn once the root has exited.
pub fn get_session_process_tree(
    pm: &crate::process_manager::ProcessManager,
    snap: &Vec<ProcessNode>,
    session_id: u32,
) -> (r: Option<SessionProcessTree>)
    requires
        pm.wf(),
        snapshot_wf(snap@),
    ensures
        r is Some <==> pm@.contains_key(session_id) && snap_has_pid(
            snap@,
            pm@[session_id].root_pid,
        ),
        r matches Some(t) ==> tree_wf(snap@, session_id, pm@[session_id].root_pid, t),
{
    let root_pid = match pm.get_session_pid(session_id) {
        Some(pid) => pid,
        None => {
            return None;
        },
    };
    get_process_tree(snap, session_id, root_pid)
}

/// A root with no live children yields a tree of exactly one node: if
/// no snapshot process other than the root itself names the root as its
/// parent, the tree is the root alone.
pub proof fn lemma_tree_single_node(
    snap: Seq<ProcessNode>,
    session_id: u32,
    root_pid: u32,
    t: SessionProcessTree,
)
    requires
        tree_wf(snap, session_id, root_pid, t),
        forall|j: int|
            0 <= j < snap.len() && (#[trigger] snap[j]).parent_pid == root_pid ==> snap[j].pid
                == root_pid,
    ensures
        t.nodes@.len() == 1,
{
    if t.nodes@.len() >= 2 {
        let second = t.nodes@[1];
        assert(exists|a: int| 0 <= a < 1 && (#[trigger] t.nodes@[a]).pid == second.parent_pid);
        assert(second.parent_pid == root_pid);
        assert(snap.contains(second));
        let j = choose|j: int| 0 <= j < snap.len() && snap[j] == second;
        assert(snap[j].pid == root_pid);
        assert(t.nodes@[0].pid == t.nodes@[1].pid);
    }
}

} // verus!
