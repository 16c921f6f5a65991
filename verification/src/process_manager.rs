//! The registry of active PTY-backed sessions and the decisions of the
//! session lifecycle: spawn validation, stdin forwarding, resize
//! validation, and graceful-then-forceful termination.
//!
//! The manager owns the authoritative `session id -> (root pid, project
//! path)` record. The embedding layer performs the OS work (allocating
//! the PTY, writing bytes, delivering signals, waiting) and consults
//! this registry before and after; a session entry leaves the registry
//! only through `finish_kill` / `kill_all_sessions`, after its root
//! process has been dealt with.

use vstd::prelude::*;

use crate::errors::PtyError;
use crate::kvmap::{assoc_map, distinct_keys, lemma_assoc_map_contains, lemma_assoc_map_index,
    lemma_assoc_map_len, lemma_assoc_map_push, lemma_assoc_map_remove};

verus! {

/// One active session: its registry id, the pid of the shell at the
/// root of its process tree, and the project it belongs to.
pub struct SessionEntry {
    pub id: u32,
    pub root_pid: u32,
    pub project_path: String,
}

/// A termination order for the embedding layer: signal `target_pid`
/// gracefully, wait up to `grace_ms` milliseconds, then kill forcefully
/// if the process is still alive, and reap it.
pub struct KillPlan {
    pub target_pid: u32,
    pub grace_ms: u32,
}

/// Validated dimensions for a PTY resize, ready to apply.
pub struct PtyResize {
    pub rows: u16,
    pub cols: u16,
}

/// The outcome of probing a requested working directory on disk.
/// `Resolved` carries the requested path, its canonical form and
/// whether it is a directory; `Failed` carries the OS error text.
pub enum CwdProbe {
    NotProvided,
    Resolved { dir: String, canonical: String, is_dir: bool },
    Failed { dir: String, error: String },
}

/// Rows and columns a resize request may carry.
pub open spec fn valid_dimensions(rows: u16, cols: u16) -> bool {
    1 <= rows <= 500 && 1 <= cols <= 500
}

/// The session key function: a record is keyed by its id.
pub open spec fn session_key() -> spec_fn(SessionEntry) -> u32 {
    |e: SessionEntry| e.id
}

/// The registry of active sessions.
pub struct ProcessManager {
    sessions: Vec<SessionEntry>,
    next_id: u32,
}

impl View for ProcessManager {
    type V = Map<u32, SessionEntry>;

    closed spec fn view(&self) -> Map<u32, SessionEntry> {
        assoc_map(self.sessions@, session_key())
    }
}

impl ProcessManager {
    /// Ids are pairwise distinct, below the allocator's watermark, and
    /// the registry never holds more entries than ids were handed out.
    pub closed spec fn wf(&self) -> bool {
        &&& distinct_keys(self.sessions@, session_key())
        &&& forall|i: int|
            0 <= i < self.sessions@.len() ==> (#[trigger] self.sessions@[i]).id < self.next_id
        &&& self.sessions@.len() <= self.next_id
    }

    /// How many ids this manager has allocated so far.
    pub closed spec fn allocated(&self) -> u32 {
        self.next_id
    }

    /// An empty registry.
    pub fn new() -> (r: ProcessManager)
        ensures
            r.wf(),
            r@ == Map::<u32, SessionEntry>::empty(),
            r.allocated() == 0,
    {
        ProcessManager { sessions: Vec::new(), next_id: 0 }
    }

    /// The index of the entry for `session_id`, if registered.
    fn find_index(&self, session_id: u32) -> (r: Option<usize>)
        requires
            self.wf(),
        ensures
            match r {
                Some(i) => i < self.sessions@.len() && self.sessions@[i as int].id == session_id
                    && self@.contains_key(session_id) && self@[session_id] == self.sessions@[
                    i as int],
                None => !self@.contains_key(session_id),
            },
    {
        let n = self.sessions.len();
        let mut i: usize = 0;
        while i < n
            invariant
                i <= n,
                n == self.sessions@.len(),
                self.wf(),
                forall|j: int| 0 <= j < i ==> (#[trigger] self.sessions@[j]).id != session_id,
            decreases n - i,
        {
            if self.sessions[i].id == session_id {
                proof {
                    lemma_assoc_map_index(self.sessions@, session_key(), i as int);
                }
                return Some(i);
            }
            i += 1;
        }
        proof {
            lemma_assoc_map_contains(self.sessions@, session_key(), session_id);
        }
        None
    }

    /// The spawn-time working-directory decision: a session may only be
    /// spawned in a directory that exists. Mirrors the probe outcome
    /// into either the canonical directory to spawn in (or none) or a
    /// descriptive spawn error, without touching the registry.
    pub fn resolve_spawn_dir(probe: CwdProbe) -> (r: Result<Option<String>, PtyError>)
        ensures
            match probe {
                CwdProbe::NotProvided => r == Ok::<Option<String>, PtyError>(None::<String>),
                CwdProbe::Resolved { dir, canonical, is_dir } => {
                    if is_dir {
                        r matches Ok(Some(c)) && c@ == canonical@
                    } else {
                        r matches Err(PtyError::SpawnFailed(m)) && m@ == "cwd '"@ + dir@
                            + "' is not a directory"@
                    }
                },
                CwdProbe::Failed { dir, error } => r matches Err(PtyError::SpawnFailed(m))
                    && m@ == "Invalid cwd '"@ + dir@ + "': "@ + error@,
            },
    {
        match probe {
            CwdProbe::NotProvided => Ok(None),
            CwdProbe::Resolved { dir, canonical, is_dir } => {
                if is_dir {
                    Ok(Some(canonical))
                } else {
                    let mut m = String::from_str("cwd '");
                    m.append(dir.as_str());
                    m.append("' is not a directory");
                    Err(PtyError::SpawnFailed(m))
                }
            },
            CwdProbe::Failed { dir, error } => {
                let mut m = String::from_str("Invalid cwd '");
                m.append(dir.as_str());
                m.append("': ");
                m.append(error.as_str());
                Err(PtyError::SpawnFailed(m))
            },
        }
    }

    /// Registers a freshly spawned shell under a new session id.
    /// The id is fresh: it names no currently registered session.
    pub fn register_session(&mut self, root_pid: u32, project_path: String) -> (id: u32)
        requires
            old(self).wf(),
            old(self).allocated() < u32::MAX,
        ensures
            final(self).wf(),
            !old(self)@.contains_key(id),
            final(self)@ == old(self)@.insert(id, (SessionEntry { id, root_pid, project_path })),
            final(self).allocated() == old(self).allocated() + 1,
    {
        let id = self.next_id;
        let ghost pre = self.sessions@;
        proof {
            lemma_assoc_map_contains(pre, session_key(), id);
        }
        let entry = SessionEntry { id, root_pid, project_path };
        self.sessions.push(entry);
        self.next_id = self.next_id + 1;
        proof {
            lemma_assoc_map_push(pre, session_key(), self.sessions@.last());
        }
        id
    }

    /// The root pid of a session, while it is registered.
    pub fn get_session_pid(&self, session_id: u32) -> (r: Option<u32>)
        requires
            self.wf(),
        ensures
            r == if self@.contains_key(session_id) {
                Some(self@[session_id].root_pid)
            } else {
                None::<u32>
            },
    {
        match self.find_index(session_id) {
            Some(i) => Some(self.sessions[i].root_pid),
            None => None,
        }
    }

    /// A read-only snapshot of all `(session id, root pid)` pairs.
    pub fn get_all_session_pids(&self) -> (r: Vec<(u32, u32)>)
        requires
            self.wf(),
        ensures
            r@.len() == self@.dom().len(),
            forall|i: int|
                0 <= i < r@.len() ==> self@.contains_key((#[trigger] r@[i]).0)
                    && self@[r@[i].0].root_pid == r@[i].1,
            forall|k: u32| self@.contains_key(k) ==> exists|i: int|
                0 <= i < r@.len() && (#[trigger] r@[i]).0 == k,
            forall|i: int, j: int| 0 <= i < j < r@.len() ==> (#[trigger] r@[i]).0 != (
            #[trigger] r@[j]).0,
    {
        let n = self.sessions.len();
        let mut r: Vec<(u32, u32)> = Vec::new();
        let mut i: usize = 0;
        while i < n
            invariant
                i <= n,
                n == self.sessions@.len(),
                self.wf(),
                r@.len() == i,
                forall|j: int|
                    0 <= j < i ==> (#[trigger] r@[j]) == (self.sessions@[j].id,
                    self.sessions@[j].root_pid),
            decreases n - i,
        {
            let e = &self.sessions[i];
            r.push((e.id, e.root_pid));
            i += 1;
        }
        proof {
            lemma_assoc_map_len(self.sessions@, session_key());
            assert forall|j: int| 0 <= j < r@.len() implies self@.contains_key(
                (#[trigger] r@[j]).0) && self@[r@[j].0].root_pid == r@[j].1 by {
                lemma_assoc_map_index(self.sessions@, session_key(), j);
            }
            assert forall|k: u32| self@.contains_key(k) implies exists|j: int|
                0 <= j < r@.len() && (#[trigger] r@[j]).0 == k by {
                lemma_assoc_map_contains(self.sessions@, session_key(), k);
                let j = choose|j: int|
                    0 <= j < self.sessions@.len() && session_key()(self.sessions@[j]) == k;
                assert(r@[j].0 == k);
            }
        }
        r
    }

    /// The forwarding decision for raw input bytes: they may go to the
    /// PTY exactly when the session is registered.
    pub fn write_stdin(&self, session_id: u32, _data: &str) -> (r: Result<(), PtyError>)
        requires
            self.wf(),
        ensures
            r is Ok <==> self@.contains_key(session_id),
            r is Err ==> r == Err::<(), PtyError>(PtyError::SessionNotFound(session_id)),
    {
        match self.find_index(session_id) {
            Some(_) => Ok(()),
            None => Err(PtyError::SessionNotFound(session_id)),
        }
    }

    /// The resize decision. Dimensions of zero, or above 500 rows or
    /// columns, are rejected before any OS interaction; valid
    /// dimensions for a registered session yield the resize to apply.
    pub fn resize_pty(&self, session_id: u32, rows: u16, cols: u16) -> (r: Result<
        PtyResize,
        PtyError,
    >)
        requires
            self.wf(),
        ensures
            r is Ok <==> valid_dimensions(rows, cols) && self@.contains_key(session_id),
            r is Ok ==> r->Ok_0.rows == rows && r->Ok_0.cols == cols,
            !valid_dimensions(rows, cols) ==> (r matches Err(PtyError::ResizeFailed(m))
                && m@ == "Invalid dimensions"@),
            valid_dimensions(rows, cols) && !self@.contains_key(session_id) ==> r == Err::<
                PtyResize,
                PtyError,
            >(PtyError::SessionNotFound(session_id)),
    {
        if rows == 0 || cols == 0 || rows > 500 || cols > 500 {
            return Err(PtyError::ResizeFailed(String::from_str("Invalid dimensions")));
        }
        match self.find_index(session_id) {
            Some(_) => Ok(PtyResize { rows, cols }),
            None => Err(PtyError::SessionNotFound(session_id)),
        }
    }

    /// The termination order for one session: signal the root, wait up
    /// to three seconds, then force-kill. An unknown session yields no
    /// order — killing it is a no-op that succeeds.
    pub fn kill_session(&self, session_id: u32) -> (r: Option<KillPlan>)
        requires
            self.wf(),
        ensures
            r is Some <==> self@.contains_key(session_id),
            r is Some ==> r->0.target_pid == self@[session_id].root_pid && r->0.grace_ms == 3000,
    {
        match self.find_index(session_id) {
            Some(i) => Some(KillPlan { target_pid: self.sessions[i].root_pid, grace_ms: 3000 }),
            None => None,
        }
    }

    /// Removes a session's entry once its root process is confirmed
    /// dead. Idempotent: removing an unknown session changes nothing.
    /// Immediately afterwards `get_session_pid` returns nothing.
    pub fn finish_kill(&mut self, session_id: u32)
        requires
            old(self).wf(),
        ensures
            final(self).wf(),
            final(self)@ == old(self)@.remove(session_id),
            !final(self)@.contains_key(session_id),
            final(self).allocated() == old(self).allocated(),
    {
        let ghost pre = self.sessions@;
        match self.find_index(session_id) {
            Some(i) => {
                self.sessions.remove(i);
                proof {
                    lemma_assoc_map_remove(pre, session_key(), i as int);
                    assert(distinct_keys(self.sessions@, session_key())) by {
                        assert(forall|a: int|
                            0 <= a < self.sessions@.len() ==> #[trigger] self.sessions@[a]
                                == pre.remove(i as int)[a]);
                    }
                    lemma_assoc_map_contains(self.sessions@, session_key(), session_id);
                    if exists|j: int|
                        0 <= j < self.sessions@.len() && session_key()(self.sessions@[j])
                            == session_id {
                        let j = choose|j: int|
                            0 <= j < self.sessions@.len() && session_key()(self.sessions@[j])
                                == session_id;
                        if j < i {
                            assert(session_key()(pre[j]) == session_id);
                        } else {
                            assert(session_key()(pre[j + 1]) == session_id);
                        }
                    }
                }
            },
            None => {
                proof {
                    assert(self@ =~= self@.remove(session_id));
                }
            },
        }
    }

    /// Termination orders for every active session, with the registry
    /// cleared in the same step: the count of orders equals the number
    /// of sessions that were active, every active root pid receives an
    /// order, and afterwards no session is registered.
    #[verifier::rlimit(60)]
    pub fn kill_all_sessions(&mut self) -> (r: (u32, Vec<KillPlan>))
        requires
            old(self).wf(),
        ensures
            final(self).wf(),
            final(self)@ == Map::<u32, SessionEntry>::empty(),
            r.0 as nat == old(self)@.dom().len(),
            r.1@.len() == old(self)@.dom().len(),
            forall|i: int|
                0 <= i < r.1@.len() ==> (#[trigger] r.1@[i]).grace_ms == 3000 && exists|k: u32|
                    old(self)@.contains_key(k) && old(self)@[k].root_pid == r.1@[i].target_pid,
            forall|k: u32| #[trigger]
                old(self)@.contains_key(k) ==> exists|i: int|
                    0 <= i < r.1@.len() && (#[trigger] r.1@[i]).target_pid == old(
                    self)@[k].root_pid,
    {
        let ghost pre = self.sessions@;
        let n = self.sessions.len();
        proof {
            lemma_assoc_map_len(pre, session_key());
        }
        let mut plans: Vec<KillPlan> = Vec::new();
        let mut i: usize = 0;
        while i < n
            invariant
                i <= n,
                n == self.sessions@.len(),
                self.sessions@ == pre,
                plans@.len() == i,
                forall|j: int|
                    0 <= j < i ==> (#[trigger] plans@[j]).target_pid == pre[j].root_pid
                        && plans@[j].grace_ms == 3000,
            decreases n - i,
        {
            plans.push(KillPlan { target_pid: self.sessions[i].root_pid, grace_ms: 3000 });
            i += 1;
        }
        self.sessions = Vec::new();
        let count = n as u32;
        proof {
            assert(n <= u32::MAX);
            assert(old(self)@ == assoc_map(pre, session_key()));
            assert(plans@.len() == pre.len());
            assert forall|j: int| 0 <= j < plans@.len() implies (#[trigger] plans@[j]).grace_ms
                == 3000 && exists|k: u32|
                assoc_map(pre, session_key()).contains_key(k) && assoc_map(pre, session_key())[
                k].root_pid == plans@[j].target_pid by {
                lemma_assoc_map_index(pre, session_key(), j);
                assert(assoc_map(pre, session_key()).contains_key(pre[j].id) && assoc_map(pre,
                    session_key())[pre[j].id].root_pid == plans@[j].target_pid);
            }
            assert forall|k: u32| #[trigger]
                old(self)@.contains_key(k) implies exists|j: int|
                0 <= j < plans@.len() && (#[trigger] plans@[j]).target_pid == old(
                self)@[k].root_pid by {
                lemma_assoc_map_contains(pre, session_key(), k);
                let j = choose|j: int| 0 <= j < pre.len() && session_key()(pre[j]) == k;
                lemma_assoc_map_index(pre, session_key(), j);
                assert(0 <= j < plans@.len() && plans@[j].target_pid == old(
                    self)@[k].root_pid);
            }
        }
        let r = (count, plans);
        proof {
            assert(r.1@ == plans@);
            assert forall|k: u32| #[trigger]
                old(self)@.contains_key(k) implies exists|i: int|
                0 <= i < r.1@.len() && (#[trigger] r.1@[i]).target_pid == old(
                self)@[k].root_pid by {
                let j = choose|j: int|
                    0 <= j < plans@.len() && (#[trigger] plans@[j]).target_pid == old(
                    self)@[k].root_pid;
                assert(r.1@[j] == plans@[j]);
            }
        }
        r
    }
}

/// The environment a spawned shell receives so that any descendant —
/// however deeply nested — can report status back to this instance:
/// the session id, the status listener's URL, and this instance's
/// identity, under their well-known variable names.
pub fn helper_environment(session_id: u32, status_url: &str, instance_id: &str) -> (r: Vec<
    (String, String),
>)
    ensures
        r@.len() == 3,
        r@[0].0@ == "MAESTRO_SESSION_ID"@ && r@[0].1@ == crate::hashing::decimal_of(
            session_id as nat,
        ),
        r@[1].0@ == "MAESTRO_STATUS_URL"@ && r@[1].1@ == status_url@,
        r@[2].0@ == "MAESTRO_INSTANCE_ID"@ && r@[2].1@ == instance_id@,
{
    let mut r: Vec<(String, String)> = Vec::new();
    r.push((
        String::from_str("MAESTRO_SESSION_ID"),
        crate::hashing::decimal_string(session_id as u64),
    ));
    r.push((String::from_str("MAESTRO_STATUS_URL"), status_url.to_owned()));
    r.push((String::from_str("MAESTRO_INSTANCE_ID"), instance_id.to_owned()));
    r
}

/// A registered session's pid lookup is untouched by changes to other
/// sessions: registering another id or removing another id leaves the
/// entry — and so `get_session_pid`'s answer — exactly as it was. A
/// session's pid is therefore visible from the moment it is registered
/// until its own kill completes, and gone immediately after.
pub proof fn lemma_other_sessions_do_not_hide_pid(
    m: Map<u32, SessionEntry>,
    id: u32,
    other: u32,
    e: SessionEntry,
)
    requires
        m.contains_key(id),
        other != id,
    ensures
        m.insert(other, e).contains_key(id),
        m.insert(other, e)[id] == m[id],
        m.remove(other).contains_key(id),
        m.remove(other)[id] == m[id],
{
}

} // verus!
