//! The authoritative session metadata store.
//!
//! Maps a session id to its project path plus the lightweight metadata
//! the UI tracks (last reported status, assigned branch). Status values
//! overwrite freely — the state machine is driven by externally
//! reported events, not enforced here. The store also answers the
//! cross-project queries used when a project closes: which sessions
//! belong to it, and remove them all.

use vstd::prelude::*;

use crate::kvmap::{assoc_map, distinct_keys, lemma_assoc_map_contains, lemma_assoc_map_index,
    lemma_assoc_map_len, lemma_assoc_map_push, lemma_assoc_map_remove};
use crate::strutil::str_eq;

verus! {

/// Metadata of one session.
pub struct SessionMeta {
    pub id: u32,
    pub project_path: String,
    pub status: String,
    pub branch: Option<String>,
}

/// The metadata key function: a record is keyed by its id.
pub open spec fn meta_key() -> spec_fn(SessionMeta) -> u32 {
    |e: SessionMeta| e.id
}

/// The session metadata store.
pub struct SessionRegistry {
    sessions: Vec<SessionMeta>,
}

impl View for SessionRegistry {
    type V = Map<u32, SessionMeta>;

    closed spec fn view(&self) -> Map<u32, SessionMeta> {
        assoc_map(self.sessions@, meta_key())
    }
}

impl SessionRegistry {
    /// Ids are pairwise distinct.
    pub closed spec fn wf(&self) -> bool {
        distinct_keys(self.sessions@, meta_key())
    }

    /// An empty store.
    pub fn new() -> (r: SessionRegistry)
        ensures
            r.wf(),
            r@ == Map::<u32, SessionMeta>::empty(),
    {
        SessionRegistry { sessions: Vec::new() }
    }

    /// The index of the record for `session_id`, if present.
    fn find_index(&self, session_id: u32) -> (r: Option<usize>)
        requires
            self.wf(),
        ensures
            match r {
                Some(i) => i < self.sessions@.len() && self.sessions@[i as int].id == session_id
                    && self@.contains_key(session_id) && self@[session_id] == self.sessions@[
                    i as int],
                None => !self@.contains_key(session_id),
            },
    {
        let n = self.sessions.len();
        let mut i: usize = 0;
        while i < n
            invariant
                i <= n,
                n == self.sessions@.len(),
                self.wf(),
                forall|j: int| 0 <= j < i ==> (#[trigger] self.sessions@[j]).id != session_id,
            decreases n - i,
        {
            if self.sessions[i].id == session_id {
                proof {
                    lemma_assoc_map_index(self.sessions@, meta_key(), i as int);
                }
                return Some(i);
            }
            i += 1;
        }
        proof {
            lemma_assoc_map_contains(self.sessions@, meta_key(), session_id);
        }
        None
    }

    /// Removes the record for `session_id`, if any.
    fn remove_entry(&mut self, session_id: u32)
        requires
            old(self).wf(),
        ensures
            final(self).wf(),
            final(self)@ == old(self)@.remove(session_id),
    {
        let ghost pre = self.sessions@;
        match self.find_index(session_id) {
            Some(i) => {
                self.sessions.remove(i);
                proof {
                    lemma_assoc_map_remove(pre, meta_key(), i as int);
                    assert(distinct_keys(self.sessions@, meta_key())) by {
                        assert(forall|a: int|
                            0 <= a < self.sessions@.len() ==> #[trigger] self.sessions@[a]
                                == pre.remove(i as int)[a]);
                    }
                }
            },
            None => {
                proof {
                    assert(self@ =~= self@.remove(session_id));
                }
            },
        }
    }

    /// Creates (or replaces) the record of a session: freshly created
    /// sessions carry an empty status and no branch.
    pub fn create_session(&mut self, session_id: u32, project_path: &str)
        requires
            old(self).wf(),
        ensures
            final(self).wf(),
            final(self)@.contains_key(session_id),
            final(self)@[session_id].id == session_id,
            final(self)@[session_id].project_path@ == project_path@,
            final(self)@[session_id].status@ == Seq::<char>::empty(),
            final(self)@[session_id].branch is None,
            final(self)@ == old(self)@.insert(session_id, final(self)@[session_id]),
    {
        self.remove_entry(session_id);
        let ghost mid = self.sessions@;
        proof {
            lemma_assoc_map_contains(mid, meta_key(), session_id);
        }
        let meta = SessionMeta {
            id: session_id,
            project_path: project_path.to_owned(),
            status: String::new(),
            branch: None,
        };
        self.sessions.push(meta);
        proof {
            lemma_assoc_map_push(mid, meta_key(), self.sessions@.last());
            assert(self@ =~= old(self)@.insert(session_id, self@[session_id]));
        }
    }

    /// Overwrites a session's status; reports whether the session was
    /// known. Any status may follow any other.
    pub fn update_session_status(&mut self, session_id: u32, status: &str) -> (r: bool)
        requires
            old(self).wf(),
        ensures
            final(self).wf(),
            r == old(self)@.contains_key(session_id),
            !r ==> final(self)@ == old(self)@,
            r ==> {
                &&& final(self)@.contains_key(session_id)
                &&& final(self)@[session_id].id == session_id
                &&& final(self)@[session_id].status@ == status@
                &&& final(self)@[session_id].project_path == old(self)@[session_id].project_path
                &&& final(self)@[session_id].branch == old(self)@[session_id].branch
                &&& final(self)@ == old(self)@.insert(session_id, final(self)@[session_id])
            },
    {
        let ghost pre = self.sessions@;
        match self.find_index(session_id) {
            Some(i) => {
                let old_meta = &self.sessions[i];
                let meta = SessionMeta {
                    id: old_meta.id,
                    project_path: old_meta.project_path.clone(),
                    status: status.to_owned(),
                    branch: match &old_meta.branch {
                        Some(b) => Some(b.clone()),
                        None => None,
                    },
                };
                self.sessions.remove(i);
                proof {
                    lemma_assoc_map_remove(pre, meta_key(), i as int);
                    assert(distinct_keys(self.sessions@, meta_key())) by {
                        assert(forall|a: int|
                            0 <= a < self.sessions@.len() ==> #[trigger] self.sessions@[a]
                                == pre.remove(i as int)[a]);
                    }
                    lemma_assoc_map_contains(self.sessions@, meta_key(), session_id);
                }
                let ghost mid = self.sessions@;
                self.sessions.push(meta);
                proof {
                    lemma_assoc_map_push(mid, meta_key(), self.sessions@.last());
                    assert(self@ =~= old(self)@.insert(session_id, self@[session_id]));
                }
                true
            },
            None => false,
        }
    }

    /// Assigns (or clears) a session's branch; reports whether the
    /// session was known.
    pub fn assign_session_branch(&mut self, session_id: u32, branch: Option<&str>) -> (r: bool)
        requires
            old(self).wf(),
        ensures
            final(self).wf(),
            r == old(self)@.contains_key(session_id),
            !r ==> final(self)@ == old(self)@,
            r ==> {
                &&& final(self)@.contains_key(session_id)
                &&& final(self)@[session_id].id == session_id
                &&& (final(self)@[session_id].branch is Some <==> branch is Some)
                &&& (branch matches Some(b) ==> final(self)@[session_id].branch->0@ == b@)
                &&& final(self)@[session_id].project_path == old(self)@[session_id].project_path
                &&& final(self)@[session_id].status == old(self)@[session_id].status
                &&& final(self)@ == old(self)@.insert(session_id, final(self)@[session_id])
            },
    {
        let ghost pre = self.sessions@;
        match self.find_index(session_id) {
            Some(i) => {
                let old_meta = &self.sessions[i];
                let meta = SessionMeta {
                    id: old_meta.id,
                    project_path: old_meta.project_path.clone(),
                    status: old_meta.status.clone(),
                    branch: match branch {
                        Some(b) => Some(b.to_owned()),
                        None => None,
                    },
                };
                self.sessions.remove(i);
                proof {
                    lemma_assoc_map_remove(pre, meta_key(), i as int);
                    assert(distinct_keys(self.sessions@, meta_key())) by {
                        assert(forall|a: int|
                            0 <= a < self.sessions@.len() ==> #[trigger] self.sessions@[a]
                                == pre.remove(i as int)[a]);
                    }
                    lemma_assoc_map_contains(self.sessions@, meta_key(), session_id);
                }
                let ghost mid = self.sessions@;
                self.sessions.push(meta);
                proof {
                    lemma_assoc_map_push(mid, meta_key(), self.sessions@.last());
                    assert(self@ =~= old(self)@.insert(session_id, self@[session_id]));
                }
                true
            },
            None => false,
        }
    }

    /// Removes one session's record. Idempotent.
    pub fn remove_session(&mut self, session_id: u32)
        requires
            old(self).wf(),
        ensures
            final(self).wf(),
            final(self)@ == old(self)@.remove(session_id),
    {
        self.remove_entry(session_id);
    }

    /// Every session's metadata, one record per session id.
    pub fn all_sessions(&self) -> (r: Vec<SessionMeta>)
        requires
            self.wf(),
        ensures
            r@.len() == self@.dom().len(),
            forall|i: int|
                0 <= i < r@.len() ==> self@.contains_key((#[trigger] r@[i]).id)
                    && self@[r@[i].id] == r@[i],
            forall|k: u32|
                self@.contains_key(k) ==> exists|i: int|
                    0 <= i < r@.len() && (#[trigger] r@[i]).id == k,
    {
        let n = self.sessions.len();
        let mut r: Vec<SessionMeta> = Vec::new();
        let mut i: usize = 0;
        while i < n
            invariant
                i <= n,
                n == self.sessions@.len(),
                self.wf(),
                r@.len() == i,
                forall|j: int| 0 <= j < i ==> #[trigger] r@[j] == self.sessions@[j],
            decreases n - i,
        {
            let m = &self.sessions[i];
            r.push(
                SessionMeta {
                    id: m.id,
                    project_path: m.project_path.clone(),
                    status: m.status.clone(),
                    branch: match &m.branch {
                        Some(b) => Some(b.clone()),
                        None => None,
                    },
                },
            );
            i += 1;
        }
        proof {
            lemma_assoc_map_len(self.sessions@, meta_key());
            assert forall|j: int| 0 <= j < r@.len() implies self@.contains_key(
                (#[trigger] r@[j]).id) && self@[r@[j].id] == r@[j] by {
                lemma_assoc_map_index(self.sessions@, meta_key(), j);
            }
            assert forall|k: u32| self@.contains_key(k) implies exists|j: int|
                0 <= j < r@.len() && (#[trigger] r@[j]).id == k by {
                lemma_assoc_map_contains(self.sessions@, meta_key(), k);
                let j = choose|j: int|
                    0 <= j < self.sessions@.len() && meta_key()(self.sessions@[j]) == k;
                assert(r@[j].id == k);
            }
        }
        r
    }

    /// The ids of the sessions that belong to a project.
    pub fn get_sessions_for_project(&self, project_path: &str) -> (r: Vec<u32>)
        requires
            self.wf(),
        ensures
            forall|i: int|
                0 <= i < r@.len() ==> self@.contains_key(#[trigger] r@[i])
                    && self@[r@[i]].project_path@ == project_path@,
            forall|k: u32|
                self@.contains_key(k) && self@[k].project_path@ == project_path@ ==> exists|i: int|
                    0 <= i < r@.len() && #[trigger] r@[i] == k,
    {
        let n = self.sessions.len();
        let mut r: Vec<u32> = Vec::new();
        let mut i: usize = 0;
        while i < n
            invariant
                i <= n,
                n == self.sessions@.len(),
                self.wf(),
                forall|j: int|
                    0 <= j < r@.len() ==> self@.contains_key(#[trigger] r@[j])
                        && self@[r@[j]].project_path@ == project_path@,
                forall|jj: int|
                    0 <= jj < i && (#[trigger] self.sessions@[jj]).project_path@ == project_path@
                        ==> r@.contains(self.sessions@[jj].id),
            decreases n - i,
        {
            let ghost pre = r@;
            if str_eq(self.sessions[i].project_path.as_str(), project_path) {
                r.push(self.sessions[i].id);
                proof {
                    lemma_assoc_map_index(self.sessions@, meta_key(), i as int);
                    assert(r@[r@.len() - 1] == self.sessions@[i as int].id);
                    assert forall|jj: int|
                        0 <= jj < i + 1 && (#[trigger] self.sessions@[jj]).project_path@
                            == project_path@ implies r@.contains(self.sessions@[jj].id) by {
                        if jj < i {
                            let a = choose|a: int|
                                0 <= a < pre.len() && pre[a] == self.sessions@[jj].id;
                            assert(r@[a] == self.sessions@[jj].id);
                        } else {
                            assert(r@[r@.len() - 1] == self.sessions@[jj].id);
                        }
                    }
                }
            }
            i += 1;
        }
        proof {
            assert forall|k: u32|
                self@.contains_key(k) && self@[k].project_path@ == project_path@ implies exists|
                j: int,
            |
                0 <= j < r@.len() && #[trigger] r@[j] == k by {
                lemma_assoc_map_contains(self.sessions@, meta_key(), k);
                let j = choose|j: int|
                    0 <= j < self.sessions@.len() && meta_key()(self.sessions@[j]) == k;
                lemma_assoc_map_index(self.sessions@, meta_key(), j);
                assert(self.sessions@[j].project_path@ == project_path@);
                assert(r@.contains(self.sessions@[j].id));
                let a = choose|a: int| 0 <= a < r@.len() && r@[a] == self.sessions@[j].id;
                assert(r@[a] == k);
            }
        }
        r
    }

    /// Removes every session of a project; returns how many were
    /// removed. Afterwards no session of that project remains, and no
    /// other session is touched.
    pub fn remove_sessions_for_project(&mut self, project_path: &str) -> (count: usize)
        requires
            old(self).wf(),
        ensures
            final(self).wf(),
            forall|k: u32|
                final(self)@.contains_key(k) <==> old(self)@.contains_key(k) && old(
                self)@[k].project_path@ != project_path@,
            forall|k: u32|
                final(self)@.contains_key(k) ==> final(self)@[k] == old(self)@[k],
            count as nat == old(self)@.dom().len() - final(self)@.dom().len(),
    {
        let ghost pre = self.sessions@;
        let n = self.sessions.len();
        let mut kept: Vec<SessionMeta> = Vec::new();
        let ghost mut origin: Seq<int> = Seq::empty();
        let mut removed: usize = 0;
        let mut i: usize = 0;
        while i < n
            invariant
                i <= n,
                n == pre.len(),
                self.sessions@ == pre,
                self.wf(),
                kept@.len() + removed == i,
                origin.len() == kept@.len(),
                forall|j: int|
                    0 <= j < kept@.len() ==> 0 <= #[trigger] origin[j] < i && kept@[j]
                        == pre[origin[j]] && pre[origin[j]].project_path@ != project_path@,
                forall|jj: int|
                    0 <= jj < i && (#[trigger] pre[jj]).project_path@ != project_path@
                        ==> kept@.contains(pre[jj]),
                distinct_keys(kept@, meta_key()),
                forall|j: int, jj: int|
                    0 <= j < kept@.len() && i <= jj < pre.len() ==> (#[trigger] kept@[j]).id != (
                    #[trigger] pre[jj]).id,
            decreases n - i,
        {
            let ghost kpre = kept@;
            let m = &self.sessions[i];
            if str_eq(m.project_path.as_str(), project_path) {
                removed += 1;
            } else {
                kept.push(
                    SessionMeta {
                        id: m.id,
                        project_path: m.project_path.clone(),
                        status: m.status.clone(),
                        branch: match &m.branch {
                            Some(b) => Some(b.clone()),
                            None => None,
                        },
                    },
                );
                proof {
                    origin = origin.push(i as int);
                    assert(kept@[kept@.len() - 1] == pre[i as int]);
                    assert forall|jj: int|
                        0 <= jj < i + 1 && (#[trigger] pre[jj]).project_path@ != project_path@
                        implies kept@.contains(pre[jj]) by {
                        if jj < i {
                            let a = choose|a: int| 0 <= a < kpre.len() && kpre[a] == pre[jj];
                            assert(kept@[a] == pre[jj]);
                        } else {
                            assert(kept@[kept@.len() - 1] == pre[jj]);
                        }
                    }
                }
            }
            i += 1;
        }
        self.sessions = kept;
        proof {
            lemma_assoc_map_len(pre, meta_key());
            lemma_assoc_map_len(self.sessions@, meta_key());
            assert forall|k: u32| final(self)@.contains_key(k) implies old(self)@.contains_key(k)
                && old(self)@[k].project_path@ != project_path@ && final(self)@[k] == old(
                self)@[k] by {
                lemma_assoc_map_contains(self.sessions@, meta_key(), k);
                let j = choose|j: int|
                    0 <= j < self.sessions@.len() && meta_key()(self.sessions@[j]) == k;
                lemma_assoc_map_index(self.sessions@, meta_key(), j);
                let jj = origin[j];
                assert(self.sessions@[j] == pre[jj] && pre[jj].project_path@ != project_path@);
                lemma_assoc_map_index(pre, meta_key(), jj);
            }
            assert forall|k: u32|
                old(self)@.contains_key(k) && old(self)@[k].project_path@ != project_path@
                implies final(self)@.contains_key(k) by {
                lemma_assoc_map_contains(pre, meta_key(), k);
                let jj = choose|jj: int| 0 <= jj < pre.len() && meta_key()(pre[jj]) == k;
                lemma_assoc_map_index(pre, meta_key(), jj);
                assert(pre[jj].project_path@ != project_path@);
                assert(self.sessions@.contains(pre[jj]));
                let a = choose|a: int|
                    0 <= a < self.sessions@.len() && self.sessions@[a] == pre[jj];
                lemma_assoc_map_index(self.sessions@, meta_key(), a);
            }
            assert(kept@.len() + removed == pre.len());
        }
        removed
    }
}

} // verus!
