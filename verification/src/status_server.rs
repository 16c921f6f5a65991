//! Status routing: correlating out-of-band status reports to sessions.
//!
//! The embedding layer binds a loopback HTTP listener on the first free
//! port of a fixed range and feeds every decoded `POST /status` body to
//! `handle_status`; whatever that returns is emitted to the UI. The
//! routing state — this instance's identity and the session-to-project
//! map — and every accept/drop decision live here. A report for another
//! instance or an unregistered session yields no event, while the HTTP
//! response is a success either way, so a reporter that can never be
//! accepted does not retry forever.

use vstd::prelude::*;

use crate::hashing::{decimal_of, decimal_string, hex_of, is_hex_digit_char, lemma_hex_of_digits,
    lemma_hex_of_len, project_hash_spec, sha256, sha256_of};
use crate::kvmap::{assoc_map, distinct_keys, lemma_assoc_map_contains, lemma_assoc_map_index,
    lemma_assoc_map_len, lemma_assoc_map_push, lemma_assoc_map_remove};
use crate::strutil::str_eq;
use vstd::string::StringSliceAdditionalSpecFns;

verus! {

/// The first port the status listener tries.
pub const PORT_RANGE_START: u16 = 9900;

/// The last port the status listener tries.
pub const PORT_RANGE_END: u16 = 9999;

/// A status report as decoded from a `POST /status` body.
pub struct StatusRequest {
    pub session_id: u32,
    pub instance_id: String,
    pub state: String,
    pub message: String,
    pub needs_input_prompt: Option<String>,
    pub timestamp: String,
}

/// The event emitted to the UI for an accepted status report.
pub struct SessionStatusPayload {
    pub session_id: u32,
    pub project_path: String,
    pub status: String,
    pub message: String,
    pub needs_input_prompt: Option<String>,
}

/// The five wire states map to the five UI statuses; anything else is
/// `Unknown`.
pub open spec fn spec_map_state(s: Seq<char>) -> Seq<char> {
    if s == "idle"@ {
        "Idle"@
    } else if s == "working"@ {
        "Working"@
    } else if s == "needs_input"@ {
        "NeedsInput"@
    } else if s == "finished"@ {
        "Done"@
    } else if s == "error"@ {
        "Error"@
    } else {
        "Unknown"@
    }
}

/// Maps a wire state string to the UI status vocabulary.
pub fn map_state(state: &str) -> (r: String)
    ensures
        r@ == spec_map_state(state@),
{
    if str_eq(state, "idle") {
        String::from_str("Idle")
    } else if str_eq(state, "working") {
        String::from_str("Working")
    } else if str_eq(state, "needs_input") {
        String::from_str("NeedsInput")
    } else if str_eq(state, "finished") {
        String::from_str("Done")
    } else if str_eq(state, "error") {
        String::from_str("Error")
    } else {
        String::from_str("Unknown")
    }
}

/// Is `x` listed in `v`?
fn contains_port(v: &Vec<u16>, x: u16) -> (r: bool)
    ensures
        r == v@.contains(x),
{
    let n = v.len();
    let mut i: usize = 0;
    while i < n
        invariant
            i <= n,
            n == v@.len(),
            forall|j: int| 0 <= j < i ==> v@[j] != x,
        decreases n - i,
    {
        if v[i] == x {
            proof {
                assert(v@[i as int] == x);
            }
            return true;
        }
        i += 1;
    }
    proof {
        if v@.contains(x) {
            let j = choose|j: int| 0 <= j < v@.len() && v@[j] == x;
            assert(v@[j] != x);
        }
    }
    false
}

/// The port-selection decision: the lowest port of the fixed range that
/// the bind attempts so far have not found taken. The embedding layer
/// attempts an actual bind per candidate (bind-to-claim, not
/// check-then-bind) and records each failure in `taken` before asking
/// again; when the whole range is taken, status reporting is disabled
/// and the application continues without it.
pub fn scan_ports(taken: &Vec<u16>) -> (r: Option<u16>)
    ensures
        r matches Some(p) ==> PORT_RANGE_START <= p <= PORT_RANGE_END && !taken@.contains(p)
            && forall|q: u16| PORT_RANGE_START <= q < p ==> taken@.contains(q),
        r is None ==> forall|q: u16|
            PORT_RANGE_START <= q <= PORT_RANGE_END ==> taken@.contains(q),
{
    let mut p: u16 = PORT_RANGE_START;
    while p <= PORT_RANGE_END
        invariant
            PORT_RANGE_START <= p <= PORT_RANGE_END + 1,
            forall|q: u16| PORT_RANGE_START <= q < p ==> taken@.contains(q),
        decreases PORT_RANGE_END + 1 - p,
    {
        if !contains_port(taken, p) {
            return Some(p);
        }
        p += 1;
    }
    None
}

/// Two status listeners never hold the same port: once the first has
/// claimed `p1` (its bind succeeded, so every later observation lists
/// `p1` as taken), any port the second instance manages to claim is a
/// different one, and both lie in the fixed range. Port claims are
/// exclusive because claiming is the bind itself.
pub proof fn lemma_concurrent_servers_bind_distinct_ports(
    taken1: Seq<u16>,
    p1: u16,
    taken2: Seq<u16>,
    p2: u16,
)
    requires
        PORT_RANGE_START <= p1 <= PORT_RANGE_END,
        !taken1.contains(p1),
        taken2.contains(p1),
        PORT_RANGE_START <= p2 <= PORT_RANGE_END,
        !taken2.contains(p2),
    ensures
        p1 != p2,
        PORT_RANGE_START <= p1 <= PORT_RANGE_END,
        PORT_RANGE_START <= p2 <= PORT_RANGE_END,
{
}

/// The routing key function: an entry is keyed by its session id.
pub open spec fn project_key() -> spec_fn((u32, String)) -> u32 {
    |e: (u32, String)| e.0
}

/// The session-to-project view of a routing table.
pub open spec fn project_view(m: Map<u32, (u32, String)>) -> Map<u32, Seq<char>> {
    Map::new(|k: u32| m.contains_key(k), |k: u32| m[k].1@)
}

/// The status-routing half of the embedded status listener: this
/// instance's identity, the port it is bound to, and the
/// session-to-project map that status reports are resolved against.
pub struct StatusServer {
    port: u16,
    instance_id: String,
    session_projects: Vec<(u32, String)>,
}

impl View for StatusServer {
    type V = Map<u32, Seq<char>>;

    closed spec fn view(&self) -> Map<u32, Seq<char>> {
        project_view(assoc_map(self.session_projects@, project_key()))
    }
}

impl StatusServer {
    /// Session ids are pairwise distinct and the port is in range.
    pub closed spec fn wf(&self) -> bool {
        &&& distinct_keys(self.session_projects@, project_key())
        &&& PORT_RANGE_START <= self.port <= PORT_RANGE_END
    }

    /// The port this server is bound to.
    pub closed spec fn spec_port(&self) -> u16 {
        self.port
    }

    /// This running instance's identity.
    pub closed spec fn spec_instance_id(&self) -> Seq<char> {
        self.instance_id@
    }

    /// A server for a successfully bound port of the fixed range.
    pub fn new(port: u16, instance_id: String) -> (r: StatusServer)
        requires
            PORT_RANGE_START <= port <= PORT_RANGE_END,
        ensures
            r.wf(),
            r.spec_port() == port,
            r.spec_instance_id() == instance_id@,
            r@ == Map::<u32, Seq<char>>::empty(),
    {
        let r = StatusServer { port, instance_id, session_projects: Vec::new() };
        proof {
            assert(r@ =~= Map::<u32, Seq<char>>::empty());
        }
        r
    }

    /// The port the server is listening on.
    pub fn port(&self) -> (r: u16)
        ensures
            r == self.spec_port(),
    {
        self.port
    }

    /// The identity used to reject reports meant for another instance.
    pub fn instance_id(&self) -> (r: &str)
        ensures
            r@ == self.spec_instance_id(),
    {
        self.instance_id.as_str()
    }

    /// The URL helper processes report to.
    pub fn status_url(&self) -> (r: String)
        ensures
            r@ == "http://127.0.0.1:"@ + decimal_of(self.spec_port() as nat) + "/status"@,
    {
        let mut url = String::from_str("http://127.0.0.1:");
        let digits = decimal_string(self.port as u64);
        url.append(digits.as_str());
        url.append("/status");
        url
    }

    /// The index of the entry for `session_id`, if registered.
    fn find_index(&self, session_id: u32) -> (r: Option<usize>)
        requires
            self.wf(),
        ensures
            match r {
                Some(i) => i < self.session_projects@.len() && self.session_projects@[
                    i as int].0 == session_id && self@.contains_key(session_id)
                    && self@[session_id] == self.session_projects@[i as int].1@,
                None => !self@.contains_key(session_id),
            },
    {
        let n = self.session_projects.len();
        let mut i: usize = 0;
        while i < n
            invariant
                i <= n,
                n == self.session_projects@.len(),
                self.wf(),
                forall|j: int| 0 <= j < i ==> (#[trigger] self.session_projects@[j]).0
                    != session_id,
            decreases n - i,
        {
            if self.session_projects[i].0 == session_id {
                proof {
                    lemma_assoc_map_index(self.session_projects@, project_key(), i as int);
                }
                return Some(i);
            }
            i += 1;
        }
        proof {
            lemma_assoc_map_contains(self.session_projects@, project_key(), session_id);
        }
        None
    }

    /// Registers (or re-points) a session's project association.
    pub fn register_session(&mut self, session_id: u32, project_path: &str)
        requires
            old(self).wf(),
        ensures
            final(self).wf(),
            final(self)@ == old(self)@.insert(session_id, project_path@),
            final(self).spec_port() == old(self).spec_port(),
            final(self).spec_instance_id() == old(self).spec_instance_id(),
    {
        let ghost pre = self.session_projects@;
        match self.find_index(session_id) {
            Some(i) => {
                self.session_projects.remove(i);
                proof {
                    lemma_assoc_map_remove(pre, project_key(), i as int);
                    assert(distinct_keys(self.session_projects@, project_key())) by {
                        assert(forall|a: int|
                            0 <= a < self.session_projects@.len()
                                ==> #[trigger] self.session_projects@[a] == pre.remove(
                                i as int)[a]);
                    }
                }
            },
            None => {},
        }
        let ghost mid = self.session_projects@;
        proof {
            lemma_assoc_map_contains(mid, project_key(), session_id);
        }
        self.session_projects.push((session_id, project_path.to_owned()));
        proof {
            lemma_assoc_map_push(mid, project_key(), self.session_projects@.last());
            assert(self@ =~= old(self)@.insert(session_id, project_path@));
        }
    }

    /// Forgets a killed session, so its reports are dropped from then
    /// on. Unregistering an unknown session changes nothing.
    pub fn unregister_session(&mut self, session_id: u32)
        requires
            old(self).wf(),
        ensures
            final(self).wf(),
            final(self)@ == old(self)@.remove(session_id),
            final(self).spec_port() == old(self).spec_port(),
            final(self).spec_instance_id() == old(self).spec_instance_id(),
    {
        let ghost pre = self.session_projects@;
        match self.find_index(session_id) {
            Some(i) => {
                self.session_projects.remove(i);
                proof {
                    lemma_assoc_map_remove(pre, project_key(), i as int);
                    assert(distinct_keys(self.session_projects@, project_key())) by {
                        assert(forall|a: int|
                            0 <= a < self.session_projects@.len()
                                ==> #[trigger] self.session_projects@[a] == pre.remove(
                                i as int)[a]);
                    }
                    assert(self@ =~= old(self)@.remove(session_id));
                }
            },
            None => {
                proof {
                    assert(self@ =~= old(self)@.remove(session_id));
                }
            },
        }
    }

    /// The currently registered session ids.
    pub fn registered_sessions(&self) -> (r: Vec<u32>)
        requires
            self.wf(),
        ensures
            r@.len() == self@.dom().len(),
            forall|i: int| 0 <= i < r@.len() ==> self@.contains_key(#[trigger] r@[i]),
            forall|k: u32|
                self@.contains_key(k) ==> exists|i: int| 0 <= i < r@.len() && #[trigger] r@[i]
                    == k,
    {
        let n = self.session_projects.len();
        let mut r: Vec<u32> = Vec::new();
        let mut i: usize = 0;
        while i < n
            invariant
                i <= n,
                n == self.session_projects@.len(),
                self.wf(),
                r@.len() == i,
                forall|j: int| 0 <= j < i ==> #[trigger] r@[j] == self.session_projects@[j].0,
            decreases n - i,
        {
            r.push(self.session_projects[i].0);
            i += 1;
        }
        proof {
            lemma_assoc_map_len(self.session_projects@, project_key());
            assert(project_view(assoc_map(self.session_projects@, project_key())).dom()
                =~= assoc_map(self.session_projects@, project_key()).dom());
            assert forall|j: int| 0 <= j < r@.len() implies self@.contains_key(
                #[trigger] r@[j]) by {
                lemma_assoc_map_index(self.session_projects@, project_key(), j);
            }
            assert forall|k: u32| self@.contains_key(k) implies exists|j: int|
                0 <= j < r@.len() && #[trigger] r@[j] == k by {
                lemma_assoc_map_contains(self.session_projects@, project_key(), k);
                let j = choose|j: int|
                    0 <= j < self.session_projects@.len() && project_key()(
                        self.session_projects@[j]) == k;
                assert(r@[j] == k);
            }
        }
        r
    }

    /// The accept/drop decision for one status report, and the event to
    /// emit when accepted. A report carrying another instance's
    /// identity, or a session id with no registered project, produces
    /// no event; an accepted report produces exactly one, addressed to
    /// the session's project, with the wire state mapped to the UI
    /// vocabulary.
    pub fn handle_status(&self, req: &StatusRequest) -> (r: Option<SessionStatusPayload>)
        requires
            self.wf(),
        ensures
            r is Some <==> req.instance_id@ == self.spec_instance_id() && self@.contains_key(
                req.session_id,
            ),
            r matches Some(ev) ==> {
                &&& ev.session_id == req.session_id
                &&& ev.project_path@ == self@[req.session_id]
                &&& ev.status@ == spec_map_state(req.state@)
                &&& ev.message@ == req.message@
                &&& (ev.needs_input_prompt is Some <==> req.needs_input_prompt is Some)
                &&& (req.needs_input_prompt matches Some(p) ==> ev.needs_input_prompt->0@ == p@)
            },
    {
        if !str_eq(req.instance_id.as_str(), self.instance_id.as_str()) {
            return None;
        }
        let i = match self.find_index(req.session_id) {
            Some(i) => i,
            None => {
                return None;
            },
        };
        let project_path = self.session_projects[i].1.clone();
        let status = map_state(req.state.as_str());
        let message = req.message.clone();
        let needs_input_prompt = match &req.needs_input_prompt {
            Some(p) => Some(p.clone()),
            None => None,
        };
        Some(
            SessionStatusPayload {
                session_id: req.session_id,
                project_path,
                status,
                message,
                needs_input_prompt,
            },
        )
    }

    /// A short stable identifier for a project: the first twelve hex
    /// digits of the SHA-256 of the path. Deterministic, no side
    /// effects; collaborating subsystems use it to namespace
    /// per-project state.
    pub fn generate_project_hash(project_path: &str) -> (r: String)
        ensures
            r@ == project_hash_spec(project_path.spec_bytes()),
            r@.len() == 12,
            forall|i: int| 0 <= i < r@.len() ==> is_hex_digit_char(#[trigger] r@[i]),
    {
        let bytes = project_path.as_bytes();
        let digest = sha256(bytes);
        let mut prefix: Vec<u8> = Vec::new();
        let mut i: usize = 0;
        while i < 6
            invariant
                i <= 6,
                digest@.len() == 32,
                prefix@ == digest@.take(i as int),
            decreases 6 - i,
        {
            prefix.push(digest[i]);
            proof {
                assert(prefix@ =~= digest@.take(i + 1));
            }
            i += 1;
        }
        let r = crate::hashing::hex_encode(prefix.as_slice());
        proof {
            assert(prefix@ == sha256_of(project_path.spec_bytes()).take(6));
            lemma_hex_of_len(prefix@);
            lemma_hex_of_digits(prefix@);
        }
        r
    }
}

} // verus!
