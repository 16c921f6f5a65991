//! Deterministic worktree path derivation and worktree bookkeeping.
//!
//! Worktrees live under a per-repository directory derived from a
//! SHA-256 hash of the canonical repository path (truncated to sixteen
//! hex characters) and a sanitised branch name, so different
//! repositories never collide and each branch gets its own
//! subdirectory. The git commands themselves run outside; the path
//! computation, the duplicate-checkout check and the orphan selection
//! are pure and live here.

use vstd::prelude::*;

use crate::hashing::{hex_of, sha256, sha256_of};
use crate::strutil::{chars_of, seq_starts_with, str_eq, str_starts_with, string_from_chars};
use vstd::string::StringSliceAdditionalSpecFns;

verus! {

/// One worktree as reported by git: its path, the branch checked out
/// in it (if any), and whether it is the repository's main worktree.
pub struct WorktreeInfo {
    pub path: String,
    pub branch: Option<String>,
    pub is_main_worktree: bool,
}

/// Filesystem-unsafe characters are replaced with hyphens.
pub open spec fn sanitize_char(c: char) -> char {
    if c == '/' || c == '\\' || c == ':' || c == '*' || c == '?' || c == '"' || c == '<' || c == '>'
        || c == '|' {
        '-'
    } else {
        c
    }
}

/// The sanitised form of a branch name: empty, `.` and `..` become
/// `unnamed-branch`; otherwise each unsafe character becomes a hyphen.
pub open spec fn sanitize_spec(s: Seq<char>) -> Seq<char> {
    if s.len() == 0 || s == "."@ || s == ".."@ {
        "unnamed-branch"@
    } else {
        s.map_values(|c: char| sanitize_char(c))
    }
}

fn sanitize_char_exec(c: char) -> (r: char)
    ensures
        r == sanitize_char(c),
{
    if c == '/' || c == '\\' || c == ':' || c == '*' || c == '?' || c == '"' || c == '<' || c == '>'
        || c == '|' {
        '-'
    } else {
        c
    }
}

/// Replaces filesystem-unsafe characters in a branch name with
/// hyphens; empty and dot-only names become `unnamed-branch`.
pub fn sanitize_branch(branch: &str) -> (r: String)
    ensures
        r@ == sanitize_spec(branch@),
{
    if branch.unicode_len() == 0 || str_eq(branch, ".") || str_eq(branch, "..") {
        return String::from_str("unnamed-branch");
    }
    let cs = chars_of(branch);
    let n = cs.len();
    let mut out: Vec<char> = Vec::new();
    let mut i: usize = 0;
    while i < n
        invariant
            i <= n,
            n == cs@.len(),
            cs@ == branch@,
            out@ == branch@.take(i as int).map_values(|c: char| sanitize_char(c)),
        decreases n - i,
    {
        out.push(sanitize_char_exec(cs[i]));
        proof {
            assert(out@ =~= branch@.take(i + 1).map_values(|c: char| sanitize_char(c)));
        }
        i += 1;
    }
    proof {
        assert(branch@.take(n as int) =~= branch@);
    }
    string_from_chars(&out)
}

/// The worktree base directory to use: the caller's override when one
/// is given, else the platform default the embedding layer resolved.
pub fn effective_base_dir(base_override: Option<String>, default_base: String) -> (r: String)
    ensures
        r@ == match base_override {
            Some(b) => b@,
            None => default_base@,
        },
{
    match base_override {
        Some(b) => b,
        None => default_base,
    }
}

/// A repository's short stable identifier: the first eight digest
/// bytes of the SHA-256 of its canonical path, hex encoded — sixteen
/// hex characters.
pub open spec fn repo_hash_spec(path_bytes: Seq<u8>) -> Seq<char> {
    hex_of(sha256_of(path_bytes).take(8))
}

/// The repository hash used to namespace its worktrees. The path must
/// already be canonical; resolving it is the embedding layer's job.
pub fn repo_hash(repo_path: &str) -> (r: String)
    ensures
        r@ == repo_hash_spec(repo_path.spec_bytes()),
        r@.len() == 16,
{
    let bytes = repo_path.as_bytes();
    let digest = sha256(bytes);
    let mut prefix: Vec<u8> = Vec::new();
    let mut i: usize = 0;
    while i < 8
        invariant
            i <= 8,
            digest@.len() == 32,
            prefix@ == digest@.take(i as int),
        decreases 8 - i,
    {
        prefix.push(digest[i]);
        proof {
            assert(prefix@ =~= digest@.take(i + 1));
        }
        i += 1;
    }
    let r = crate::hashing::hex_encode(prefix.as_slice());
    proof {
        assert(prefix@ == sha256_of(repo_path.spec_bytes()).take(8));
        crate::hashing::lemma_hex_of_len(prefix@);
    }
    r
}

/// `path` lies under directory `base` (which carries no trailing
/// slash): `base` is a whole-component prefix of `path`.
pub open spec fn is_under(path: Seq<char>, base: Seq<char>) -> bool {
    seq_starts_with(path, base) && (path.len() == base.len() || path[base.len() as int] == '/')
}

/// `w` would conflict with checking `branch` out again: it is a
/// non-main worktree that already has that branch checked out.
pub open spec fn conflicts_with(w: WorktreeInfo, branch: Seq<char>) -> bool {
    &&& !w.is_main_worktree
    &&& w.branch is Some
    &&& w.branch->0@ == branch
}

/// A copy of a worktree record.
fn clone_info(w: &WorktreeInfo) -> (r: WorktreeInfo)
    ensures
        r == *w,
{
    WorktreeInfo {
        path: w.path.clone(),
        branch: match &w.branch {
            Some(b) => Some(b.clone()),
            None => None,
        },
        is_main_worktree: w.is_main_worktree,
    }
}

/// Manages worktrees under a deterministic, repository-specific
/// directory. Stateless: every path it computes is a pure function of
/// the repository path and branch name.
pub struct WorktreeManager;

impl WorktreeManager {
    /// A new stateless manager.
    pub fn new() -> (r: WorktreeManager)
        ensures
            true,
    {
        WorktreeManager
    }

    /// The worktree path for a repository and branch under the given
    /// base directory: `base/<repo hash>/<sanitised branch>`.
    pub fn worktree_path_with_base(&self, repo_path: &str, branch: &str, base_dir: &str) -> (r:
        String)
        ensures
            r@ == base_dir@ + "/"@ + repo_hash_spec(repo_path.spec_bytes()) + "/"@ + sanitize_spec(
                branch@,
            ),
    {
        let mut r = base_dir.to_owned();
        r.append("/");
        let hash = repo_hash(repo_path);
        r.append(hash.as_str());
        r.append("/");
        let sanitized = sanitize_branch(branch);
        r.append(sanitized.as_str());
        r
    }

    /// The worktree, if any, that blocks creating one for `branch`: a
    /// non-main worktree that already has the branch checked out. The
    /// main worktree is skipped — the session flow parks it on a
    /// fallback branch separately.
    pub fn find_branch_conflict(&self, worktrees: &Vec<WorktreeInfo>, branch: &str) -> (r: Option<
        usize,
    >)
        ensures
            r matches Some(i) ==> i < worktrees@.len() && conflicts_with(
                worktrees@[i as int],
                branch@,
            ),
            r is None ==> forall|i: int|
                0 <= i < worktrees@.len() ==> !conflicts_with(#[trigger] worktrees@[i], branch@),
    {
        let n = worktrees.len();
        let mut i: usize = 0;
        while i < n
            invariant
                i <= n,
                n == worktrees@.len(),
                forall|j: int| 0 <= j < i ==> !conflicts_with(#[trigger] worktrees@[j], branch@),
            decreases n - i,
        {
            let w = &worktrees[i];
            if !w.is_main_worktree {
                match &w.branch {
                    Some(b) => {
                        if str_eq(b.as_str(), branch) {
                            return Some(i);
                        }
                    },
                    None => {},
                }
            }
            i += 1;
        }
        None
    }

    /// The managed worktrees: those whose path lies under the managed
    /// base directory, in order. The main worktree and manually
    /// created worktrees elsewhere are filtered out.
    pub fn list_managed_with_base(&self, worktrees: &Vec<WorktreeInfo>, base_dir: &str) -> (r: Vec<
        WorktreeInfo,
    >)
        ensures
            r@ == worktrees@.filter(|w: WorktreeInfo| is_under(w.path@, base_dir@)),
    {
        let n = worktrees.len();
        let mut r: Vec<WorktreeInfo> = Vec::new();
        let mut i: usize = 0;
        proof {
            reveal(Seq::filter);
            assert(worktrees@.take(0).filter(|w: WorktreeInfo| is_under(w.path@, base_dir@))
                =~= Seq::<WorktreeInfo>::empty());
        }
        while i < n
            invariant
                i <= n,
                n == worktrees@.len(),
                r@ == worktrees@.take(i as int).filter(
                    |w: WorktreeInfo| is_under(w.path@, base_dir@),
                ),
            decreases n - i,
        {
            let ghost rpre = r@;
            let w = &worktrees[i];
            if is_under_exec(w.path.as_str(), base_dir) {
                r.push(clone_info(w));
            }
            proof {
                reveal(Seq::filter);
                let f = |w: WorktreeInfo| is_under(w.path@, base_dir@);
                let step = worktrees@.take(i + 1);
                assert(step.drop_last() =~= worktrees@.take(i as int));
                assert(step.last() == worktrees@[i as int]);
                if f(worktrees@[i as int]) {
                    assert(r@ =~= rpre.push(worktrees@[i as int]));
                } else {
                    assert(r@ =~= rpre);
                }
            }
            i += 1;
        }
        proof {
            assert(worktrees@.take(n as int) =~= worktrees@);
        }
        r
    }

    /// The orphaned entries of the managed directory: those that no
    /// longer appear in git's worktree list. These are the directories
    /// the prune flow deletes.
    pub fn orphaned_entries(&self, entries: &Vec<String>, active: &Vec<String>) -> (r: Vec<String>)
        ensures
            r@.map_values(|s: String| s@) == entries@.map_values(|s: String| s@).filter(
                (|p: Seq<char>|
                    !active@.map_values(|s: String| s@).contains(p)),
            ),
    {
        let n = entries.len();
        let mut r: Vec<String> = Vec::new();
        let mut i: usize = 0;
        proof {
            reveal(Seq::filter);
            assert(entries@.take(0).map_values(|s: String| s@).filter(
                (|p: Seq<char>| !active@.map_values(|s: String| s@).contains(p)))
                =~= Seq::<Seq<char>>::empty());
            assert(r@.map_values(|s: String| s@) =~= Seq::<Seq<char>>::empty());
        }
        while i < n
            invariant
                i <= n,
                n == entries@.len(),
                r@.map_values(|s: String| s@) == entries@.take(i as int).map_values(
                    |s: String| s@,
                ).filter((|p: Seq<char>| !active@.map_values(|s: String| s@).contains(p))),
            decreases n - i,
        {
            let ghost rpre = r@;
            if !contains_string(active, entries[i].as_str()) {
                r.push(entries[i].clone());
            }
            proof {
                reveal(Seq::filter);
                let f = |p: Seq<char>| !active@.map_values(|s: String| s@).contains(p);
                let m = |s: String| s@;
                let prefix = entries@.take(i as int).map_values(m);
                let step = entries@.take(i + 1).map_values(m);
                assert(step =~= prefix.push(entries@[i as int]@));
                assert(step.drop_last() =~= prefix);
                assert(step.last() == entries@[i as int]@);
                if f(entries@[i as int]@) {
                    assert(r@.map_values(m) =~= rpre.map_values(m).push(entries@[i as int]@));
                } else {
                    assert(r@.map_values(m) =~= rpre.map_values(m));
                }
            }
            i += 1;
        }
        proof {
            assert(entries@.take(n as int) =~= entries@);
        }
        r
    }
}

/// Does `path` lie under directory `base`?
fn is_under_exec(path: &str, base: &str) -> (r: bool)
    ensures
        r == is_under(path@, base@),
{
    let n = path.unicode_len();
    let m = base.unicode_len();
    if !crate::strutil::str_starts_with(path, base) {
        return false;
    }
    n == m || path.get_char(m) == '/'
}

/// Is `x` among the listed strings?
fn contains_string(v: &Vec<String>, x: &str) -> (r: bool)
    ensures
        r == v@.map_values(|s: String| s@).contains(x@),
{
    let n = v.len();
    let mut i: usize = 0;
    while i < n
        invariant
            i <= n,
            n == v@.len(),
            forall|j: int| 0 <= j < i ==> (#[trigger] v@[j])@ != x@,
        decreases n - i,
    {
        if str_eq(v[i].as_str(), x) {
            proof {
                assert(v@.map_values(|s: String| s@)[i as int] == x@);
            }
            return true;
        }
        i += 1;
    }
    proof {
        let m = |s: String| s@;
        if v@.map_values(m).contains(x@) {
            let j = choose|j: int| 0 <= j < v@.map_values(m).len() && v@.map_values(m)[j] == x@;
            assert(v@[j]@ != x@);
        }
    }
    false
}

} // verus!
