//! Persistent file-access bookmarks.
//!
//! Keeps the registry of bookmarked paths (persisted across restarts by
//! the embedding layer) and classifies which paths live on external or
//! network volumes and therefore need a bookmark at all. The
//! platform-specific work of minting and resolving the underlying
//! security-scoped handles happens outside; this module owns the
//! bookkeeping: which paths are bookmarked, and which are currently
//! being accessed.

use vstd::prelude::*;

use crate::kvmap::{assoc_map, distinct_keys, lemma_assoc_map_contains, lemma_assoc_map_index,
    lemma_assoc_map_len, lemma_assoc_map_push, lemma_assoc_map_remove};
use crate::strutil::{seq_contains, seq_starts_with, str_contains, str_eq, str_starts_with,
    substr_eq};

verus! {

/// One bookmark: the path it covers, the platform's opaque bookmark
/// blob (base64, minted outside), whether the path is on an external or
/// network volume, and when it was last accessed (unix seconds).
pub struct BookmarkEntry {
    pub path: String,
    pub bookmark_data: String,
    pub is_external: bool,
    pub last_accessed: u64,
}

/// The index of the first character at or after `i` that is not `'/'`.
pub open spec fn skip_slashes(s: Seq<char>, i: int) -> int
    decreases s.len() - i,
{
    if i >= s.len() {
        i
    } else if s[i] == '/' {
        skip_slashes(s, i + 1)
    } else {
        i
    }
}

/// The index of the first `'/'` at or after `i` (or the end).
pub open spec fn seg_end(s: Seq<char>, i: int) -> int
    decreases s.len() - i,
{
    if i >= s.len() {
        i
    } else if s[i] == '/' {
        i
    } else {
        seg_end(s, i + 1)
    }
}

/// The name of the volume a path under `/Volumes` points into: the
/// first path segment after the `/Volumes` prefix.
pub open spec fn volume_name(s: Seq<char>) -> Seq<char> {
    let a = skip_slashes(s, 8);
    s.subrange(a, seg_end(s, a))
}

/// The path has `/Volumes` as its first component.
pub open spec fn has_volumes_prefix(s: Seq<char>) -> bool {
    seq_starts_with(s, "/Volumes"@) && (s.len() == 8 || s[8] == '/')
}

/// The path points at a network location: a network mount point, or a
/// remote URL scheme somewhere in the path.
pub open spec fn is_network_path(s: Seq<char>) -> bool {
    ||| seq_starts_with(s, "/net/"@)
    ||| s == "/net"@
    ||| seq_starts_with(s, "/Network/"@)
    ||| s == "/Network"@
    ||| seq_contains(s, "smb://"@)
    ||| seq_contains(s, "nfs://"@)
    ||| seq_contains(s, "afp://"@)
}

/// A path needs a bookmark when it is on an external drive (a named
/// volume under `/Volumes`, except the boot volume's names) or on a
/// network location. A bare `/Volumes` with no volume name falls
/// through to the network checks.
pub open spec fn is_external_spec(s: Seq<char>) -> bool {
    if has_volumes_prefix(s) && volume_name(s).len() > 0 {
        !(volume_name(s) == "Macintosh HD"@ || volume_name(s) == "Macintosh HD - Data"@
            || volume_name(s) == "System"@)
    } else {
        is_network_path(s)
    }
}

/// The bookmark key function: an entry is keyed by its path.
pub open spec fn bookmark_key() -> spec_fn(BookmarkEntry) -> Seq<char> {
    |e: BookmarkEntry| e.path@
}

/// A copy of an entry.
fn clone_entry(e: &BookmarkEntry) -> (r: BookmarkEntry)
    ensures
        r == *e,
{
    BookmarkEntry {
        path: e.path.clone(),
        bookmark_data: e.bookmark_data.clone(),
        is_external: e.is_external,
        last_accessed: e.last_accessed,
    }
}

/// Folding a batch of entries into a bookmark map, in order; later
/// entries for the same path shadow earlier ones.
pub open spec fn store_fold(
    m: Map<Seq<char>, BookmarkEntry>,
    entries: Seq<BookmarkEntry>,
) -> Map<Seq<char>, BookmarkEntry>
    decreases entries.len(),
{
    if entries.len() == 0 {
        m
    } else {
        store_fold(m, entries.drop_last()).insert(entries.last().path@, entries.last())
    }
}

/// The registry of bookmarks and of paths with access currently open.
pub struct BookmarkManager {
    bookmarks: Vec<BookmarkEntry>,
    active_access: Vec<String>,
}

impl View for BookmarkManager {
    type V = Map<Seq<char>, BookmarkEntry>;

    closed spec fn view(&self) -> Map<Seq<char>, BookmarkEntry> {
        assoc_map(self.bookmarks@, bookmark_key())
    }
}

impl BookmarkManager {
    /// Paths are pairwise distinct.
    pub closed spec fn wf(&self) -> bool {
        distinct_keys(self.bookmarks@, bookmark_key())
    }

    /// The paths whose access is currently open, in opening order.
    pub closed spec fn active(&self) -> Seq<Seq<char>> {
        self.active_access@.map_values(|s: String| s@)
    }

    /// An empty registry with no open access.
    pub fn new() -> (r: BookmarkManager)
        ensures
            r.wf(),
            r@ == Map::<Seq<char>, BookmarkEntry>::empty(),
            r.active() == Seq::<Seq<char>>::empty(),
    {
        let r = BookmarkManager { bookmarks: Vec::new(), active_access: Vec::new() };
        proof {
            assert(r.active() =~= Seq::<Seq<char>>::empty());
        }
        r
    }

    /// Whether a path is on an external or network volume: such paths
    /// need a bookmark for access to survive a restart. The boot
    /// volume's own names under `/Volumes` do not count as external.
    pub fn is_external_or_network(path: &str) -> (r: bool)
        ensures
            r == is_external_spec(path@),
    {
        let n = path.unicode_len();
        proof {
            reveal_strlit("/Volumes");
        }
        if str_starts_with(path, "/Volumes") && (n == 8 || path.get_char(8) == '/') {
            let mut a: usize = 8;
            while a < n && path.get_char(a) == '/'
                invariant
                    8 <= a <= n,
                    n == path@.len(),
                    skip_slashes(path@, 8) == skip_slashes(path@, a as int),
                decreases n - a,
            {
                a += 1;
            }
            proof {
                assert(skip_slashes(path@, a as int) == a as int);
            }
            let mut e: usize = a;
            while e < n && path.get_char(e) != '/'
                invariant
                    a <= e <= n,
                    n == path@.len(),
                    seg_end(path@, a as int) == seg_end(path@, e as int),
                decreases n - e,
            {
                e += 1;
            }
            proof {
                assert(seg_end(path@, e as int) == e as int);
                assert(volume_name(path@) == path@.subrange(a as int, e as int));
            }
            if e > a {
                let boot = substr_eq(path, a, e, "Macintosh HD") || substr_eq(
                    path,
                    a,
                    e,
                    "Macintosh HD - Data",
                ) || substr_eq(path, a, e, "System");
                return !boot;
            }
        }
        str_starts_with(path, "/net/") || str_eq(path, "/net") || str_starts_with(
            path,
            "/Network/",
        ) || str_eq(path, "/Network") || str_contains(path, "smb://") || str_contains(
            path,
            "nfs://",
        ) || str_contains(path, "afp://")
    }

    /// The index of the entry for `path`, if bookmarked.
    fn find_index(&self, path: &str) -> (r: Option<usize>)
        requires
            self.wf(),
        ensures
            match r {
                Some(i) => i < self.bookmarks@.len() && self.bookmarks@[i as int].path@ == path@
                    && self@.contains_key(path@) && self@[path@] == self.bookmarks@[i as int],
                None => !self@.contains_key(path@),
            },
    {
        let n = self.bookmarks.len();
        let mut i: usize = 0;
        while i < n
            invariant
                i <= n,
                n == self.bookmarks@.len(),
                self.wf(),
                forall|j: int| 0 <= j < i ==> (#[trigger] self.bookmarks@[j]).path@ != path@,
            decreases n - i,
        {
            if str_eq(self.bookmarks[i].path.as_str(), path) {
                proof {
                    lemma_assoc_map_index(self.bookmarks@, bookmark_key(), i as int);
                }
                return Some(i);
            }
            i += 1;
        }
        proof {
            lemma_assoc_map_contains(self.bookmarks@, bookmark_key(), path@);
        }
        None
    }

    /// Inserts an entry, replacing any entry for the same path.
    fn insert_entry(&mut self, entry: BookmarkEntry)
        requires
            old(self).wf(),
        ensures
            final(self).wf(),
            final(self)@ == old(self)@.insert(entry.path@, entry),
            final(self).active() == old(self).active(),
    {
        let ghost pre = self.bookmarks@;
        match self.find_index(entry.path.as_str()) {
            Some(i) => {
                self.bookmarks.remove(i);
                proof {
                    lemma_assoc_map_remove(pre, bookmark_key(), i as int);
                    assert(distinct_keys(self.bookmarks@, bookmark_key())) by {
                        assert(forall|a: int|
                            0 <= a < self.bookmarks@.len() ==> #[trigger] self.bookmarks@[a]
                                == pre.remove(i as int)[a]);
                    }
                }
            },
            None => {},
        }
        let ghost mid = self.bookmarks@;
        proof {
            lemma_assoc_map_contains(mid, bookmark_key(), entry.path@);
        }
        self.bookmarks.push(entry);
        proof {
            lemma_assoc_map_push(mid, bookmark_key(), self.bookmarks@.last());
            assert(self@ =~= old(self)@.insert(self.bookmarks@.last().path@,
                self.bookmarks@.last()));
        }
    }

    /// Loads a persisted batch of bookmarks, in order; an entry for an
    /// already-present path replaces it.
    pub fn load_from_store(&mut self, entries: Vec<BookmarkEntry>)
        requires
            old(self).wf(),
        ensures
            final(self).wf(),
            final(self)@ == store_fold(old(self)@, entries@),
            final(self).active() == old(self).active(),
    {
        let n = entries.len();
        let mut i: usize = 0;
        proof {
            assert(entries@.take(0) =~= Seq::<BookmarkEntry>::empty());
    }
        while i < n
            invariant
                i <= n,
                n == entries@.len(),
                self.wf(),
                self@ == store_fold(old(self)@, entries@.take(i as int)),
                self.active() == old(self).active(),
            decreases n - i,
        {
            let e = clone_entry(&entries[i]);
            self.insert_entry(e);
            proof {
                assert(entries@.take(i + 1).drop_last() =~= entries@.take(i as int));
                assert(entries@.take(i + 1).last() == entries@[i as int]);
            }
            i += 1;
        }
        proof {
            assert(entries@.take(n as int) =~= entries@);
        }
    }

    /// All bookmarks, for persistence: one entry per bookmarked path.
    pub fn get_all_bookmarks(&self) -> (r: Vec<BookmarkEntry>)
        requires
            self.wf(),
        ensures
            r@.len() == self@.dom().len(),
            forall|i: int|
                0 <= i < r@.len() ==> self@.contains_key((#[trigger] r@[i]).path@)
                    && self@[r@[i].path@] == r@[i],
            forall|k: Seq<char>|
                self@.contains_key(k) ==> exists|i: int|
                    0 <= i < r@.len() && (#[trigger] r@[i]).path@ == k,
    {
        let n = self.bookmarks.len();
        let mut r: Vec<BookmarkEntry> = Vec::new();
        let mut i: usize = 0;
        while i < n
            invariant
                i <= n,
                n == self.bookmarks@.len(),
                self.wf(),
                r@.len() == i,
                forall|j: int| 0 <= j < i ==> #[trigger] r@[j] == self.bookmarks@[j],
            decreases n - i,
        {
            r.push(clone_entry(&self.bookmarks[i]));
            i += 1;
        }
        proof {
            lemma_assoc_map_len(self.bookmarks@, bookmark_key());
            assert forall|j: int| 0 <= j < r@.len() implies self@.contains_key(
                (#[trigger] r@[j]).path@) && self@[r@[j].path@] == r@[j] by {
                lemma_assoc_map_index(self.bookmarks@, bookmark_key(), j);
            }
            assert forall|k: Seq<char>| self@.contains_key(k) implies exists|j: int|
                0 <= j < r@.len() && (#[trigger] r@[j]).path@ == k by {
                lemma_assoc_map_contains(self.bookmarks@, bookmark_key(), k);
                let j = choose|j: int|
                    0 <= j < self.bookmarks@.len() && bookmark_key()(self.bookmarks@[j]) == k;
                assert(r@[j].path@ == k);
            }
        }
        r
    }

    /// Is there a bookmark for this path?
    pub fn has_bookmark(&self, path: &str) -> (r: bool)
        requires
            self.wf(),
        ensures
            r == self@.contains_key(path@),
    {
        match self.find_index(path) {
            Some(_) => true,
            None => false,
        }
    }

    /// The bookmark for a path, if any.
    pub fn get_bookmark(&self, path: &str) -> (r: Option<BookmarkEntry>)
        requires
            self.wf(),
        ensures
            r is Some <==> self@.contains_key(path@),
            r matches Some(e) ==> e == self@[path@],
    {
        match self.find_index(path) {
            Some(i) => Some(clone_entry(&self.bookmarks[i])),
            None => None,
        }
    }

    /// Removes a path's bookmark; returns it if there was one.
    pub fn remove_bookmark(&mut self, path: &str) -> (r: Option<BookmarkEntry>)
        requires
            old(self).wf(),
        ensures
            final(self).wf(),
            final(self)@ == old(self)@.remove(path@),
            final(self).active() == old(self).active(),
            r is Some <==> old(self)@.contains_key(path@),
            r matches Some(e) ==> e == old(self)@[path@],
    {
        let ghost pre = self.bookmarks@;
        match self.find_index(path) {
            Some(i) => {
                let e = clone_entry(&self.bookmarks[i]);
                self.bookmarks.remove(i);
                proof {
                    lemma_assoc_map_remove(pre, bookmark_key(), i as int);
                    assert(distinct_keys(self.bookmarks@, bookmark_key())) by {
                        assert(forall|a: int|
                            0 <= a < self.bookmarks@.len() ==> #[trigger] self.bookmarks@[a]
                                == pre.remove(i as int)[a]);
                    }
                }
                Some(e)
            },
            None => {
                proof {
                    assert(self@ =~= self@.remove(path@));
                }
                None
            },
        }
    }

    /// Records a bookmark minted for a (canonical) path: the entry
    /// carries the platform's bookmark blob, the path's external-or-
    /// network classification, and the current time as its last access.
    pub fn create_bookmark(&mut self, path: &str, bookmark_data: String, now: u64) -> (r:
        BookmarkEntry)
        requires
            old(self).wf(),
        ensures
            final(self).wf(),
            r.path@ == path@,
            r.bookmark_data == bookmark_data,
            r.is_external == is_external_spec(path@),
            r.last_accessed == now,
            final(self)@ == old(self)@.insert(path@, r),
            final(self).active() == old(self).active(),
    {
        let entry = BookmarkEntry {
            path: path.to_owned(),
            bookmark_data,
            is_external: Self::is_external_or_network(path),
            last_accessed: now,
        };
        let r = clone_entry(&entry);
        self.insert_entry(entry);
        r
    }

    /// Opens access through a bookmark: the path joins the set of
    /// actively accessed paths, and is returned for the caller to use.
    pub fn start_access(&mut self, entry: &BookmarkEntry) -> (r: String)
        requires
            old(self).wf(),
        ensures
            final(self).wf(),
            r@ == entry.path@,
            final(self)@ == old(self)@,
            final(self).active() == old(self).active().push(entry.path@),
    {
        self.active_access.push(entry.path.clone());
        proof {
            assert(self.active() =~= old(self).active().push(entry.path@));
        }
        entry.path.clone()
    }

    /// Closes access for a path: every record of it leaves the active
    /// set; other paths keep their order.
    pub fn stop_access(&mut self, path: &str)
        requires
            old(self).wf(),
        ensures
            final(self).wf(),
            final(self)@ == old(self)@,
            final(self).active() == old(self).active().filter(|p: Seq<char>| p != path@),
    {
        let n = self.active_access.len();
        let ghost pre = self.active_access@;
        let mut kept: Vec<String> = Vec::new();
        let mut i: usize = 0;
        proof {
            reveal(Seq::filter);
            assert(pre.take(0).map_values(|s: String| s@).filter(|p: Seq<char>| p != path@)
                =~= Seq::<Seq<char>>::empty());
            assert(kept@.map_values(|s: String| s@) =~= Seq::<Seq<char>>::empty());
        }
        while i < n
            invariant
                i <= n,
                n == pre.len(),
                self.active_access@ == pre,
                kept@.map_values(|s: String| s@) == pre.take(i as int).map_values(
                    |s: String| s@,
                ).filter(|p: Seq<char>| p != path@),
            decreases n - i,
        {
            let ghost kpre = kept@;
            if !str_eq(self.active_access[i].as_str(), path) {
                kept.push(self.active_access[i].clone());
            }
            proof {
                reveal(Seq::filter);
                let f = |p: Seq<char>| p != path@;
                let m = |s: String| s@;
                let prefix = pre.take(i as int).map_values(m);
                let step = pre.take(i + 1).map_values(m);
                assert(step =~= prefix.push(pre[i as int]@));
                assert(step.drop_last() =~= prefix);
                assert(step.last() == pre[i as int]@);
                if pre[i as int]@ != path@ {
                    assert(kept@.map_values(m) =~= kpre.map_values(m).push(pre[i as int]@));
                    assert(step.filter(f) == step.drop_last().filter(f).push(step.last()));
                } else {
                    assert(kept@.map_values(m) =~= kpre.map_values(m));
                    assert(step.filter(f) == step.drop_last().filter(f));
                }
            }
            i += 1;
        }
        self.active_access = kept;
        proof {
            assert(pre.take(n as int) =~= pre);
        }
    }

    /// Closes all open access (used at shutdown).
    pub fn stop_all_access(&mut self)
        requires
            old(self).wf(),
        ensures
            final(self).wf(),
            final(self)@ == old(self)@,
            final(self).active() == Seq::<Seq<char>>::empty(),
    {
        self.active_access = Vec::new();
        proof {
            assert(self.active() =~= Seq::<Seq<char>>::empty());
        }
    }
}

} // verus!
