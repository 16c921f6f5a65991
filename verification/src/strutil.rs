//! Verified helpers for working with strings as character sequences.
//!
//! Every executable helper here carries an exact contract over the
//! `Seq<char>` views of its arguments, so the modules that classify
//! paths, sanitise branch names and route status strings can state
//! their own behaviour precisely.

use vstd::prelude::*;

verus! {

/// `p` is a prefix of `s`.
pub open spec fn seq_starts_with(s: Seq<char>, p: Seq<char>) -> bool {
    p.len() <= s.len() && s.take(p.len() as int) == p
}

/// `p` occurs in `s` at position `i`.
pub open spec fn seq_matches_at(s: Seq<char>, p: Seq<char>, i: int) -> bool {
    0 <= i && i + p.len() <= s.len() && s.subrange(i, i + p.len() as int) == p
}

/// `p` occurs somewhere in `s`.
pub open spec fn seq_contains(s: Seq<char>, p: Seq<char>) -> bool {
    exists|i: int| seq_matches_at(s, p, i)
}

/// Character-wise equality of two `&str`.
pub fn str_eq(a: &str, b: &str) -> (r: bool)
    ensures
        r == (a@ == b@),
{
    let n = a.unicode_len();
    if n != b.unicode_len() {
        return false;
    }
    let mut i: usize = 0;
    while i < n
        invariant
            i <= n,
            n == a@.len(),
            n == b@.len(),
            forall|j: int| 0 <= j < i ==> a@[j] == b@[j],
        decreases n - i,
    {
        if a.get_char(i) != b.get_char(i) {
            return false;
        }
        i += 1;
    }
    proof {
        assert(a@ =~= b@);
    }
    true
}

/// Character-wise prefix test.
pub fn str_starts_with(s: &str, p: &str) -> (r: bool)
    ensures
        r == seq_starts_with(s@, p@),
{
    let n = s.unicode_len();
    let m = p.unicode_len();
    if m > n {
        return false;
    }
    let mut i: usize = 0;
    while i < m
        invariant
            i <= m,
            m <= n,
            n == s@.len(),
            m == p@.len(),
            forall|j: int| 0 <= j < i ==> s@[j] == p@[j],
        decreases m - i,
    {
        if s.get_char(i) != p.get_char(i) {
            proof {
                assert(s@.take(m as int)[i as int] == s@[i as int]);
            }
            return false;
        }
        i += 1;
    }
    proof {
        assert(s@.take(m as int) =~= p@);
    }
    true
}

/// Does `p` occur in `s` starting at `i`?
fn matches_at(s: &str, p: &str, i: usize) -> (r: bool)
    requires
        i + p@.len() <= s@.len(),
    ensures
        r == seq_matches_at(s@, p@, i as int),
{
    let n = s.unicode_len();
    let m = p.unicode_len();
    let mut k: usize = 0;
    while k < m
        invariant
            k <= m,
            m == p@.len(),
            n == s@.len(),
            i + m <= n,
            forall|j: int| 0 <= j < k ==> s@[i + j] == p@[j],
        decreases m - k,
    {
        if s.get_char(i + k) != p.get_char(k) {
            proof {
                assert(s@.subrange(i as int, i + m as int)[k as int] == s@[i + k]);
            }
            return false;
        }
        k += 1;
    }
    proof {
        assert(s@.subrange(i as int, i + m as int) =~= p@);
    }
    true
}

/// Character-wise substring search.
pub fn str_contains(s: &str, p: &str) -> (r: bool)
    ensures
        r == seq_contains(s@, p@),
{
    let n = s.unicode_len();
    let m = p.unicode_len();
    if m > n {
        proof {
            assert(forall|i: int| !seq_matches_at(s@, p@, i));
        }
        return false;
    }
    if m == 0 {
        proof {
            assert(s@.subrange(0, 0) =~= p@);
            assert(seq_matches_at(s@, p@, 0));
        }
        return true;
    }
    let mut i: usize = 0;
    while i <= n - m
        invariant
            0 < m <= n,
            n == s@.len(),
            m == p@.len(),
            i <= n - m + 1,
            forall|j: int| 0 <= j < i ==> !seq_matches_at(s@, p@, j),
        decreases n - i,
    {
        if matches_at(s, p, i) {
            return true;
        }
        i += 1;
    }
    proof {
        assert(forall|j: int| seq_matches_at(s@, p@, j) ==> 0 <= j <= n - m);
    }
    false
}

/// The substring `s[from..to]` equals `lit`, compared character-wise.
pub fn substr_eq(s: &str, from: usize, to: usize, lit: &str) -> (r: bool)
    requires
        from <= to,
        to <= s@.len(),
    ensures
        r == (s@.subrange(from as int, to as int) == lit@),
{
    let m = lit.unicode_len();
    if to - from != m {
        return false;
    }
    let mut k: usize = 0;
    while k < m
        invariant
            k <= m,
            m == lit@.len(),
            from + m == to,
            to <= s@.len(),
            forall|j: int| 0 <= j < k ==> s@[from + j] == lit@[j],
        decreases m - k,
    {
        if s.get_char(from + k) != lit.get_char(k) {
            proof {
                assert(s@.subrange(from as int, to as int)[k as int] == s@[from + k]);
            }
            return false;
        }
        k += 1;
    }
    proof {
        assert(s@.subrange(from as int, to as int) =~= lit@);
    }
    true
}

/// The characters of `s`, as a vector.
pub fn chars_of(s: &str) -> (r: Vec<char>)
    ensures
        r@ == s@,
{
    let n = s.unicode_len();
    let mut r: Vec<char> = Vec::new();
    let mut i: usize = 0;
    while i < n
        invariant
            i <= n,
            n == s@.len(),
            r@ == s@.take(i as int),
        decreases n - i,
    {
        r.push(s.get_char(i));
        proof {
            assert(r@ =~= s@.take(i + 1));
        }
        i += 1;
    }
    proof {
        assert(r@ =~= s@);
    }
    r
}

/// Relies on `String`'s `FromIterator<char>` impl: collecting characters
/// yields a string of exactly those characters, in order.
#[verifier::external_body]
pub fn string_from_chars(v: &Vec<char>) -> (r: String)
    ensures
        r@ == v@,
{
    v.iter().collect()
}

} // verus!
