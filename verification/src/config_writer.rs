//! Which entries of a session's tool-server configuration belong to
//! this application.
//!
//! When a session's configuration file is rewritten, every entry this
//! application manages is replaced and every user-written entry is
//! preserved. The file I/O and JSON handling happen outside; the
//! ownership rule for entry names, and the selection of keys to drop,
//! are decided here.

use vstd::prelude::*;

use crate::strutil::{seq_starts_with, str_eq, str_starts_with};

verus! {

/// An entry name this application manages: the status entry itself,
/// any session-suffixed variant of it, and any other name under the
/// application's prefix.
pub open spec fn should_remove_spec(name: Seq<char>) -> bool {
    ||| name == "maestro-status"@
    ||| seq_starts_with(name, "maestro-status-"@)
    ||| (seq_starts_with(name, "maestro-"@) && name != "maestro-status"@)
    ||| name == "maestro"@
}

/// Is this a managed entry that a rewrite should replace?
pub fn should_remove_server(name: &str) -> (r: bool)
    ensures
        r == should_remove_spec(name@),
{
    str_eq(name, "maestro-status") || str_starts_with(name, "maestro-status-") || (str_starts_with(
        name,
        "maestro-",
    ) && !str_eq(name, "maestro-status")) || str_eq(name, "maestro")
}

/// The keys of a configuration section that a rewrite should drop:
/// exactly the managed entry names, in order.
pub fn keys_to_remove(keys: &Vec<String>) -> (r: Vec<String>)
    ensures
        r@.map_values(|s: String| s@) == keys@.map_values(|s: String| s@).filter(
            (|name: Seq<char>| should_remove_spec(name)),
        ),
{
    let n = keys.len();
    let mut r: Vec<String> = Vec::new();
    let mut i: usize = 0;
    proof {
        reveal(Seq::filter);
        assert(keys@.take(0).map_values(|s: String| s@).filter(
            (|name: Seq<char>| should_remove_spec(name))) =~= Seq::<Seq<char>>::empty());
        assert(r@.map_values(|s: String| s@) =~= Seq::<Seq<char>>::empty());
    }
    while i < n
        invariant
            i <= n,
            n == keys@.len(),
            r@.map_values(|s: String| s@) == keys@.take(i as int).map_values(
                |s: String| s@,
            ).filter((|name: Seq<char>| should_remove_spec(name))),
        decreases n - i,
    {
        let ghost rpre = r@;
        if should_remove_server(keys[i].as_str()) {
            r.push(keys[i].clone());
        }
        proof {
            reveal(Seq::filter);
            let f = |name: Seq<char>| should_remove_spec(name);
            let m = |s: String| s@;
            let prefix = keys@.take(i as int).map_values(m);
            let step = keys@.take(i + 1).map_values(m);
            assert(step =~= prefix.push(keys@[i as int]@));
            assert(step.drop_last() =~= prefix);
            assert(step.last() == keys@[i as int]@);
            if f(keys@[i as int]@) {
                assert(r@.map_values(m) =~= rpre.map_values(m).push(keys@[i as int]@));
            } else {
                assert(r@.map_values(m) =~= rpre.map_values(m));
            }
        }
        i += 1;
    }
    proof {
        assert(keys@.take(n as int) =~= keys@);
    }
    r
}

} // verus!
