//! A sequence of records viewed as a finite map.
//!
//! The supervisor's registries (sessions, status routing, bookmarks)
//! all store their records in a vector with pairwise-distinct keys and
//! state their contracts over the induced `Map`. This module defines
//! that abstraction and proves the facts the registries need.

use vstd::prelude::*;

verus! {

/// The map induced by a sequence of records under a key function.
/// Later records shadow earlier ones; with distinct keys there is
/// nothing to shadow.
pub open spec fn assoc_map<K, V>(s: Seq<V>, key: spec_fn(V) -> K) -> Map<K, V>
    decreases s.len(),
{
    if s.len() == 0 {
        Map::empty()
    } else {
        assoc_map(s.drop_last(), key).insert(key(s.last()), s.last())
    }
}

/// No two records share a key.
pub open spec fn distinct_keys<K, V>(s: Seq<V>, key: spec_fn(V) -> K) -> bool {
    forall|i: int, j: int| 0 <= i < j < s.len() ==> key(s[i]) != key(s[j])
}

/// A key is in the induced map exactly when some record carries it.
pub proof fn lemma_assoc_map_contains<K, V>(s: Seq<V>, key: spec_fn(V) -> K, k: K)
    ensures
        assoc_map(s, key).contains_key(k) <==> exists|i: int| 0 <= i < s.len() && key(s[i]) == k,
    decreases s.len(),
{
    if s.len() > 0 {
        lemma_assoc_map_contains(s.drop_last(), key, k);
        if key(s.last()) == k {
            assert(key(s[s.len() - 1]) == k);
        } else if assoc_map(s, key).contains_key(k) {
            let i = choose|i: int| 0 <= i < s.drop_last().len() && key(s.drop_last()[i]) == k;
            assert(key(s[i]) == k);
        } else if exists|i: int| 0 <= i < s.len() && key(s[i]) == k {
            let i = choose|i: int| 0 <= i < s.len() && key(s[i]) == k;
            assert(i < s.len() - 1 && s.drop_last()[i] == s[i]);
        }
    }
}

/// The induced map is finite.
pub proof fn lemma_assoc_map_finite<K, V>(s: Seq<V>, key: spec_fn(V) -> K)
    ensures
        assoc_map(s, key).dom().finite(),
    decreases s.len(),
{
    if s.len() > 0 {
        lemma_assoc_map_finite(s.drop_last(), key);
    }
}

/// With distinct keys, each record is the map's value at its key.
pub proof fn lemma_assoc_map_index<K, V>(s: Seq<V>, key: spec_fn(V) -> K, i: int)
    requires
        distinct_keys(s, key),
        0 <= i < s.len(),
    ensures
        assoc_map(s, key).contains_key(key(s[i])),
        assoc_map(s, key)[key(s[i])] == s[i],
    decreases s.len(),
{
    if i == s.len() - 1 {
        assert(s.last() == s[i]);
    } else {
        assert(distinct_keys(s.drop_last(), key)) by {
            assert(forall|a: int, b: int|
                0 <= a < b < s.drop_last().len() ==> key(#[trigger] s.drop_last()[a])
                    != key(#[trigger] s.drop_last()[b])) by {
                assert(forall|a: int|
                    0 <= a < s.drop_last().len() ==> #[trigger] s.drop_last()[a] == s[a]);
            }
        }
        lemma_assoc_map_index(s.drop_last(), key, i);
        assert(s.drop_last()[i] == s[i]);
        assert(key(s[i]) != key(s.last()));
    }
}

/// With distinct keys, the map has exactly one entry per record.
pub proof fn lemma_assoc_map_len<K, V>(s: Seq<V>, key: spec_fn(V) -> K)
    requires
        distinct_keys(s, key),
    ensures
        assoc_map(s, key).dom().finite(),
        assoc_map(s, key).dom().len() == s.len(),
    decreases s.len(),
{
    lemma_assoc_map_finite(s, key);
    if s.len() > 0 {
        let prefix = s.drop_last();
        assert(distinct_keys(prefix, key)) by {
            assert(forall|a: int| 0 <= a < prefix.len() ==> #[trigger] prefix[a] == s[a]);
        }
        lemma_assoc_map_len(prefix, key);
        lemma_assoc_map_contains(prefix, key, key(s.last()));
        assert(!assoc_map(prefix, key).contains_key(key(s.last()))) by {
            if exists|i: int| 0 <= i < prefix.len() && key(prefix[i]) == key(s.last()) {
                let i = choose|i: int| 0 <= i < prefix.len() && key(prefix[i]) == key(s.last());
                assert(key(s[i]) == key(s[s.len() - 1]));
            }
        }
        assert(assoc_map(s, key).dom() =~= assoc_map(prefix, key).dom().insert(key(s.last())));
        vstd::set::axiom_set_insert_len(assoc_map(prefix, key).dom(), key(s.last()));
    }
}

/// Removing the record at `i` removes exactly its key from the map.
pub proof fn lemma_assoc_map_remove<K, V>(s: Seq<V>, key: spec_fn(V) -> K, i: int)
    requires
        distinct_keys(s, key),
        0 <= i < s.len(),
    ensures
        assoc_map(s.remove(i), key) =~= assoc_map(s, key).remove(key(s[i])),
    decreases s.len(),
{
    let k = key(s[i]);
    if i == s.len() - 1 {
        assert(s.remove(i) =~= s.drop_last());
        lemma_assoc_map_contains(s.drop_last(), key, k);
        assert(!assoc_map(s.drop_last(), key).contains_key(k)) by {
            if exists|j: int| 0 <= j < s.drop_last().len() && key(s.drop_last()[j]) == k {
                let j = choose|j: int| 0 <= j < s.drop_last().len() && key(s.drop_last()[j]) == k;
                assert(key(s[j]) == key(s[s.len() - 1]));
            }
        }
        assert(assoc_map(s.drop_last(), key) =~= assoc_map(s.drop_last(), key).insert(k,
            s.last()).remove(k));
    } else {
        let prefix = s.drop_last();
        assert(distinct_keys(prefix, key)) by {
            assert(forall|a: int| 0 <= a < prefix.len() ==> #[trigger] prefix[a] == s[a]);
        }
        lemma_assoc_map_remove(prefix, key, i);
        assert(s.remove(i).drop_last() =~= prefix.remove(i));
        assert(s.remove(i).last() == s.last());
        assert(key(s[i]) != key(s.last()));
        assert(assoc_map(s.remove(i), key) == assoc_map(prefix.remove(i), key).insert(
            key(s.last()), s.last()));
    }
}

/// Appending a record with a fresh key inserts exactly that entry.
pub proof fn lemma_assoc_map_push<K, V>(s: Seq<V>, key: spec_fn(V) -> K, v: V)
    ensures
        assoc_map(s.push(v), key) == assoc_map(s, key).insert(key(v), v),
{
    assert(s.push(v).drop_last() =~= s);
    assert(s.push(v).last() == v);
}

} // verus!
