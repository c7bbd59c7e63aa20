//! Maps seen as sequences of entries.
//!
//! A map is taken apart into a sequence of its entries, and put together
//! again by inserting a sequence of entries one after the other. This module
//! says what both directions mean, and proves what the second one yields.

use vstd::prelude::*;

verus! {

/// `s` lists the entries of `m`: every entry of `s` is an entry of `m`,
/// every key of `m` occurs in `s`, and no key occurs twice.
pub open spec fn lists<K, V>(s: Seq<(K, V)>, m: Map<K, V>) -> bool {
    &&& forall|i: int|
        0 <= i < s.len() ==> m.contains_key((#[trigger] s[i]).0) && m[s[i].0] == s[i].1
    &&& forall|k: K| #[trigger]
        m.contains_key(k) ==> exists|i: int| 0 <= i < s.len() && (#[trigger] s[i]).0 == k
    &&& distinct_keys(s)
}

/// No two entries of `s` have the same key.
pub open spec fn distinct_keys<K, V>(s: Seq<(K, V)>) -> bool {
    forall|i: int, j: int|
        0 <= i < j < s.len() ==> (#[trigger] s[i]).0 != (#[trigger] s[j]).0
}

/// The keys of `s`, in order.
pub open spec fn keys_of<K, V>(s: Seq<(K, V)>) -> Seq<K> {
    s.map_values(|e: (K, V)| e.0)
}

/// The map that results from inserting the entries of `s` into an empty map,
/// first to last: where a key occurs more than once, its last entry stays.
pub open spec fn from_entries<K, V>(s: Seq<(K, V)>) -> Map<K, V>
    decreases s.len(),
{
    if s.len() == 0 {
        Map::empty()
    } else {
        from_entries(s.drop_last()).insert(s.last().0, s.last().1)
    }
}

/// `dst` is `src` with the relation `left` taking each key to its new key and
/// `right` taking each value to its new value, position by position.
pub open spec fn relates_entries<A, B, C, D>(
    left: spec_fn(A, C) -> bool,
    right: spec_fn(B, D) -> bool,
    src: Seq<(A, B)>,
    dst: Seq<(C, D)>,
) -> bool {
    &&& dst.len() == src.len()
    &&& forall|i: int|
        0 <= i < src.len() ==> left(src[i].0, (#[trigger] dst[i]).0) && right(src[i].1, dst[i].1)
}

/// Extending a sequence of entries by one inserts that entry last.
pub proof fn lemma_from_entries_push<K, V>(s: Seq<(K, V)>, k: K, v: V)
    ensures
        from_entries(s.push((k, v))) == from_entries(s).insert(k, v),
{
    assert(s.push((k, v)).drop_last() =~= s);
}

/// The keys of the assembled map are exactly the keys that occur in the
/// sequence, and the map is finite.
pub proof fn lemma_from_entries_keys<K, V>(s: Seq<(K, V)>)
    ensures
        from_entries(s).dom().finite(),
        forall|k: K| #[trigger]
            from_entries(s).contains_key(k) <==> exists|i: int|
                0 <= i < s.len() && (#[trigger] s[i]).0 == k,
    decreases s.len(),
{
    if s.len() > 0 {
        let t = s.drop_last();
        lemma_from_entries_keys(t);
        assert forall|k: K| #[trigger]
            from_entries(s).contains_key(k) <==> exists|i: int|
                0 <= i < s.len() && (#[trigger] s[i]).0 == k by {
            if from_entries(t).contains_key(k) {
                // found among the earlier entries, so found in `s` at the same place
                let i = choose|i: int| 0 <= i < t.len() && (#[trigger] t[i]).0 == k;
                assert(s[i].0 == k);
            }
            if exists|i: int| 0 <= i < s.len() && (#[trigger] s[i]).0 == k {
                // found in `s`: either it is the last entry, or an earlier one
                let i = choose|i: int| 0 <= i < s.len() && (#[trigger] s[i]).0 == k;
                if i < t.len() {
                    assert(t[i].0 == k);
                }
            }
        }
    }
}

/// Last written wins: an entry whose key does not occur again after it is
/// an entry of the assembled map.
pub proof fn lemma_from_entries_last_wins<K, V>(s: Seq<(K, V)>, i: int)
    requires
        0 <= i < s.len(),
        forall|j: int| i < j < s.len() ==> (#[trigger] s[j]).0 != s[i].0,
    ensures
        from_entries(s).contains_key(s[i].0),
        from_entries(s)[s[i].0] == s[i].1,
    decreases s.len(),
{
    if i < s.len() - 1 {
        // the last entry has another key, so it overwrites nothing of `s[i]`
        lemma_from_entries_last_wins(s.drop_last(), i);
    }
}

/// Where no key occurs twice, nothing is overwritten: the assembled map has
/// as many entries as the sequence, and each of them is an entry of the map.
pub proof fn lemma_from_entries_distinct<K, V>(s: Seq<(K, V)>)
    requires
        distinct_keys(s),
    ensures
        from_entries(s).len() == s.len(),
        lists(s, from_entries(s)),
    decreases s.len(),
{
    lemma_from_entries_keys(s);
    if s.len() > 0 {
        let t = s.drop_last();
        lemma_from_entries_distinct(t);
        lemma_from_entries_keys(t);
        // the last key is new to the map of the earlier entries
        assert(!from_entries(t).contains_key(s.last().0));
    }
    assert forall|i: int| 0 <= i < s.len() implies from_entries(s).contains_key(
        (#[trigger] s[i]).0,
    ) && from_entries(s)[s[i].0] == s[i].1 by {
        lemma_from_entries_last_wins(s, i);
    }
}

/// Taking a map apart and putting it together again gives the same map: a
/// listing of a map has as many entries as the map, which is therefore
/// finite, and assembles to it.
pub proof fn lemma_lists_round_trip<K, V>(s: Seq<(K, V)>, m: Map<K, V>)
    requires
        lists(s, m),
    ensures
        m.dom().finite(),
        m.len() == s.len(),
        m == from_entries(s),
{
    lemma_from_entries_distinct(s);
    lemma_from_entries_keys(s);
    assert(from_entries(s) =~= m);
}

} // verus!
