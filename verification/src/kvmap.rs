//! Association sequences: the representation of an unordered mapping as a
//! vector of key-value pairs with pairwise-distinct keys, together with the
//! lemmas that connect the representation to the `Map` it denotes.

use vstd::prelude::*;

verus! {

/// Whether some pair of the sequence carries the key `k`.
pub open spec fn kv_contains_key<K, V>(s: Seq<(K, V)>, k: K) -> bool {
    exists|i: int| 0 <= i < s.len() && (#[trigger] s[i]).0 == k
}

/// Whether the keys of the sequence are pairwise distinct.
pub open spec fn kv_unique_keys<K, V>(s: Seq<(K, V)>) -> bool {
    forall|i: int, j: int| 0 <= i < j < s.len() ==> (#[trigger] s[i]).0 != (#[trigger] s[j]).0
}

/// The mapping that the sequence represents; a later pair shadows an earlier
/// one with the same key, so under `kv_unique_keys` every pair is visible.
pub open spec fn kv_map<K, V>(s: Seq<(K, V)>) -> Map<K, V>
    decreases s.len(),
{
    if s.len() == 0 {
        Map::empty()
    } else {
        kv_map(s.drop_last()).insert(s.last().0, s.last().1)
    }
}

/// The represented map contains exactly the keys that some pair carries.
pub proof fn lemma_kv_map_domain<K, V>(s: Seq<(K, V)>)
    ensures
        forall|k: K| kv_map(s).contains_key(k) <==> kv_contains_key(s, k),
    decreases s.len(),
{
    if s.len() > 0 {
        lemma_kv_map_domain(s.drop_last());
        assert forall|k: K| kv_contains_key(s, k) implies kv_map(s).contains_key(k) by {
            let i = choose|i: int| 0 <= i < s.len() && (#[trigger] s[i]).0 == k;
            if i < s.len() - 1 {
                assert(s.drop_last()[i] == s[i]);
                assert(kv_contains_key(s.drop_last(), k));
            }
        }
        assert forall|k: K| kv_map(s).contains_key(k) implies kv_contains_key(s, k) by {
            if k == s.last().0 {
                assert((s[s.len() - 1]).0 == k);
            } else {
                assert(kv_map(s) == kv_map(s.drop_last()).insert(s.last().0, s.last().1));
                assert(kv_map(s.drop_last()).contains_key(k));
                assert(kv_contains_key(s.drop_last(), k));
                let i = choose|i: int|
                    0 <= i < s.drop_last().len() && (#[trigger] s.drop_last()[i]).0 == k;
                assert(s.drop_last()[i] == s[i]);
                assert((s[i]).0 == k);
            }
        }
    }
}

/// Dropping the last pair keeps the keys pairwise distinct.
pub proof fn lemma_kv_unique_drop_last<K, V>(s: Seq<(K, V)>)
    requires
        kv_unique_keys(s),
        s.len() > 0,
    ensures
        kv_unique_keys(s.drop_last()),
{
    assert forall|i: int, j: int|
        0 <= i < j < s.drop_last().len() implies (#[trigger] s.drop_last()[i]).0 != (
    #[trigger] s.drop_last()[j]).0 by {
        assert(s.drop_last()[i] == s[i]);
        assert(s.drop_last()[j] == s[j]);
    }
}

/// Under distinct keys, the pair at index `i` is the one the map returns.
pub proof fn lemma_kv_map_index<K, V>(s: Seq<(K, V)>, i: int)
    requires
        kv_unique_keys(s),
        0 <= i < s.len(),
    ensures
        kv_map(s).contains_key(s[i].0),
        kv_map(s)[s[i].0] == s[i].1,
    decreases s.len(),
{
    if i < s.len() - 1 {
        lemma_kv_unique_drop_last(s);
        lemma_kv_map_index(s.drop_last(), i);
        assert(s.drop_last()[i] == s[i]);
        assert(s[i].0 != s.last().0);
    }
}

/// Appending a pair inserts its key into the represented map.
pub proof fn lemma_kv_map_push<K, V>(s: Seq<(K, V)>, k: K, v: V)
    ensures
        kv_map(s.push((k, v))) == kv_map(s).insert(k, v),
{
    assert(s.push((k, v)).drop_last() =~= s);
    assert(s.push((k, v)).last() == (k, v));
}

/// Appending a pair with a fresh key keeps the keys pairwise distinct.
pub proof fn lemma_kv_unique_push<K, V>(s: Seq<(K, V)>, k: K, v: V)
    requires
        kv_unique_keys(s),
        !kv_contains_key(s, k),
    ensures
        kv_unique_keys(s.push((k, v))),
{
    let t = s.push((k, v));
    assert forall|i: int, j: int| 0 <= i < j < t.len() implies (#[trigger] t[i]).0 != (
    #[trigger] t[j]).0 by {
        if j < s.len() {
            assert(t[i] == s[i]);
            assert(t[j] == s[j]);
        } else {
            assert(t[i] == s[i]);
            assert(t[j] == (k, v));
        }
    }
}

/// Replacing a pair by one with the same key leaves the key set unchanged.
pub proof fn lemma_kv_contains_update<K, V>(s: Seq<(K, V)>, i: int, k: K, v: V)
    requires
        0 <= i < s.len(),
        s[i].0 == k,
    ensures
        forall|x: K| kv_contains_key(s.update(i, (k, v)), x) <==> kv_contains_key(s, x),
{
    let t = s.update(i, (k, v));
    assert forall|x: K| kv_contains_key(t, x) <==> kv_contains_key(s, x) by {
        if kv_contains_key(t, x) {
            let j = choose|j: int| 0 <= j < t.len() && (#[trigger] t[j]).0 == x;
            assert((s[j]).0 == x);
        }
        if kv_contains_key(s, x) {
            let j = choose|j: int| 0 <= j < s.len() && (#[trigger] s[j]).0 == x;
            assert((t[j]).0 == x);
        }
    }
}

/// Appending a pair adds exactly its key to the key set.
pub proof fn lemma_kv_contains_push<K, V>(s: Seq<(K, V)>, k: K, v: V)
    ensures
        forall|x: K| kv_contains_key(s.push((k, v)), x) <==> (kv_contains_key(s, x) || x == k),
{
    let t = s.push((k, v));
    assert forall|x: K| kv_contains_key(t, x) <==> (kv_contains_key(s, x) || x == k) by {
        if kv_contains_key(t, x) {
            let j = choose|j: int| 0 <= j < t.len() && (#[trigger] t[j]).0 == x;
            if j < s.len() {
                assert((s[j]).0 == x);
            }
        }
        if kv_contains_key(s, x) {
            let j = choose|j: int| 0 <= j < s.len() && (#[trigger] s[j]).0 == x;
            assert((t[j]).0 == x);
        }
        if x == k {
            assert((t[s.len() as int]).0 == x);
        }
    }
}

/// Replacing the pair at index `i` by one with the same key updates the
/// represented map at that key and keeps the keys pairwise distinct.
pub proof fn lemma_kv_map_update<K, V>(s: Seq<(K, V)>, i: int, k: K, v: V)
    requires
        kv_unique_keys(s),
        0 <= i < s.len(),
        s[i].0 == k,
    ensures
        kv_map(s.update(i, (k, v))) == kv_map(s).insert(k, v),
        kv_unique_keys(s.update(i, (k, v))),
    decreases s.len(),
{
    let t = s.update(i, (k, v));
    assert forall|x: int, y: int| 0 <= x < y < t.len() implies (#[trigger] t[x]).0 != (
    #[trigger] t[y]).0 by {
        assert(t[x].0 == s[x].0);
        assert(t[y].0 == s[y].0);
    }
    if i == s.len() - 1 {
        assert(t.drop_last() =~= s.drop_last());
        assert(t.last() == (k, v));
        assert(kv_map(s.drop_last()).insert(s.last().0, s.last().1).insert(k, v) =~= kv_map(
            s.drop_last(),
        ).insert(k, v));
    } else {
        lemma_kv_unique_drop_last(s);
        lemma_kv_map_update(s.drop_last(), i, k, v);
        assert(t.drop_last() =~= s.drop_last().update(i, (k, v)));
        assert(t.last() == s.last());
        assert(s[i].0 != s.last().0);
        assert(kv_map(s.drop_last()).insert(k, v).insert(s.last().0, s.last().1) =~= kv_map(
            s.drop_last(),
        ).insert(s.last().0, s.last().1).insert(k, v));
    }
}

} // verus!
