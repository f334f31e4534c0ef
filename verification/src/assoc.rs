use vstd::prelude::*;

verus! {

/// No key stands at two positions.
pub open spec fn keys_distinct(keys: Seq<Seq<char>>) -> bool {
    forall|i: int, j: int| 0 <= i < j < keys.len() ==> keys[i] != keys[j]
}

/// The map that a list of keys and the list of their values stand for.
pub open spec fn assoc_map<V>(keys: Seq<Seq<char>>, vals: Seq<V>) -> Map<Seq<char>, V> {
    Map::new(|k: Seq<char>| keys.contains(k), |k: Seq<char>| vals[keys.index_of(k)])
}

/// The key at position `i` maps to the value at position `i`.
pub proof fn lemma_assoc_lookup<V>(keys: Seq<Seq<char>>, vals: Seq<V>, i: int)
    requires
        keys_distinct(keys),
        keys.len() == vals.len(),
        0 <= i < keys.len(),
    ensures
        assoc_map(keys, vals).dom().contains(keys[i]),
        assoc_map(keys, vals)[keys[i]] == vals[i],
{
    assert(keys.contains(keys[i]));
    let c = keys.index_of(keys[i]);
    assert(0 <= c < keys.len() && keys[c] == keys[i]);
    assert(c == i);
}

/// A key that stands nowhere in the list is not in the map.
pub proof fn lemma_assoc_absent<V>(keys: Seq<Seq<char>>, vals: Seq<V>, k: Seq<char>)
    requires
        forall|i: int| 0 <= i < keys.len() ==> keys[i] != k,
    ensures
        !assoc_map(keys, vals).dom().contains(k),
{
}

/// Replacing the value at position `i` replaces what its key maps to.
pub proof fn lemma_assoc_update<V>(keys: Seq<Seq<char>>, vals: Seq<V>, i: int, v: V)
    requires
        keys_distinct(keys),
        keys.len() == vals.len(),
        0 <= i < keys.len(),
    ensures
        assoc_map(keys, vals.update(i, v)) == assoc_map(keys, vals).insert(keys[i], v),
{
    let before = assoc_map(keys, vals);
    let after = assoc_map(keys, vals.update(i, v));
    assert(keys.contains(keys[i]));
    assert forall|k: Seq<char>| after.dom().contains(k) implies #[trigger] after[k]
        == before.insert(keys[i], v)[k] by {
        let c = keys.index_of(k);
        assert(0 <= c < keys.len() && keys[c] == k);
        if k == keys[i] {
            assert(c == i);
        } else {
            assert(c != i);
        }
    }
    assert(after =~= before.insert(keys[i], v));
}

/// Appending a new key with its value adds that pair to the map.
pub proof fn lemma_assoc_push<V>(keys: Seq<Seq<char>>, vals: Seq<V>, k: Seq<char>, v: V)
    requires
        keys_distinct(keys),
        keys.len() == vals.len(),
        forall|i: int| 0 <= i < keys.len() ==> keys[i] != k,
    ensures
        keys_distinct(keys.push(k)),
        assoc_map(keys.push(k), vals.push(v)) == assoc_map(keys, vals).insert(k, v),
{
    let keys2 = keys.push(k);
    let vals2 = vals.push(v);
    let before = assoc_map(keys, vals);
    let after = assoc_map(keys2, vals2);
    assert(keys_distinct(keys2));
    assert(keys2[keys.len() as int] == k);
    assert(keys2.contains(k));
    assert forall|q: Seq<char>| after.dom().contains(q) <==> before.insert(k, v).dom().contains(
        q,
    ) by {
        if keys2.contains(q) {
            let c = keys2.index_of(q);
            assert(0 <= c < keys2.len() && keys2[c] == q);
            if c < keys.len() {
                assert(keys[c] == q);
                assert(keys.contains(q));
            }
        }
        if keys.contains(q) {
            let c = keys.index_of(q);
            assert(0 <= c < keys.len() && keys[c] == q);
            assert(keys2[c] == q);
            assert(keys2.contains(q));
        }
    }
    assert forall|q: Seq<char>| after.dom().contains(q) implies #[trigger] after[q]
        == before.insert(k, v)[q] by {
        let c = keys2.index_of(q);
        assert(0 <= c < keys2.len() && keys2[c] == q);
        if q == k {
            assert(c == keys.len());
        } else {
            assert(c < keys.len());
            assert(keys[c] == q);
            assert(keys.contains(q));
            let d = keys.index_of(q);
            assert(0 <= d < keys.len() && keys[d] == q);
            assert(keys2[d] == q);
            assert(c == d);
        }
    }
    assert(after =~= before.insert(k, v));
}

} // verus!
