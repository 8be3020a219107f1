//! Association lists as finite maps: the model shared by the bindings and
//! the coefficient table, with the facts that their methods are proved from.

use vstd::prelude::*;

verus! {

/// The map that a list of pairs stands for: the pairs inserted in order,
/// so that a later pair overrides an earlier one with the same key.
pub open spec fn table<K, V>(pairs: Seq<(K, V)>) -> Map<K, V>
    decreases pairs.len(),
{
    if pairs.len() == 0 {
        Map::empty()
    } else {
        table(pairs.drop_last()).insert(pairs.last().0, pairs.last().1)
    }
}

/// No key occurs twice in the list.
pub open spec fn distinct_keys<K, V>(pairs: Seq<(K, V)>) -> bool {
    forall|i: int, j: int| 0 <= i < j < pairs.len() ==> pairs[i].0 != pairs[j].0
}

/// What the map holds under a key, if anything.
pub open spec fn lookup<K, V>(m: Map<K, V>, key: K) -> Option<V> {
    if m.contains_key(key) {
        Some(m[key])
    } else {
        None
    }
}

/// The last pair with a given key decides what the map holds under it.
pub proof fn lemma_table_last_match<K, V>(pairs: Seq<(K, V)>, k: int, key: K)
    requires
        0 <= k < pairs.len(),
        pairs[k].0 == key,
        forall|j: int| k < j < pairs.len() ==> pairs[j].0 != key,
    ensures
        table(pairs).contains_key(key),
        table(pairs)[key] == pairs[k].1,
    decreases pairs.len(),
{
    if k < pairs.len() - 1 {
        lemma_table_last_match(pairs.drop_last(), k, key);
    }
}

/// A key that no pair has is not in the map.
pub proof fn lemma_table_no_match<K, V>(pairs: Seq<(K, V)>, key: K)
    requires
        forall|j: int| 0 <= j < pairs.len() ==> pairs[j].0 != key,
    ensures
        !table(pairs).contains_key(key),
    decreases pairs.len(),
{
    if pairs.len() > 0 {
        lemma_table_no_match(pairs.drop_last(), key);
    }
}

/// Appending a pair inserts it into the map.
pub proof fn lemma_table_push<K, V>(pairs: Seq<(K, V)>, key: K, value: V)
    ensures
        table(pairs.push((key, value))) == table(pairs).insert(key, value),
{
    assert(pairs.push((key, value)).drop_last() =~= pairs);
}

/// Replacing the value of the last pair with a given key inserts the new
/// value into the map.
pub proof fn lemma_table_update<K, V>(pairs: Seq<(K, V)>, k: int, key: K, value: V)
    requires
        0 <= k < pairs.len(),
        pairs[k].0 == key,
        forall|j: int| k < j < pairs.len() ==> pairs[j].0 != key,
    ensures
        table(pairs.update(k, (key, value))) == table(pairs).insert(key, value),
    decreases pairs.len(),
{
    let updated = pairs.update(k, (key, value));
    if k == pairs.len() - 1 {
        assert(updated.drop_last() =~= pairs.drop_last());
    } else {
        lemma_table_update(pairs.drop_last(), k, key, value);
        assert(updated.drop_last() =~= pairs.drop_last().update(k, (key, value)));
    }
}

} // verus!
