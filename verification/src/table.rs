//! The map that a list of `(key, value)` pairs denotes, for the small
//! keyed tables of the engine: a later pair wins over an earlier one.

use vstd::prelude::*;

verus! {

/// The map denoted by `p`: later pairs win.
pub open spec fn table_map<K, V>(p: Seq<(K, V)>) -> Map<K, V>
    decreases p.len(),
{
    if p.len() == 0 {
        Map::empty()
    } else {
        table_map(p.drop_last()).insert(p.last().0, p.last().1)
    }
}

/// Index of the last pair with key `k`, or -1.
pub open spec fn table_last<K, V>(p: Seq<(K, V)>, k: K) -> int
    decreases p.len(),
{
    if p.len() == 0 {
        -1
    } else if p.last().0 == k {
        p.len() - 1
    } else {
        table_last(p.drop_last(), k)
    }
}

pub proof fn lemma_table<K, V>(p: Seq<(K, V)>, k: K)
    ensures
        table_map(p).dom().finite(),
        -1 <= table_last(p, k) < p.len(),
        table_map(p).contains_key(k) == (table_last(p, k) >= 0),
        table_last(p, k) >= 0 ==> p[table_last(p, k)].0 == k && table_map(p)[k] == p[table_last(p, k)].1,
        forall|j: int| table_last(p, k) < j < p.len() ==> p[j].0 != k,
    decreases p.len(),
{
    if p.len() > 0 {
        lemma_table(p.drop_last(), k);
        if p.last().0 != k {
            assert forall|j: int| table_last(p, k) < j < p.len() implies p[j].0 != k by {
                if j < p.len() - 1 {
                    assert(p[j] == p.drop_last()[j]);
                }
            }
        }
    }
}

pub proof fn lemma_table_last_at<K, V>(p: Seq<(K, V)>, k: K, i: int)
    requires
        0 <= i < p.len(),
        p[i].0 == k,
        forall|j: int| i < j < p.len() ==> p[j].0 != k,
    ensures
        table_last(p, k) == i,
    decreases p.len(),
{
    if i < p.len() - 1 {
        assert(p.last().0 != k);
        assert forall|j: int| i < j < p.drop_last().len() implies p.drop_last()[j].0 != k by {
            assert(p.drop_last()[j] == p[j]);
        }
        lemma_table_last_at(p.drop_last(), k, i);
    }
}

/// Replacing the value of the last pair with key `k` is a map insert.
pub proof fn lemma_table_update<K, V>(p: Seq<(K, V)>, k: K, v: V)
    requires
        table_last(p, k) >= 0,
    ensures
        table_map(p.update(table_last(p, k), (k, v))) == table_map(p).insert(k, v),
    decreases p.len(),
{
    let idx = table_last(p, k);
    let q = p.update(idx, (k, v));
    lemma_table(p, k);
    if idx == p.len() - 1 {
        assert(q.drop_last() =~= p.drop_last());
        assert(table_map(q) =~= table_map(p).insert(k, v));
    } else {
        assert(p.last().0 != k);
        assert(table_last(p.drop_last(), k) == idx);
        assert(q.drop_last() =~= p.drop_last().update(idx, (k, v)));
        lemma_table_update(p.drop_last(), k, v);
        assert(q.last() == p.last());
        assert(table_map(q) == table_map(q.drop_last()).insert(q.last().0, q.last().1));
        assert(table_map(p) == table_map(p.drop_last()).insert(p.last().0, p.last().1));
        assert(table_map(q) =~= table_map(p).insert(k, v));
    }
}

/// Appending a pair is a map insert.
pub proof fn lemma_table_push<K, V>(p: Seq<(K, V)>, k: K, v: V)
    ensures
        table_map(p.push((k, v))) == table_map(p).insert(k, v),
{
    assert(p.push((k, v)).drop_last() =~= p);
}

} // verus!
