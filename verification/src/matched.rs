//! Policy ids that Cedar's authorizer reports as matched, looked up in
//! the synthesized id tables: in ascending id order (the order of `str`
//! comparison) for procedures, in the tables' declaration order for
//! scoring.

use vstd::prelude::*;

use crate::table::{lemma_table, lemma_table_last_at, table_last};
use crate::text::{lemma_seq_le_antisym, lemma_seq_le_refl, lemma_seq_le_total, lemma_seq_le_trans, seq_le, str_eq, str_le};

verus! {

// ---------------------------------------------------------------------------
// Sorting policy ids
// ---------------------------------------------------------------------------

/// The ids are in ascending order.
pub open spec fn ids_sorted(s: Seq<Seq<char>>) -> bool {
    forall|i: int, j: int| 0 <= i < j < s.len() ==> seq_le(#[trigger] s[i], #[trigger] s[j])
}

/// `p` holds the ids of `m`, each as often, in ascending order.
pub open spec fn sorted_arrangement(p: Seq<Seq<char>>, m: Seq<Seq<char>>) -> bool {
    ids_sorted(p) && p.to_multiset() == m.to_multiset()
}

/// The ids of `m` in ascending order.
pub open spec fn sorted_ids(m: Seq<Seq<char>>) -> Seq<Seq<char>> {
    choose|p: Seq<Seq<char>>| sorted_arrangement(p, m)
}

/// Two ascending arrangements of the same ids are equal.
pub proof fn lemma_sorted_unique(a: Seq<Seq<char>>, b: Seq<Seq<char>>)
    requires
        ids_sorted(a),
        ids_sorted(b),
        a.to_multiset() == b.to_multiset(),
    ensures
        a == b,
    decreases a.len(),
{
    broadcast use vstd::seq_lib::group_to_multiset_ensures;

    assert(a.len() == a.to_multiset().len());
    assert(b.len() == b.to_multiset().len());
    if a.len() == 0 {
        assert(a =~= b);
    } else {
        let x = a.last();
        let y = b.last();
        assert(a.to_multiset().count(x) > 0) by {
            assert(a.contains(x) ==> a.to_multiset().count(x) > 0);
            assert(a[a.len() - 1] == x);
        }
        assert(b.contains(x));
        let i = choose|i: int| 0 <= i < b.len() && b[i] == x;
        if i < b.len() - 1 {
            assert(seq_le(b[i], b[b.len() - 1]));
        } else {
            lemma_seq_le_refl(x);
        }
        assert(b.to_multiset().count(y) > 0) by {
            assert(b[b.len() - 1] == y);
        }
        assert(a.contains(y));
        let j = choose|j: int| 0 <= j < a.len() && a[j] == y;
        if j < a.len() - 1 {
            assert(seq_le(a[j], a[a.len() - 1]));
        } else {
            lemma_seq_le_refl(y);
        }
        lemma_seq_le_antisym(x, y);
        assert(a.remove(a.len() - 1) =~= a.drop_last());
        assert(b.remove(b.len() - 1) =~= b.drop_last());
        assert(a.drop_last().to_multiset() == a.to_multiset().remove(x));
        assert(b.drop_last().to_multiset() == b.to_multiset().remove(y));
        assert forall|p: int, q: int| 0 <= p < q < a.drop_last().len() implies seq_le(
            #[trigger] a.drop_last()[p],
            #[trigger] a.drop_last()[q],
        ) by {
            assert(seq_le(a[p], a[q]));
        }
        assert forall|p: int, q: int| 0 <= p < q < b.drop_last().len() implies seq_le(
            #[trigger] b.drop_last()[p],
            #[trigger] b.drop_last()[q],
        ) by {
            assert(seq_le(b[p], b[q]));
        }
        lemma_sorted_unique(a.drop_last(), b.drop_last());
        assert(a =~= b) by {
            assert forall|k: int| 0 <= k < a.len() implies a[k] == b[k] by {
                if k < a.len() - 1 {
                    assert(a[k] == a.drop_last()[k]);
                    assert(b[k] == b.drop_last()[k]);
                }
            }
        }
    }
}

/// Inserting `x` after the ids not above it, and before the rest, keeps
/// the ids ascending and adds `x` to them.
proof fn lemma_insert_sorted(s: Seq<Seq<char>>, x: Seq<char>, pos: int)
    requires
        ids_sorted(s),
        0 <= pos <= s.len(),
        forall|i: int| 0 <= i < pos ==> seq_le(#[trigger] s[i], x),
        pos < s.len() ==> !seq_le(s[pos], x),
    ensures
        ids_sorted(s.insert(pos, x)),
        s.insert(pos, x).to_multiset() == s.to_multiset().insert(x),
{
    let n = s.insert(pos, x);
    assert forall|i: int, j: int| 0 <= i < j < n.len() implies seq_le(#[trigger] n[i], #[trigger] n[j]) by {
        if j < pos {
            assert(n[i] == s[i] && n[j] == s[j]);
        } else if j == pos {
            assert(n[i] == s[i]);
        } else if i < pos {
            assert(n[i] == s[i] && n[j] == s[j - 1]);
            assert(seq_le(s[i], s[j - 1]));
        } else if i == pos {
            assert(n[j] == s[j - 1]);
            lemma_seq_le_total(s[pos], x);
            if j - 1 > pos {
                assert(seq_le(s[pos], s[j - 1]));
                lemma_seq_le_trans(x, s[pos], s[j - 1]);
            }
        } else {
            assert(n[i] == s[i - 1] && n[j] == s[j - 1]);
        }
    }
    assert(n.remove(pos) =~= s);
    assert(n[pos] == x);
    vstd::seq_lib::to_multiset_remove(n, pos);
    n.to_multiset_ensures();
    assert(n.contains(x));
    assert(n.to_multiset() =~= s.to_multiset().insert(x));
}

/// The first index from `i` on whose id is above `x`, or the length.
spec fn insert_pos(s: Seq<Seq<char>>, x: Seq<char>, i: int) -> int
    decreases s.len() - i,
{
    if i < 0 || i >= s.len() || !seq_le(s[i], x) {
        i
    } else {
        insert_pos(s, x, i + 1)
    }
}

proof fn lemma_insert_pos(s: Seq<Seq<char>>, x: Seq<char>, i: int)
    requires
        0 <= i <= s.len(),
        forall|j: int| 0 <= j < i ==> seq_le(#[trigger] s[j], x),
    ensures
        i <= insert_pos(s, x, i) <= s.len(),
        forall|j: int| 0 <= j < insert_pos(s, x, i) ==> seq_le(#[trigger] s[j], x),
        insert_pos(s, x, i) < s.len() ==> !seq_le(s[insert_pos(s, x, i)], x),
    decreases s.len() - i,
{
    if i < s.len() && seq_le(s[i], x) {
        lemma_insert_pos(s, x, i + 1);
    }
}

/// Every list of ids has an ascending arrangement.
pub proof fn lemma_sorted_exists(m: Seq<Seq<char>>)
    ensures
        sorted_arrangement(sorted_ids(m), m),
    decreases m.len(),
{
    broadcast use vstd::seq_lib::group_to_multiset_ensures;

    if m.len() == 0 {
        assert(sorted_arrangement(m, m));
    } else {
        lemma_sorted_exists(m.drop_last());
        let s = sorted_ids(m.drop_last());
        let x = m.last();
        lemma_insert_pos(s, x, 0);
        let pos = insert_pos(s, x, 0);
        lemma_insert_sorted(s, x, pos);
        assert(m.drop_last().push(x) =~= m);
        vstd::seq_lib::to_multiset_build(m.drop_last(), x);
        assert(sorted_arrangement(s.insert(pos, x), m));
    }
}

/// What is looked up for matched policy ids does not depend on the order
/// in which Cedar reports them: two reports holding the same ids give the
/// same ascending order, hence the same values.
pub proof fn lemma_report_order_irrelevant<V>(m1: Seq<Seq<char>>, m2: Seq<Seq<char>>, t: Seq<(Seq<char>, V)>)
    requires
        m1.to_multiset() == m2.to_multiset(),
    ensures
        sorted_ids(m1) == sorted_ids(m2),
        found_values(sorted_ids(m1), t) == found_values(sorted_ids(m2), t),
{
    lemma_sorted_exists(m1);
    lemma_sorted_exists(m2);
    lemma_sorted_unique(sorted_ids(m1), sorted_ids(m2));
}

/// The ids in ascending order, by insertion.
pub fn sort_ids(v: &Vec<String>) -> (out: Vec<String>)
    ensures
        sorted_arrangement(out.deep_view(), v.deep_view()),
        out.deep_view() == sorted_ids(v.deep_view()),
{
    broadcast use vstd::seq_lib::group_to_multiset_ensures;

    let mut out: Vec<String> = Vec::new();
    let mut k: usize = 0;
    assert(v.deep_view().take(0) =~= Seq::<Seq<char>>::empty());
    assert(out.deep_view() =~= Seq::<Seq<char>>::empty());
    while k < v.len()
        invariant
            k <= v@.len(),
            ids_sorted(out.deep_view()),
            out.deep_view().to_multiset() == v.deep_view().take(k as int).to_multiset(),
        decreases v.len() - k,
    {
        let x = v[k].clone();
        let mut pos: usize = 0;
        while pos < out.len() && str_le(out[pos].as_str(), x.as_str())
            invariant
                pos <= out@.len(),
                forall|i: int| 0 <= i < pos ==> seq_le(#[trigger] out.deep_view()[i], x@),
            decreases out.len() - pos,
        {
            pos = pos + 1;
        }
        let ghost s = out.deep_view();
        let ghost xs = x@;
        out.insert(pos, x);
        proof {
            lemma_insert_sorted(s, xs, pos as int);
            assert(out.deep_view() =~= s.insert(pos as int, xs));
            assert(v.deep_view()[k as int] == xs);
            assert(v.deep_view().take(k + 1) =~= v.deep_view().take(k as int).push(xs));
            vstd::seq_lib::to_multiset_build(v.deep_view().take(k as int), xs);
        }
        k = k + 1;
    }
    assert(v.deep_view().take(v@.len() as int) =~= v.deep_view());
    proof {
        assert(sorted_arrangement(out.deep_view(), v.deep_view()));
        let p = sorted_ids(v.deep_view());
        assert(sorted_arrangement(p, v.deep_view()));
        lemma_sorted_unique(out.deep_view(), p);
    }
    out
}

// ---------------------------------------------------------------------------
// Lookup
// ---------------------------------------------------------------------------

/// A keyed table by its keys' texts.
pub open spec fn keyed<V>(t: Seq<(String, V)>) -> Seq<(Seq<char>, V)> {
    Seq::new(t.len(), |i: int| (t[i].0@, t[i].1))
}

/// The values of the ids in the table, in order (the last pair of a key
/// wins); an id without a pair is skipped.
pub open spec fn found_values<V>(ids: Seq<Seq<char>>, t: Seq<(Seq<char>, V)>) -> Seq<V>
    decreases ids.len(),
{
    if ids.len() == 0 {
        Seq::empty()
    } else {
        let rest = found_values(ids.drop_last(), t);
        let k = table_last(t, ids.last());
        if k >= 0 {
            rest.push(t[k].1)
        } else {
            rest
        }
    }
}

/// Index of the last pair with key `id`.
pub fn find_key<V>(table: &Vec<(String, V)>, id: &str) -> (r: Option<usize>)
    ensures
        match r {
            Some(i) => i as int == table_last(keyed(table@), id@),
            None => table_last(keyed(table@), id@) == -1,
        },
{
    let ghost p = keyed(table@);
    let mut i: usize = table.len();
    while i > 0
        invariant
            i <= table@.len(),
            p == keyed(table@),
            forall|j: int| i <= j < p.len() ==> p[j].0 != id@,
        decreases i,
    {
        if str_eq(table[i - 1].0.as_str(), id) {
            proof {
                lemma_table_last_at(p, id@, i - 1);
            }
            return Some(i - 1);
        }
        i = i - 1;
    }
    proof {
        lemma_table(p, id@);
        if table_last(p, id@) >= 0 {
            assert(p[table_last(p, id@)].0 == id@);
        }
    }
    None
}

/// The values of the first `n` pairs of `t` whose key is in `m`, in the
/// table's order; of several pairs with one key only the last counts.
pub open spec fn declared_upto<V>(t: Seq<(Seq<char>, V)>, m: Set<Seq<char>>, n: int) -> Seq<V>
    decreases n,
{
    if n <= 0 {
        Seq::empty()
    } else {
        let rest = declared_upto(t, m, n - 1);
        let i = n - 1;
        if m.contains(t[i].0) && table_last(t, t[i].0) == i {
            rest.push(t[i].1)
        } else {
            rest
        }
    }
}

/// The values of the pairs of `t` whose key is in `m`, in declaration
/// order (the last pair of a key counts).
pub open spec fn declared_matches<V>(t: Seq<(Seq<char>, V)>, m: Set<Seq<char>>) -> Seq<V> {
    declared_upto(t, m, t.len() as int)
}

/// Nothing matched, nothing declared is found.
pub proof fn lemma_declared_none<V>(t: Seq<(Seq<char>, V)>)
    ensures
        declared_matches(t, Set::<Seq<char>>::empty()) == Seq::<V>::empty(),
{
    assert forall|n: int| n <= t.len() implies declared_upto(t, Set::<Seq<char>>::empty(), n) == Seq::<V>::empty() by {
        lemma_declared_none_upto(t, n);
    }
}

proof fn lemma_declared_none_upto<V>(t: Seq<(Seq<char>, V)>, n: int)
    ensures
        declared_upto(t, Set::<Seq<char>>::empty(), n) == Seq::<V>::empty(),
    decreases n,
{
    if n > 0 {
        lemma_declared_none_upto(t, n - 1);
    }
}

/// No matched ids give nothing to look up.
pub proof fn lemma_nothing_matched<V>(t: Seq<(Seq<char>, V)>)
    ensures
        found_values(sorted_ids(Seq::<Seq<char>>::empty()), t) == Seq::<V>::empty(),
{
    broadcast use vstd::seq_lib::group_to_multiset_ensures;

    lemma_sorted_exists(Seq::<Seq<char>>::empty());
    let p = sorted_ids(Seq::<Seq<char>>::empty());
    assert(p.len() == p.to_multiset().len());
    assert(Seq::<Seq<char>>::empty().to_multiset().len() == 0);
    assert(p.len() == 0);
}

} // verus!
