//! [`StringMap`] — a small map from strings to strings, used for the
//! numeric bounds of a scope and the numeric values of an action.

use vstd::prelude::*;

use crate::text::str_eq;

verus! {

/// The map that a list of `(key, value)` pairs denotes: later pairs win.
pub open spec fn pairs_to_map(p: Seq<(Seq<char>, Seq<char>)>) -> Map<Seq<char>, Seq<char>>
    decreases p.len(),
{
    if p.len() == 0 {
        Map::empty()
    } else {
        pairs_to_map(p.drop_last()).insert(p.last().0, p.last().1)
    }
}

/// Index of the last pair with key `k`, or -1.
pub open spec fn last_index_of(p: Seq<(Seq<char>, Seq<char>)>, k: Seq<char>) -> int
    decreases p.len(),
{
    if p.len() == 0 {
        -1
    } else if p.last().0 == k {
        p.len() - 1
    } else {
        last_index_of(p.drop_last(), k)
    }
}

pub proof fn lemma_pairs_to_map(p: Seq<(Seq<char>, Seq<char>)>, k: Seq<char>)
    ensures
        pairs_to_map(p).dom().finite(),
        -1 <= last_index_of(p, k) < p.len(),
        pairs_to_map(p).contains_key(k) == (last_index_of(p, k) >= 0),
        last_index_of(p, k) >= 0 ==> p[last_index_of(p, k)].0 == k && pairs_to_map(p)[k] == p[last_index_of(
            p,
            k,
        )].1,
        forall|j: int| last_index_of(p, k) < j < p.len() ==> p[j].0 != k,
    decreases p.len(),
{
    if p.len() > 0 {
        lemma_pairs_to_map(p.drop_last(), k);
        if p.last().0 != k {
            assert forall|j: int| last_index_of(p, k) < j < p.len() implies p[j].0 != k by {
                if j < p.len() - 1 {
                    assert(p[j] == p.drop_last()[j]);
                }
            }
        }
    }
}

/// Replacing the value of the last pair with key `k` is a map insert.
pub proof fn lemma_pairs_update(p: Seq<(Seq<char>, Seq<char>)>, k: Seq<char>, v: Seq<char>)
    requires
        last_index_of(p, k) >= 0,
    ensures
        pairs_to_map(p.update(last_index_of(p, k), (k, v))) == pairs_to_map(p).insert(k, v),
    decreases p.len(),
{
    let idx = last_index_of(p, k);
    let q = p.update(idx, (k, v));
    lemma_pairs_to_map(p, k);
    if idx == p.len() - 1 {
        assert(q.drop_last() =~= p.drop_last());
        assert(pairs_to_map(q) =~= pairs_to_map(p).insert(k, v));
    } else {
        lemma_pairs_to_map(p, k);
        assert(p.last().0 != k);
        assert(last_index_of(p.drop_last(), k) == idx);
        assert(q.drop_last() =~= p.drop_last().update(idx, (k, v)));
        lemma_pairs_update(p.drop_last(), k, v);
        assert(q.last() == p.last());
        assert(pairs_to_map(q) == pairs_to_map(q.drop_last()).insert(q.last().0, q.last().1));
        assert(pairs_to_map(p) == pairs_to_map(p.drop_last()).insert(p.last().0, p.last().1));
        assert(pairs_to_map(q) =~= pairs_to_map(p).insert(k, v));
    }
}

pub open spec fn pair_views(v: Seq<(String, String)>) -> Seq<(Seq<char>, Seq<char>)> {
    Seq::new(v.len(), |i: int| (v[i].0@, v[i].1@))
}

/// A map from strings to strings.
#[derive(Debug, Clone)]
pub struct StringMap {
    entries: Vec<(String, String)>,
}

impl View for StringMap {
    type V = Map<Seq<char>, Seq<char>>;

    closed spec fn view(&self) -> Map<Seq<char>, Seq<char>> {
        pairs_to_map(pair_views(self.entries@))
    }
}

impl StringMap {
    /// The stored pairs, in the order they are visited.
    pub closed spec fn pairs(&self) -> Seq<(Seq<char>, Seq<char>)> {
        pair_views(self.entries@)
    }

    /// Every stored key is a key of the map.
    pub proof fn lemma_pair_in_map(&self, i: int)
        requires
            0 <= i < self.pairs().len(),
        ensures
            self@.contains_key(self.pairs()[i].0),
    {
        lemma_pairs_to_map(self.pairs(), self.pairs()[i].0);
        if last_index_of(self.pairs(), self.pairs()[i].0) < 0 {
            assert(self.pairs()[i].0 != self.pairs()[i].0);
        }
    }

    /// Every key of the map is stored.
    pub proof fn lemma_key_stored(&self, k: Seq<char>)
        requires
            self@.contains_key(k),
        ensures
            exists|i: int| 0 <= i < self.pairs().len() && self.pairs()[i].0 == k,
    {
        lemma_pairs_to_map(self.pairs(), k);
        let i = last_index_of(self.pairs(), k);
        assert(0 <= i < self.pairs().len() && self.pairs()[i].0 == k);
    }

    /// The `i`-th stored pair is the last one with its key, so it gives
    /// that key's value.
    pub open spec fn is_current(&self, i: int) -> bool {
        0 <= i < self.pairs().len() && last_index_of(self.pairs(), self.pairs()[i].0) == i
    }

    /// A current pair's value is its key's value in the map.
    pub proof fn lemma_current_value(&self, i: int)
        requires
            self.is_current(i),
        ensures
            self@.contains_key(self.pairs()[i].0),
            self@[self.pairs()[i].0] == self.pairs()[i].1,
    {
        lemma_pairs_to_map(self.pairs(), self.pairs()[i].0);
    }

    /// Every key of the map has a current pair holding its value.
    pub proof fn lemma_key_current(&self, k: Seq<char>)
        requires
            self@.contains_key(k),
        ensures
            self.is_current(last_index_of(self.pairs(), k)),
            self.pairs()[last_index_of(self.pairs(), k)].0 == k,
            self@[k] == self.pairs()[last_index_of(self.pairs(), k)].1,
    {
        lemma_pairs_to_map(self.pairs(), k);
    }

    /// Whether the `i`-th stored pair is current.
    pub fn current_at(&self, i: usize) -> (r: bool)
        requires
            i < self.pairs().len(),
        ensures
            r == self.is_current(i as int),
    {
        match self.find(self.entries[i].0.as_str()) {
            Some(j) => j == i,
            None => {
                proof {
                    lemma_pairs_to_map(self.pairs(), self.pairs()[i as int].0);
                }
                false
            },
        }
    }

    /// The empty map.
    pub fn new() -> (m: StringMap)
        ensures
            m@ == Map::<Seq<char>, Seq<char>>::empty(),
            m.pairs().len() == 0,
    {
        let m = StringMap { entries: Vec::new() };
        assert(m.pairs() =~= Seq::<(Seq<char>, Seq<char>)>::empty());
        m
    }

    /// The map holding the given pairs; a later pair wins over an
    /// earlier one with the same key.
    pub fn from_pairs(pairs: Vec<(String, String)>) -> (m: StringMap)
        ensures
            m@ == pairs_to_map(pair_views(pairs@)),
    {
        let mut m = StringMap::new();
        let mut i: usize = 0;
        while i < pairs.len()
            invariant
                i <= pairs.len(),
                m@ == pairs_to_map(pair_views(pairs@).take(i as int)),
            decreases pairs.len() - i,
        {
            let k = pairs[i].0.clone();
            let v = pairs[i].1.clone();
            m.insert(k, v);
            assert(pair_views(pairs@).take(i + 1).drop_last() =~= pair_views(pairs@).take(i as int));
            i = i + 1;
        }
        assert(pair_views(pairs@).take(pairs.len() as int) =~= pair_views(pairs@));
        m
    }

    /// A copy of this map, pair for pair.
    pub fn duplicate(&self) -> (m: StringMap)
        ensures
            m.pairs() == self.pairs(),
            m@ == self@,
    {
        let mut entries: Vec<(String, String)> = Vec::new();
        let mut i: usize = 0;
        while i < self.entries.len()
            invariant
                i <= self.entries@.len(),
                entries@.len() == i,
                forall|j: int|
                    0 <= j < i ==> (#[trigger] entries@[j]).0@ == self.entries@[j].0@ && entries@[j].1@
                        == self.entries@[j].1@,
            decreases self.entries.len() - i,
        {
            entries.push((self.entries[i].0.clone(), self.entries[i].1.clone()));
            i = i + 1;
        }
        let m = StringMap { entries };
        assert(m.pairs() =~= self.pairs());
        m
    }

    /// Number of stored pairs (the map's size).
    pub fn entry_count(&self) -> (n: usize)
        ensures
            n == self.pairs().len(),
    {
        self.entries.len()
    }

    /// The key of the `i`-th stored pair.
    pub fn key_at(&self, i: usize) -> (k: &String)
        requires
            i < self.pairs().len(),
        ensures
            k@ == self.pairs()[i as int].0,
    {
        &self.entries[i].0
    }

    /// The value of the `i`-th stored pair.
    pub fn value_at(&self, i: usize) -> (v: &String)
        requires
            i < self.pairs().len(),
        ensures
            v@ == self.pairs()[i as int].1,
    {
        &self.entries[i].1
    }

    /// Index of the last stored pair with key `key`.
    fn find(&self, key: &str) -> (r: Option<usize>)
        ensures
            match r {
                Some(i) => i as int == last_index_of(self.pairs(), key@),
                None => last_index_of(self.pairs(), key@) == -1,
            },
    {
        let ghost p = self.pairs();
        let mut i: usize = self.entries.len();
        while i > 0
            invariant
                i <= self.entries.len(),
                p == self.pairs(),
                forall|j: int| i <= j < p.len() ==> p[j].0 != key@,
            decreases i,
        {
            if str_eq(self.entries[i - 1].0.as_str(), key) {
                proof {
                    lemma_last_index_from(p, key@, i - 1);
                }
                return Some(i - 1);
            }
            i = i - 1;
        }
        proof {
            lemma_pairs_to_map(p, key@);
            if last_index_of(p, key@) >= 0 {
                assert(p[last_index_of(p, key@)].0 == key@);
            }
        }
        None
    }

    /// The value for `key`, if any.
    pub fn get(&self, key: &str) -> (r: Option<&String>)
        ensures
            r.is_some() == self@.contains_key(key@),
            r matches Some(v) ==> v@ == self@[key@],
    {
        proof {
            lemma_pairs_to_map(self.pairs(), key@);
        }
        match self.find(key) {
            Some(i) => Some(&self.entries[i].1),
            None => None,
        }
    }

    /// Whether `key` has a value.
    pub fn contains_key(&self, key: &str) -> (r: bool)
        ensures
            r == self@.contains_key(key@),
    {
        self.get(key).is_some()
    }

    /// Set the value for `key`, replacing any previous one.
    pub fn insert(&mut self, key: String, value: String)
        ensures
            final(self)@ == old(self)@.insert(key@, value@),
    {
        proof {
            lemma_pairs_to_map(self.pairs(), key@);
        }
        match self.find(key.as_str()) {
            Some(i) => {
                let ghost p = self.pairs();
                let ghost kv = key@;
                let ghost vv = value@;
                self.entries.set(i, (key, value));
                proof {
                    assert(self.pairs() =~= p.update(i as int, (kv, vv)));
                    lemma_pairs_update(p, kv, vv);
                }
            },
            None => {
                let ghost p = self.pairs();
                let ghost kv = key@;
                let ghost vv = value@;
                self.entries.push((key, value));
                proof {
                    assert(self.pairs() =~= p.push((kv, vv)));
                    assert(self.pairs().drop_last() =~= p);
                }
            },
        }
    }

    /// Whether the two maps hold the same pairs.
    pub fn same_as(&self, other: &StringMap) -> (r: bool)
        ensures
            r == (self@ == other@),
    {
        let mut i: usize = 0;
        while i < self.entries.len()
            invariant
                i <= self.pairs().len(),
                forall|j: int|
                    0 <= j < i ==> other@.contains_key(#[trigger] self.pairs()[j].0) && other@[self.pairs()[j].0]
                        == self@[self.pairs()[j].0],
            decreases self.entries.len() - i,
        {
            let k = &self.entries[i].0;
            let mine = self.get(k.as_str());
            let theirs = other.get(k.as_str());
            proof {
                self.lemma_pair_in_map(i as int);
            }
            match (mine, theirs) {
                (Some(a), Some(b)) => {
                    if !str_eq(a.as_str(), b.as_str()) {
                        return false;
                    }
                },
                _ => {
                    return false;
                },
            }
            i = i + 1;
        }
        let mut j: usize = 0;
        while j < other.entries.len()
            invariant
                j <= other.pairs().len(),
                forall|t: int| 0 <= t < j ==> self@.contains_key(#[trigger] other.pairs()[t].0),
                forall|t: int|
                    0 <= t < self.pairs().len() ==> other@.contains_key(#[trigger] self.pairs()[t].0)
                        && other@[self.pairs()[t].0] == self@[self.pairs()[t].0],
            decreases other.entries.len() - j,
        {
            let k = &other.entries[j].0;
            proof {
                other.lemma_pair_in_map(j as int);
            }
            if !self.contains_key(k.as_str()) {
                return false;
            }
            j = j + 1;
        }
        proof {
            assert(j == other.pairs().len());
            assert forall|t: int| 0 <= t < other.pairs().len() implies self@.contains_key(
                #[trigger] other.pairs()[t].0,
            ) by {}
            assert forall|k: Seq<char>| #[trigger] self@.contains_key(k) implies other@.contains_key(k)
                && other@[k] == self@[k] by {
                self.lemma_key_stored(k);
                let t = choose|t: int| 0 <= t < self.pairs().len() && self.pairs()[t].0 == k;
                assert(self.pairs()[t].0 == k);
                assert(other@.contains_key(self.pairs()[t].0));
                assert(other@[self.pairs()[t].0] == self@[self.pairs()[t].0]);
            }
            assert forall|k: Seq<char>| #[trigger] other@.contains_key(k) implies self@.contains_key(k) by {
                other.lemma_key_stored(k);
                let t = choose|t: int| 0 <= t < other.pairs().len() && other.pairs()[t].0 == k;
                assert(other.pairs()[t].0 == k);
                assert(self@.contains_key(other.pairs()[t].0));
            }
            assert forall|k: Seq<char>| #[trigger] self@.dom().contains(k) == other@.dom().contains(k) by {
                if self@.contains_key(k) {
                    assert(other@.contains_key(k));
                }
                if other@.contains_key(k) {
                    assert(self@.contains_key(k));
                }
            }
            assert(self@.dom() =~= other@.dom());
            assert(self@ =~= other@);
        }
        true
    }
}

proof fn lemma_last_index_from(p: Seq<(Seq<char>, Seq<char>)>, k: Seq<char>, i: int)
    requires
        0 <= i < p.len(),
        p[i].0 == k,
        forall|j: int| i < j < p.len() ==> p[j].0 != k,
    ensures
        last_index_of(p, k) == i,
    decreases p.len(),
{
    if i < p.len() - 1 {
        assert(p.last().0 != k);
        assert forall|j: int| i < j < p.drop_last().len() implies p.drop_last()[j].0 != k by {
            assert(p.drop_last()[j] == p[j]);
        }
        lemma_last_index_from(p.drop_last(), k, i);
    }
}

} // verus!
