//! A map from byte-string keys to values that keeps its entries in key
//! order, so that it can be searched for the first key at or after a bound.

use crate::util::codec::order::{
    bytes_eq, bytes_lt, lemma_lex_irreflexive, lemma_lex_le_iff_not_gt, lemma_lex_transitive,
    lex_le, lex_lt,
};
use vstd::prelude::*;

verus! {

/// Entries sorted by key, each key once.
pub struct SortedMap<V> {
    entries: Vec<(Vec<u8>, V)>,
}

/// Whether the keys of `pairs` rise strictly from each entry to the next.
pub open spec fn strictly_sorted<V>(pairs: Seq<(Seq<u8>, V)>) -> bool {
    forall|i: int, j: int| 0 <= i < j < pairs.len() ==> lex_lt(#[trigger] pairs[i].0, #[trigger] pairs[j].0)
}

/// Whether some entry of `pairs` has the key `k`.
pub open spec fn has_key<V>(pairs: Seq<(Seq<u8>, V)>, k: Seq<u8>) -> bool {
    exists|i: int| 0 <= i < pairs.len() && #[trigger] pairs[i].0 == k
}

/// The place of an entry with key `k`, where there is one.
pub open spec fn index_of<V>(pairs: Seq<(Seq<u8>, V)>, k: Seq<u8>) -> int {
    choose|i: int| 0 <= i < pairs.len() && #[trigger] pairs[i].0 == k
}

/// The map that a sequence of entries stands for.
pub open spec fn pairs_to_map<V>(pairs: Seq<(Seq<u8>, V)>) -> Map<Seq<u8>, V> {
    Map::new(|k: Seq<u8>| has_key(pairs, k), |k: Seq<u8>| pairs[index_of(pairs, k)].1)
}

/// The number of entries of `pairs` whose key sorts strictly before `k`; in
/// a sorted sequence, the place of the first entry at or after `k`.
pub open spec fn lower_bound<V>(pairs: Seq<(Seq<u8>, V)>, k: Seq<u8>) -> int
    decreases pairs.len(),
{
    if pairs.len() == 0 {
        0
    } else if lex_lt(pairs[0].0, k) {
        1 + lower_bound(pairs.drop_first(), k)
    } else {
        0
    }
}

/// In a sorted sequence each key stands at one place only, and the map
/// gives it the value found there.
pub proof fn lemma_sorted_lookup<V>(pairs: Seq<(Seq<u8>, V)>, i: int)
    requires
        strictly_sorted(pairs),
        0 <= i < pairs.len(),
    ensures
        has_key(pairs, pairs[i].0),
        index_of(pairs, pairs[i].0) == i,
        pairs_to_map(pairs).dom().contains(pairs[i].0),
        pairs_to_map(pairs)[pairs[i].0] == pairs[i].1,
{
    let k = pairs[i].0;
    let j = index_of(pairs, k);
    lemma_lex_irreflexive(k);
    assert(j == i) by {
        if j < i {
            assert(lex_lt(pairs[j].0, pairs[i].0));
        } else if i < j {
            assert(lex_lt(pairs[i].0, pairs[j].0));
        }
    }
}

/// What `lower_bound` is in a sorted sequence: everything before it sorts
/// before `k`, everything from it on does not.
pub proof fn lemma_lower_bound<V>(pairs: Seq<(Seq<u8>, V)>, k: Seq<u8>)
    requires
        strictly_sorted(pairs),
    ensures
        0 <= lower_bound(pairs, k) <= pairs.len(),
        forall|i: int| 0 <= i < lower_bound(pairs, k) ==> lex_lt(#[trigger] pairs[i].0, k),
        forall|i: int|
            lower_bound(pairs, k) <= i < pairs.len() ==> lex_le(k, #[trigger] pairs[i].0),
    decreases pairs.len(),
{
    if pairs.len() > 0 {
        let rest = pairs.drop_first();
        assert forall|i: int, j: int| 0 <= i < j < rest.len() implies lex_lt(
            #[trigger] rest[i].0,
            #[trigger] rest[j].0,
        ) by {
            assert(rest[i] == pairs[i + 1]);
            assert(rest[j] == pairs[j + 1]);
        }
        lemma_lower_bound(rest, k);
        if lex_lt(pairs[0].0, k) {
            assert forall|i: int| 0 <= i < lower_bound(pairs, k) implies lex_lt(
                #[trigger] pairs[i].0,
                k,
            ) by {
                if i > 0 {
                    assert(pairs[i] == rest[i - 1]);
                }
            }
            assert forall|i: int| lower_bound(pairs, k) <= i < pairs.len() implies lex_le(
                k,
                #[trigger] pairs[i].0,
            ) by {
                assert(pairs[i] == rest[i - 1]);
            }
        } else {
            lemma_lex_le_iff_not_gt(k, pairs[0].0);
            assert forall|i: int| 0 <= i < pairs.len() implies lex_le(k, #[trigger] pairs[i].0) by {
                if i > 0 {
                    assert(lex_lt(pairs[0].0, pairs[i].0));
                    if k != pairs[0].0 {
                        lemma_lex_transitive(k, pairs[0].0, pairs[i].0);
                    }
                }
            }
        }
    }
}

/// A place that splits a sorted sequence into keys before `k` and keys at
/// or after `k` is the lower bound of `k`.
pub proof fn lemma_lower_bound_unique<V>(pairs: Seq<(Seq<u8>, V)>, k: Seq<u8>, p: int)
    requires
        strictly_sorted(pairs),
        0 <= p <= pairs.len(),
        forall|i: int| 0 <= i < p ==> lex_lt(#[trigger] pairs[i].0, k),
        forall|i: int| p <= i < pairs.len() ==> lex_le(k, #[trigger] pairs[i].0),
    ensures
        lower_bound(pairs, k) == p,
{
    lemma_lower_bound(pairs, k);
    let b = lower_bound(pairs, k);
    if b < p {
        assert(lex_lt(pairs[b].0, k));
        assert(lex_le(k, pairs[b].0));
        lemma_lex_le_iff_not_gt(k, pairs[b].0);
    } else if p < b {
        assert(lex_lt(pairs[p].0, k));
        assert(lex_le(k, pairs[p].0));
        lemma_lex_le_iff_not_gt(k, pairs[p].0);
    }
}

/// A key is in a sorted sequence exactly when it stands at its lower bound.
pub proof fn lemma_has_key_at_lower_bound<V>(pairs: Seq<(Seq<u8>, V)>, k: Seq<u8>)
    requires
        strictly_sorted(pairs),
    ensures
        has_key(pairs, k) <==> (lower_bound(pairs, k) < pairs.len() && pairs[lower_bound(
            pairs,
            k,
        )].0 == k),
        has_key(pairs, k) ==> index_of(pairs, k) == lower_bound(pairs, k),
{
    lemma_lower_bound(pairs, k);
    let b = lower_bound(pairs, k);
    lemma_lex_irreflexive(k);
    if has_key(pairs, k) {
        let i = index_of(pairs, k);
        if i < b {
            assert(lex_lt(pairs[i].0, k));
        } else if i > b {
            assert(lex_le(k, pairs[b].0));
            assert(lex_lt(pairs[b].0, pairs[i].0));
            lemma_lex_le_iff_not_gt(k, pairs[b].0);
        }
    }
}

impl<V> SortedMap<V> {
    /// The entries in key order, each key by its bytes.
    pub closed spec fn pairs(&self) -> Seq<(Seq<u8>, V)> {
        Seq::new(self.entries@.len(), |i: int| (self.entries@[i].0@, self.entries@[i].1))
    }

    /// The representation invariant: keys rise strictly.
    pub open spec fn wf(&self) -> bool {
        strictly_sorted(self.pairs())
    }

    /// The map held.
    pub open spec fn view(&self) -> Map<Seq<u8>, V> {
        pairs_to_map(self.pairs())
    }

    pub fn new() -> (m: SortedMap<V>)
        ensures
            m.wf(),
            m.pairs() == Seq::<(Seq<u8>, V)>::empty(),
            m@ == Map::<Seq<u8>, V>::empty(),
    {
        let m = SortedMap { entries: Vec::new() };
        assert(m.pairs() =~= Seq::<(Seq<u8>, V)>::empty());
        assert(m@ =~= Map::<Seq<u8>, V>::empty());
        m
    }

    /// Whether the map holds no entry.
    pub fn is_empty(&self) -> (b: bool)
        ensures
            b == (self.pairs().len() == 0),
    {
        self.entries.len() == 0
    }

    /// The number of entries.
    pub fn len(&self) -> (n: usize)
        ensures
            n == self.pairs().len(),
    {
        self.entries.len()
    }

    /// The key of the entry at place `i`.
    pub fn key_at(&self, i: usize) -> (k: &Vec<u8>)
        requires
            i < self.pairs().len(),
        ensures
            k@ == self.pairs()[i as int].0,
    {
        &self.entries[i].0
    }

    /// The value of the entry at place `i`.
    pub fn value_at(&self, i: usize) -> (v: &V)
        requires
            i < self.pairs().len(),
        ensures
            *v == self.pairs()[i as int].1,
    {
        &self.entries[i].1
    }

    /// The place of the first entry whose key is at or after `key`; the
    /// number of entries if there is none.
    pub fn seek(&self, key: &[u8]) -> (p: usize)
        requires
            self.wf(),
        ensures
            p == lower_bound(self.pairs(), key@),
            p <= self.pairs().len(),
    {
        let mut p: usize = 0;
        while p < self.entries.len() && bytes_lt(self.entries[p].0.as_slice(), key)
            invariant
                self.wf(),
                p <= self.pairs().len(),
                forall|i: int| 0 <= i < p ==> lex_lt(#[trigger] self.pairs()[i].0, key@),
            decreases self.pairs().len() - p,
        {
            p += 1;
        }
        proof {
            let pairs = self.pairs();
            assert forall|i: int| p <= i < pairs.len() implies lex_le(key@, #[trigger] pairs[i].0) by {
                lemma_lex_le_iff_not_gt(key@, pairs[p as int].0);
                if i > p {
                    assert(lex_lt(pairs[p as int].0, pairs[i].0));
                    if key@ != pairs[p as int].0 {
                        lemma_lex_transitive(key@, pairs[p as int].0, pairs[i].0);
                    }
                }
            }
            lemma_lower_bound_unique(pairs, key@, p as int);
        }
        p
    }

    /// The value stored under `key`, if any.
    pub fn get(&self, key: &[u8]) -> (r: Option<&V>)
        requires
            self.wf(),
        ensures
            r is Some <==> self@.dom().contains(key@),
            r matches Some(v) ==> *v == self@[key@],
    {
        let p = self.seek(key);
        proof {
            lemma_has_key_at_lower_bound(self.pairs(), key@);
        }
        if p < self.entries.len() && bytes_eq(self.entries[p].0.as_slice(), key) {
            Some(&self.entries[p].1)
        } else {
            None
        }
    }

    /// Whether an entry is stored under `key`.
    pub fn contains_key(&self, key: &[u8]) -> (r: bool)
        requires
            self.wf(),
        ensures
            r == self@.dom().contains(key@),
    {
        self.get(key).is_some()
    }

    /// Stores `value` under `key` and returns what was stored there before.
    pub fn insert(&mut self, key: Vec<u8>, value: V) -> (prev: Option<V>)
        requires
            old(self).wf(),
        ensures
            final(self).wf(),
            final(self)@ == old(self)@.insert(key@, value),
            prev is Some <==> old(self)@.dom().contains(key@),
            prev matches Some(v) ==> v == old(self)@[key@],
            old(self)@.dom().contains(key@) ==> final(self).pairs() == old(self).pairs().update(
                lower_bound(old(self).pairs(), key@),
                (key@, value),
            ),
            !old(self)@.dom().contains(key@) ==> final(self).pairs() == old(self).pairs().insert(
                lower_bound(old(self).pairs(), key@),
                (key@, value),
            ),
    {
        let p = self.seek(key.as_slice());
        let ghost before = self.pairs();
        proof {
            lemma_has_key_at_lower_bound(before, key@);
            lemma_lower_bound(before, key@);
        }
        if p < self.entries.len() && bytes_eq(self.entries[p].0.as_slice(), key.as_slice()) {
            let (_, old_value) = self.entries.remove(p);
            self.entries.insert(p, (key, value));
            proof {
                let after = self.pairs();
                assert(after =~= before.update(p as int, (key@, value)));
                assert forall|i: int, j: int| 0 <= i < j < after.len() implies lex_lt(
                    #[trigger] after[i].0,
                    #[trigger] after[j].0,
                ) by {
                    assert(after[i].0 == before[i].0);
                    assert(after[j].0 == before[j].0);
                }
                lemma_update_map(before, after, p as int, value);
            }
            Some(old_value)
        } else {
            self.entries.insert(p, (key, value));
            proof {
                let after = self.pairs();
                assert(after =~= before.insert(p as int, (key@, value)));
                lemma_insert_map(before, after, p as int, key@, value);
            }
            None
        }
    }

    /// Removes the entry stored under `key` and returns its value.
    pub fn remove(&mut self, key: &[u8]) -> (prev: Option<V>)
        requires
            old(self).wf(),
        ensures
            final(self).wf(),
            final(self)@ == old(self)@.remove(key@),
            prev is Some <==> old(self)@.dom().contains(key@),
            prev matches Some(v) ==> v == old(self)@[key@],
            old(self)@.dom().contains(key@) ==> final(self).pairs() == old(self).pairs().remove(
                lower_bound(old(self).pairs(), key@),
            ),
            !old(self)@.dom().contains(key@) ==> final(self).pairs() == old(self).pairs(),
    {
        let p = self.seek(key);
        let ghost before = self.pairs();
        proof {
            lemma_has_key_at_lower_bound(before, key@);
        }
        if p < self.entries.len() && bytes_eq(self.entries[p].0.as_slice(), key) {
            let (_, old_value) = self.entries.remove(p);
            proof {
                let after = self.pairs();
                assert(after =~= before.remove(p as int));
                lemma_remove_map(before, after, p as int);
            }
            Some(old_value)
        } else {
            assert(self@ =~= old(self)@.remove(key@));
            None
        }
    }
}

/// Replacing the value at one place of a sorted sequence updates the map at
/// that key.
proof fn lemma_update_map<V>(
    before: Seq<(Seq<u8>, V)>,
    after: Seq<(Seq<u8>, V)>,
    p: int,
    value: V,
)
    requires
        strictly_sorted(before),
        strictly_sorted(after),
        0 <= p < before.len(),
        after == before.update(p, (before[p].0, value)),
    ensures
        pairs_to_map(after) == pairs_to_map(before).insert(before[p].0, value),
{
    let key = before[p].0;
    let m0 = pairs_to_map(before);
    let m1 = pairs_to_map(after);
    assert forall|k: Seq<u8>| m1.dom().contains(k) <==> m0.insert(key, value).dom().contains(
        k,
    ) by {
        if has_key(after, k) {
            let i = index_of(after, k);
            assert(before[i].0 == k);
        }
        if has_key(before, k) {
            let i = index_of(before, k);
            assert(after[i].0 == k);
        }
        if k == key {
            assert(after[p].0 == k);
        }
    }
    assert forall|k: Seq<u8>| m1.dom().contains(k) implies m1[k] == m0.insert(key, value)[k] by {
        let i = index_of(after, k);
        lemma_sorted_lookup(after, i);
        assert(before[i].0 == k);
        lemma_sorted_lookup(before, i);
        if i == p {
            assert(after[i].1 == value);
        } else {
            assert(after[i] == before[i]);
            lemma_sorted_lookup(before, p);
        }
    }
    assert(m1 =~= m0.insert(key, value));
}

/// Putting a new key in at its lower bound keeps the sequence sorted and
/// adds the key to the map.
proof fn lemma_insert_map<V>(
    before: Seq<(Seq<u8>, V)>,
    after: Seq<(Seq<u8>, V)>,
    p: int,
    key: Seq<u8>,
    value: V,
)
    requires
        strictly_sorted(before),
        p == lower_bound(before, key),
        !has_key(before, key),
        after == before.insert(p, (key, value)),
    ensures
        strictly_sorted(after),
        pairs_to_map(after) == pairs_to_map(before).insert(key, value),
{
    lemma_lower_bound(before, key);
    assert forall|i: int, j: int| 0 <= i < j < after.len() implies lex_lt(
        #[trigger] after[i].0,
        #[trigger] after[j].0,
    ) by {
        if j < p {
            assert(after[i] == before[i] && after[j] == before[j]);
        } else if j == p {
            assert(after[i] == before[i]);
        } else if i < p {
            assert(after[i] == before[i] && after[j] == before[j - 1]);
            if j - 1 == i {
            }
            assert(lex_lt(before[i].0, key));
            assert(lex_le(key, before[j - 1].0));
            if key != before[j - 1].0 {
                lemma_lex_transitive(before[i].0, key, before[j - 1].0);
            }
        } else if i == p {
            assert(after[j] == before[j - 1]);
            assert(lex_le(key, before[j - 1].0));
            assert(before[j - 1].0 != key);
        } else {
            assert(after[i] == before[i - 1] && after[j] == before[j - 1]);
        }
    }
    let m0 = pairs_to_map(before);
    let m1 = pairs_to_map(after);
    assert forall|k: Seq<u8>| m1.dom().contains(k) <==> m0.insert(key, value).dom().contains(
        k,
    ) by {
        if has_key(after, k) {
            let i = index_of(after, k);
            if i < p {
                assert(before[i].0 == k);
            } else if i > p {
                assert(before[i - 1].0 == k);
            }
        }
        if has_key(before, k) {
            let i = index_of(before, k);
            if i < p {
                assert(after[i].0 == k);
            } else {
                assert(after[i + 1].0 == k);
            }
        }
        if k == key {
            assert(after[p].0 == k);
        }
    }
    assert forall|k: Seq<u8>| m1.dom().contains(k) implies m1[k] == m0.insert(key, value)[k] by {
        let i = index_of(after, k);
        lemma_sorted_lookup(after, i);
        lemma_lex_irreflexive(key);
        assert(after[p] == (key, value));
        if i < p {
            assert(after[i] == before[i]);
            assert(lex_lt(after[i].0, after[p].0));
            lemma_sorted_lookup(before, i);
        } else if i > p {
            assert(after[i] == before[i - 1]);
            assert(lex_lt(after[p].0, after[i].0));
            lemma_sorted_lookup(before, i - 1);
        }
    }
    assert(m1 =~= m0.insert(key, value));
}

/// Taking one entry out of a sorted sequence keeps it sorted and removes
/// the key from the map.
proof fn lemma_remove_map<V>(before: Seq<(Seq<u8>, V)>, after: Seq<(Seq<u8>, V)>, p: int)
    requires
        strictly_sorted(before),
        0 <= p < before.len(),
        after == before.remove(p),
    ensures
        strictly_sorted(after),
        pairs_to_map(after) == pairs_to_map(before).remove(before[p].0),
{
    let key = before[p].0;
    assert forall|i: int, j: int| 0 <= i < j < after.len() implies lex_lt(
        #[trigger] after[i].0,
        #[trigger] after[j].0,
    ) by {
        let bi = if i < p { i } else { i + 1 };
        let bj = if j < p { j } else { j + 1 };
        assert(after[i] == before[bi] && after[j] == before[bj]);
    }
    let m0 = pairs_to_map(before);
    let m1 = pairs_to_map(after);
    lemma_lex_irreflexive(key);
    assert forall|k: Seq<u8>| m1.dom().contains(k) <==> m0.remove(key).dom().contains(k) by {
        if has_key(after, k) {
            let i = index_of(after, k);
            let bi = if i < p { i } else { i + 1 };
            assert(before[bi].0 == k);
            if bi < p {
                assert(lex_lt(before[bi].0, before[p].0));
            } else {
                assert(lex_lt(before[p].0, before[bi].0));
            }
        }
        if has_key(before, k) && k != key {
            let i = index_of(before, k);
            let ai = if i < p { i } else { i - 1 };
            assert(after[ai].0 == k);
        }
    }
    assert forall|k: Seq<u8>| m1.dom().contains(k) implies m1[k] == m0.remove(key)[k] by {
        let i = index_of(after, k);
        lemma_sorted_lookup(after, i);
        let bi = if i < p { i } else { i + 1 };
        lemma_sorted_lookup(before, bi);
    }
    assert(m1 =~= m0.remove(key));
}

} // verus!
