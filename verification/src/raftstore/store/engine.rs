//! The key-value engine as the region state machine sees it: a
//! point-in-time view to read from, and a batch of writes that the engine
//! applies all at once or not at all.

use crate::proto::metapb::RegionView;
use crate::proto::raft_cmdpb::CfName;
use crate::proto::raft_serverpb::{PeerState, RaftApplyState, RaftLocalState, RegionLocalState};
use crate::util::codec::order::{lemma_lex_le_iff_not_gt, lex_le, lex_lt, to_vec};
use crate::util::sorted_map::{
    index_of, lemma_lower_bound, lemma_sorted_lookup, lower_bound, SortedMap,
};
use vstd::prelude::*;

verus! {

/// What one column family holds: byte values under byte keys.
pub type CfView = Map<Seq<u8>, Seq<u8>>;

/// What the engine holds at one point in time, one map per column family.
pub struct SnapshotView {
    pub default_cf: CfView,
    pub lock_cf: CfView,
}

impl SnapshotView {
    /// The column family `cf`.
    pub open spec fn cf(self, cf: CfName) -> CfView {
        match cf {
            CfName::Default => self.default_cf,
            CfName::Lock => self.lock_cf,
        }
    }

    /// The view with `key` set to `value` in `cf`.
    pub open spec fn put(self, cf: CfName, key: Seq<u8>, value: Seq<u8>) -> SnapshotView {
        match cf {
            CfName::Default => SnapshotView {
                default_cf: self.default_cf.insert(key, value),
                ..self
            },
            CfName::Lock => SnapshotView { lock_cf: self.lock_cf.insert(key, value), ..self },
        }
    }

    /// The view without `key` in `cf`.
    pub open spec fn delete(self, cf: CfName, key: Seq<u8>) -> SnapshotView {
        match cf {
            CfName::Default => SnapshotView { default_cf: self.default_cf.remove(key), ..self },
            CfName::Lock => SnapshotView { lock_cf: self.lock_cf.remove(key), ..self },
        }
    }

    /// The engine with nothing in it.
    pub open spec fn empty() -> SnapshotView {
        SnapshotView { default_cf: Map::empty(), lock_cf: Map::empty() }
    }
}

/// Whether `k` is the first key of `m` at or after `bound`.
pub open spec fn is_first_at_or_after(m: CfView, bound: Seq<u8>, k: Seq<u8>) -> bool {
    &&& m.dom().contains(k)
    &&& lex_le(bound, k)
    &&& forall|other: Seq<u8>| #[trigger]
        m.dom().contains(other) && lex_le(bound, other) ==> lex_le(k, other)
}

/// Whether `k` is the last key of `m` strictly before `bound`.
pub open spec fn is_last_before(m: CfView, bound: Seq<u8>, k: Seq<u8>) -> bool {
    &&& m.dom().contains(k)
    &&& lex_lt(k, bound)
    &&& forall|other: Seq<u8>| #[trigger]
        m.dom().contains(other) && lex_lt(other, bound) ==> lex_le(other, k)
}

/// The byte values of a map of byte vectors.
pub open spec fn bytes_of(m: Map<Seq<u8>, Vec<u8>>) -> CfView {
    Map::new(|k: Seq<u8>| m.dom().contains(k), |k: Seq<u8>| m[k]@)
}

/// One column family, in key order.
pub struct Cf {
    entries: SortedMap<Vec<u8>>,
}

impl Cf {
    pub closed spec fn wf(&self) -> bool {
        self.entries.wf()
    }

    /// What the column family holds.
    pub closed spec fn view(&self) -> CfView {
        bytes_of(self.entries@)
    }

    /// The keys held, in rising order.
    pub closed spec fn keys(&self) -> Seq<Seq<u8>> {
        Seq::new(self.entries.pairs().len(), |i: int| self.entries.pairs()[i].0)
    }

    /// The keys held rise strictly and are exactly the keys of the view.
    pub proof fn lemma_keys(&self)
        requires
            self.wf(),
        ensures
            forall|i: int, j: int|
                0 <= i < j < self.keys().len() ==> lex_lt(
                    #[trigger] self.keys()[i],
                    #[trigger] self.keys()[j],
                ),
            forall|i: int| 0 <= i < self.keys().len() ==> self@.dom().contains(#[trigger] self.keys()[i]),
            forall|k: Seq<u8>| #[trigger]
                self@.dom().contains(k) ==> exists|i: int|
                    0 <= i < self.keys().len() && #[trigger] self.keys()[i] == k,
    {
        let pairs = self.entries.pairs();
        assert forall|i: int, j: int| 0 <= i < j < self.keys().len() implies lex_lt(
            #[trigger] self.keys()[i],
            #[trigger] self.keys()[j],
        ) by {
            assert(lex_lt(pairs[i].0, pairs[j].0));
        }
        assert forall|i: int| 0 <= i < self.keys().len() implies self@.dom().contains(
            #[trigger] self.keys()[i],
        ) by {
            lemma_sorted_lookup(pairs, i);
        }
        assert forall|k: Seq<u8>| #[trigger] self@.dom().contains(k) implies exists|i: int|
            0 <= i < self.keys().len() && #[trigger] self.keys()[i] == k by {
            let i = index_of(pairs, k);
            assert(self.keys()[i] == k);
        }
    }

    pub fn new() -> (cf: Cf)
        ensures
            cf.wf(),
            cf@ == Map::<Seq<u8>, Seq<u8>>::empty(),
    {
        let cf = Cf { entries: SortedMap::new() };
        assert(cf@ =~= Map::<Seq<u8>, Seq<u8>>::empty());
        cf
    }

    /// The number of keys held.
    pub fn len(&self) -> (n: usize)
        ensures
            n == self.keys().len(),
    {
        self.entries.len()
    }

    /// The value under `key`, if any.
    pub fn get(&self, key: &[u8]) -> (r: Option<Vec<u8>>)
        requires
            self.wf(),
        ensures
            r is Some <==> self@.dom().contains(key@),
            r matches Some(v) ==> v@ == self@[key@],
    {
        match self.entries.get(key) {
            Some(v) => Some(to_vec(v.as_slice())),
            None => None,
        }
    }

    /// Sets `key` to `value`.
    pub fn put(&mut self, key: Vec<u8>, value: Vec<u8>)
        requires
            old(self).wf(),
        ensures
            final(self).wf(),
            final(self)@ == old(self)@.insert(key@, value@),
    {
        let _ = self.entries.insert(key, value);
        assert(self@ =~= old(self)@.insert(key@, value@));
    }

    /// Removes `key`.
    pub fn delete(&mut self, key: &[u8])
        requires
            old(self).wf(),
        ensures
            final(self).wf(),
            final(self)@ == old(self)@.remove(key@),
    {
        let _ = self.entries.remove(key);
        assert(self@ =~= old(self)@.remove(key@));
    }

    /// The place, in key order, of the first key at or after `key`; the
    /// number of keys if there is none.
    pub fn lower_bound(&self, key: &[u8]) -> (p: usize)
        requires
            self.wf(),
        ensures
            p <= self.keys().len(),
            forall|i: int| 0 <= i < p ==> lex_lt(#[trigger] self.keys()[i], key@),
            forall|i: int| p <= i < self.keys().len() ==> lex_le(key@, #[trigger] self.keys()[i]),
    {
        let p = self.entries.seek(key);
        proof {
            let pairs = self.entries.pairs();
            lemma_lower_bound(pairs, key@);
            assert forall|i: int| 0 <= i < p implies lex_lt(#[trigger] self.keys()[i], key@) by {
                assert(lex_lt(pairs[i].0, key@));
            }
            assert forall|i: int| p <= i < self.keys().len() implies lex_le(
                key@,
                #[trigger] self.keys()[i],
            ) by {
                assert(lex_le(key@, pairs[i].0));
            }
        }
        p
    }

    /// The key at place `i` of the key order.
    pub fn key_at(&self, i: usize) -> (k: Vec<u8>)
        requires
            i < self.keys().len(),
        ensures
            k@ == self.keys()[i as int],
    {
        to_vec(self.entries.key_at(i).as_slice())
    }

    /// The value under the key at place `i` of the key order.
    pub fn value_at(&self, i: usize) -> (v: Vec<u8>)
        requires
            self.wf(),
            i < self.keys().len(),
        ensures
            v@ == self@[self.keys()[i as int]],
    {
        proof {
            lemma_sorted_lookup(self.entries.pairs(), i as int);
        }
        to_vec(self.entries.value_at(i).as_slice())
    }

    /// The first entry at or after `key`, if any.
    pub fn seek(&self, key: &[u8]) -> (r: Option<(Vec<u8>, Vec<u8>)>)
        requires
            self.wf(),
        ensures
            match r {
                Some((k, v)) => is_first_at_or_after(self@, key@, k@) && v@ == self@[k@],
                None => forall|other: Seq<u8>| #[trigger]
                    self@.dom().contains(other) ==> lex_lt(other, key@),
            },
    {
        let p = self.lower_bound(key);
        proof {
            self.lemma_keys();
        }
        if p < self.len() {
            let k = self.key_at(p);
            let v = self.value_at(p);
            proof {
                assert forall|other: Seq<u8>| #[trigger]
                    self@.dom().contains(other) && lex_le(key@, other) implies lex_le(
                    k@,
                    other,
                ) by {
                    let i = choose|i: int| 0 <= i < self.keys().len() && #[trigger] self.keys()[i] == other;
                    if i < p {
                        lemma_lex_le_iff_not_gt(key@, other);
                    } else if i > p {
                        assert(lex_lt(self.keys()[p as int], self.keys()[i]));
                    }
                }
            }
            Some((k, v))
        } else {
            proof {
                assert forall|other: Seq<u8>| #[trigger] self@.dom().contains(other) implies lex_lt(
                    other,
                    key@,
                ) by {
                    let i = choose|i: int| 0 <= i < self.keys().len() && #[trigger] self.keys()[i] == other;
                }
            }
            None
        }
    }

    /// The last entry strictly before `key`, if any.
    pub fn reverse_seek(&self, key: &[u8]) -> (r: Option<(Vec<u8>, Vec<u8>)>)
        requires
            self.wf(),
        ensures
            match r {
                Some((k, v)) => is_last_before(self@, key@, k@) && v@ == self@[k@],
                None => forall|other: Seq<u8>| #[trigger]
                    self@.dom().contains(other) ==> lex_le(key@, other),
            },
    {
        let p = self.lower_bound(key);
        proof {
            self.lemma_keys();
        }
        if p > 0 {
            let k = self.key_at(p - 1);
            let v = self.value_at(p - 1);
            proof {
                assert forall|other: Seq<u8>| #[trigger]
                    self@.dom().contains(other) && lex_lt(other, key@) implies lex_le(
                    other,
                    k@,
                ) by {
                    let i = choose|i: int| 0 <= i < self.keys().len() && #[trigger] self.keys()[i] == other;
                    if i >= p {
                        lemma_lex_le_iff_not_gt(key@, other);
                    } else if i < p - 1 {
                        assert(lex_lt(self.keys()[i], self.keys()[p - 1]));
                    }
                }
            }
            Some((k, v))
        } else {
            proof {
                assert forall|other: Seq<u8>| #[trigger] self@.dom().contains(other) implies lex_le(
                    key@,
                    other,
                ) by {
                    let i = choose|i: int| 0 <= i < self.keys().len() && #[trigger] self.keys()[i] == other;
                }
            }
            None
        }
    }

    /// A copy of the column family.
    pub fn duplicate(&self) -> (cf: Cf)
        requires
            self.wf(),
        ensures
            cf.wf(),
            cf@ == self@,
    {
        let mut cf = Cf::new();
        let n = self.len();
        let mut i: usize = 0;
        proof {
            self.lemma_keys();
        }
        while i < n
            invariant
                self.wf(),
                cf.wf(),
                n == self.keys().len(),
                i <= n,
                forall|k: Seq<u8>| #[trigger]
                    cf@.dom().contains(k) <==> exists|j: int|
                        0 <= j < i && #[trigger] self.keys()[j] == k,
                forall|k: Seq<u8>| #[trigger] cf@.dom().contains(k) ==> cf@[k] == self@[k],
            decreases n - i,
        {
            let k = self.key_at(i);
            let v = self.value_at(i);
            let ghost before = cf@;
            cf.put(k, v);
            proof {
                assert forall|k2: Seq<u8>| #[trigger] cf@.dom().contains(k2) implies exists|j: int|
                    0 <= j < i + 1 && #[trigger] self.keys()[j] == k2 by {
                    if k2 == k@ {
                        assert(self.keys()[i as int] == k2);
                    } else {
                        assert(before.dom().contains(k2));
                        let j = choose|j: int| 0 <= j < i && #[trigger] self.keys()[j] == k2;
                        assert(self.keys()[j] == k2);
                    }
                }
                assert forall|k2: Seq<u8>|
                    (exists|j: int| 0 <= j < i + 1 && #[trigger] self.keys()[j] == k2) implies #[trigger]
                    cf@.dom().contains(k2) by {
                    let j = choose|j: int| 0 <= j < i + 1 && #[trigger] self.keys()[j] == k2;
                    if j < i {
                        assert(before.dom().contains(k2));
                    }
                }
            }
            i += 1;
        }
        proof {
            self.lemma_keys();
            assert forall|k: Seq<u8>| cf@.dom().contains(k) <==> self@.dom().contains(k) by {
                if self@.dom().contains(k) {
                    let j = choose|j: int| 0 <= j < self.keys().len() && #[trigger] self.keys()[j] == k;
                    assert(self.keys()[j] == k);
                }
                if cf@.dom().contains(k) {
                    let j = choose|j: int| 0 <= j < i && #[trigger] self.keys()[j] == k;
                    assert(self@.dom().contains(self.keys()[j]));
                }
            }
            assert(cf@ =~= self@);
        }
        cf
    }
}

/// A point-in-time view of the engine.
pub struct Snapshot {
    default_cf: Cf,
    lock_cf: Cf,
}

/// One write of a batch. Byte values go to a column family; the records of
/// a region go under their keys as values, for the embedding to encode.
#[derive(Debug, PartialEq, Eq)]
pub enum WriteOp {
    Put { cf: CfName, key: Vec<u8>, value: Vec<u8> },
    Delete { cf: CfName, key: Vec<u8> },
    PutRegionState { key: Vec<u8>, state: RegionLocalState },
    PutApplyState { key: Vec<u8>, state: RaftApplyState },
    PutRaftState { key: Vec<u8>, state: RaftLocalState },
}

/// A write as a mathematical value.
pub enum WriteOpView {
    Put { cf: CfName, key: Seq<u8>, value: Seq<u8> },
    Delete { cf: CfName, key: Seq<u8> },
    PutRegionState { key: Seq<u8>, state: PeerState, region: RegionView },
    PutApplyState { key: Seq<u8>, state: RaftApplyState },
    PutRaftState { key: Seq<u8>, state: RaftLocalState },
}

impl View for WriteOp {
    type V = WriteOpView;

    open spec fn view(&self) -> WriteOpView {
        match *self {
            WriteOp::Put { cf, key, value } => WriteOpView::Put { cf, key: key@, value: value@ },
            WriteOp::Delete { cf, key } => WriteOpView::Delete { cf, key: key@ },
            WriteOp::PutRegionState { key, state } => WriteOpView::PutRegionState {
                key: key@,
                state: state.state,
                region: state.region@,
            },
            WriteOp::PutApplyState { key, state } => WriteOpView::PutApplyState {
                key: key@,
                state,
            },
            WriteOp::PutRaftState { key, state } => WriteOpView::PutRaftState { key: key@, state },
        }
    }
}

/// What one write does to the byte values that the engine holds. The
/// records of a region are no byte values: they leave the view as it is.
pub open spec fn apply_write(s: SnapshotView, op: WriteOpView) -> SnapshotView {
    match op {
        WriteOpView::Put { cf, key, value } => s.put(cf, key, value),
        WriteOpView::Delete { cf, key } => s.delete(cf, key),
        _ => s,
    }
}

/// What a sequence of writes does, first to last.
pub open spec fn apply_writes(s: SnapshotView, ops: Seq<WriteOpView>) -> SnapshotView
    decreases ops.len(),
{
    if ops.len() == 0 {
        s
    } else {
        apply_write(apply_writes(s, ops.drop_last()), ops.last())
    }
}

/// Writes that the engine takes as one: all of them or none.
#[derive(Debug, PartialEq, Eq)]
pub struct WriteBatch {
    pub ops: Vec<WriteOp>,
}

impl View for WriteBatch {
    type V = Seq<WriteOpView>;

    open spec fn view(&self) -> Seq<WriteOpView> {
        Seq::new(self.ops@.len(), |i: int| self.ops@[i]@)
    }
}

impl WriteBatch {
    pub fn new() -> (wb: WriteBatch)
        ensures
            wb@ == Seq::<WriteOpView>::empty(),
    {
        let wb = WriteBatch { ops: Vec::new() };
        assert(wb@ =~= Seq::<WriteOpView>::empty());
        wb
    }

    /// Adds one write behind those already in the batch.
    pub fn push(&mut self, op: WriteOp)
        ensures
            final(self)@ == old(self)@.push(op@),
    {
        self.ops.push(op);
        assert(self@ =~= old(self)@.push(op@));
    }

    /// The number of writes in the batch.
    pub fn len(&self) -> (n: usize)
        ensures
            n == self@.len(),
    {
        self.ops.len()
    }
}

impl Snapshot {
    pub closed spec fn wf(&self) -> bool {
        self.default_cf.wf() && self.lock_cf.wf()
    }

    /// What the snapshot holds.
    pub closed spec fn view(&self) -> SnapshotView {
        SnapshotView { default_cf: self.default_cf@, lock_cf: self.lock_cf@ }
    }

    /// A snapshot of an engine with nothing in it.
    pub fn new() -> (s: Snapshot)
        ensures
            s.wf(),
            s@ == SnapshotView::empty(),
    {
        Snapshot { default_cf: Cf::new(), lock_cf: Cf::new() }
    }

    /// The keys that the column family `cf` holds, in rising order.
    pub closed spec fn keys(&self, cf: CfName) -> Seq<Seq<u8>> {
        match cf {
            CfName::Default => self.default_cf.keys(),
            CfName::Lock => self.lock_cf.keys(),
        }
    }

    /// The keys that a column family holds rise strictly and are exactly
    /// the keys of the view.
    pub proof fn lemma_keys(&self, cf: CfName)
        requires
            self.wf(),
        ensures
            forall|i: int, j: int|
                0 <= i < j < self.keys(cf).len() ==> lex_lt(
                    #[trigger] self.keys(cf)[i],
                    #[trigger] self.keys(cf)[j],
                ),
            forall|i: int|
                0 <= i < self.keys(cf).len() ==> self@.cf(cf).dom().contains(
                    #[trigger] self.keys(cf)[i],
                ),
            forall|k: Seq<u8>| #[trigger]
                self@.cf(cf).dom().contains(k) ==> exists|i: int|
                    0 <= i < self.keys(cf).len() && #[trigger] self.keys(cf)[i] == k,
    {
        let held = match cf {
            CfName::Default => self.default_cf,
            CfName::Lock => self.lock_cf,
        };
        held.lemma_keys();
        assert(held@ == self@.cf(cf));
        assert(held.keys() == self.keys(cf));
        assert forall|k: Seq<u8>| #[trigger] self@.cf(cf).dom().contains(k) implies exists|i: int|
            0 <= i < self.keys(cf).len() && #[trigger] self.keys(cf)[i] == k by {
            assert(held@.dom().contains(k));
        }
    }

    /// The column family `cf`.
    pub fn cf(&self, cf: CfName) -> (r: &Cf)
        requires
            self.wf(),
        ensures
            r.wf(),
            r@ == self@.cf(cf),
            r.keys() == self.keys(cf),
    {
        match cf {
            CfName::Default => &self.default_cf,
            CfName::Lock => &self.lock_cf,
        }
    }

    /// The value under `key` in the default column family.
    pub fn get_value(&self, key: &[u8]) -> (r: Option<Vec<u8>>)
        requires
            self.wf(),
        ensures
            r is Some <==> self@.default_cf.dom().contains(key@),
            r matches Some(v) ==> v@ == self@.default_cf[key@],
    {
        self.default_cf.get(key)
    }

    /// The value under `key` in the column family `cf`.
    pub fn get_value_cf(&self, cf: CfName, key: &[u8]) -> (r: Option<Vec<u8>>)
        requires
            self.wf(),
        ensures
            r is Some <==> self@.cf(cf).dom().contains(key@),
            r matches Some(v) ==> v@ == self@.cf(cf)[key@],
    {
        self.cf(cf).get(key)
    }

    /// The first entry of the default column family at or after `key`.
    pub fn seek(&self, key: &[u8]) -> (r: Option<(Vec<u8>, Vec<u8>)>)
        requires
            self.wf(),
        ensures
            match r {
                Some((k, v)) => is_first_at_or_after(self@.default_cf, key@, k@) && v@
                    == self@.default_cf[k@],
                None => forall|other: Seq<u8>| #[trigger]
                    self@.default_cf.dom().contains(other) ==> lex_lt(other, key@),
            },
    {
        self.default_cf.seek(key)
    }

    /// Sets `key` to `value` in `cf`.
    pub fn put_cf(&mut self, cf: CfName, key: Vec<u8>, value: Vec<u8>)
        requires
            old(self).wf(),
        ensures
            final(self).wf(),
            final(self)@ == old(self)@.put(cf, key@, value@),
    {
        match cf {
            CfName::Default => self.default_cf.put(key, value),
            CfName::Lock => self.lock_cf.put(key, value),
        }
    }

    /// Removes `key` from `cf`.
    pub fn delete_cf(&mut self, cf: CfName, key: &[u8])
        requires
            old(self).wf(),
        ensures
            final(self).wf(),
            final(self)@ == old(self)@.delete(cf, key@),
    {
        match cf {
            CfName::Default => self.default_cf.delete(key),
            CfName::Lock => self.lock_cf.delete(key),
        }
    }

    /// Applies the writes of `wb`, first to last.
    pub fn write(&mut self, wb: &WriteBatch)
        requires
            old(self).wf(),
        ensures
            final(self).wf(),
            final(self)@ == apply_writes(old(self)@, wb@),
    {
        let mut i: usize = 0;
        while i < wb.ops.len()
            invariant
                i <= wb.ops@.len(),
                self.wf(),
                self@ == apply_writes(old(self)@, wb@.subrange(0, i as int)),
            decreases wb.ops@.len() - i,
        {
            proof {
                assert(wb@.subrange(0, i + 1).drop_last() =~= wb@.subrange(0, i as int));
                assert(wb@.subrange(0, i + 1).last() == wb.ops@[i as int]@);
            }
            match &wb.ops[i] {
                WriteOp::Put { cf, key, value } => {
                    self.put_cf(*cf, to_vec(key.as_slice()), to_vec(value.as_slice()));
                },
                WriteOp::Delete { cf, key } => {
                    self.delete_cf(*cf, key.as_slice());
                },
                _ => {},
            }
            i += 1;
        }
        assert(wb@.subrange(0, i as int) =~= wb@);
    }

    /// A copy of the snapshot.
    pub fn duplicate(&self) -> (s: Snapshot)
        requires
            self.wf(),
        ensures
            s.wf(),
            s@ == self@,
    {
        Snapshot { default_cf: self.default_cf.duplicate(), lock_cf: self.lock_cf.duplicate() }
    }
}

} // verus!
