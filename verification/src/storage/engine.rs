//! The key-value engine as transactions see it: a point-in-time view to
//! read from, and a list of modifications that is written as one.

use crate::proto::raft_cmdpb::CfName;
use crate::raftstore::store::engine::{Snapshot, SnapshotView};
use crate::storage::types::{Key, Value};
use crate::util::codec::order::to_vec;
use vstd::prelude::*;

verus! {

/// The column family of data and of pages of committed versions.
pub const DEFAULT_CFNAME: CfName = CfName::Default;

/// The column family of the current locks.
pub const LOCK_CFNAME: CfName = CfName::Lock;

/// One modification of the engine.
#[derive(Debug, PartialEq, Eq)]
pub enum Modify {
    Delete(CfName, Key),
    Put(CfName, Key, Value),
}

/// A modification as a mathematical value.
pub enum ModifyView {
    Delete(CfName, Seq<u8>),
    Put(CfName, Seq<u8>, Seq<u8>),
}

impl View for Modify {
    type V = ModifyView;

    open spec fn view(&self) -> ModifyView {
        match *self {
            Modify::Delete(cf, key) => ModifyView::Delete(cf, key@),
            Modify::Put(cf, key, value) => ModifyView::Put(cf, key@, value@),
        }
    }
}

/// The views of a list of modifications.
pub open spec fn modifies_view(v: Seq<Modify>) -> Seq<ModifyView> {
    Seq::new(v.len(), |i: int| v[i]@)
}

/// What one modification makes of the engine.
pub open spec fn apply_modify(s: SnapshotView, m: ModifyView) -> SnapshotView {
    match m {
        ModifyView::Delete(cf, key) => s.delete(cf, key),
        ModifyView::Put(cf, key, value) => s.put(cf, key, value),
    }
}

/// What a list of modifications makes of the engine, first to last.
pub open spec fn apply_modifies(s: SnapshotView, ms: Seq<ModifyView>) -> SnapshotView
    decreases ms.len(),
{
    if ms.len() == 0 {
        s
    } else {
        apply_modify(apply_modifies(s, ms.drop_last()), ms.last())
    }
}

/// Modifications applied one list after another are the two lists applied
/// as one.
pub proof fn lemma_apply_modifies_concat(s: SnapshotView, a: Seq<ModifyView>, b: Seq<ModifyView>)
    ensures
        apply_modifies(s, a + b) == apply_modifies(apply_modifies(s, a), b),
    decreases b.len(),
{
    if b.len() == 0 {
        assert(a + b =~= a);
    } else {
        lemma_apply_modifies_concat(s, a, b.drop_last());
        assert((a + b).drop_last() =~= a + b.drop_last());
        assert((a + b).last() == b.last());
    }
}

/// Where a request is meant to go. The engine in memory serves every
/// request itself and does not read it.
#[derive(Clone, Copy, Debug, PartialEq, Eq, Structural)]
pub struct Context {
    pub region_id: u64,
}

impl Context {
    pub fn new() -> (ctx: Context)
        ensures
            ctx.region_id == 0,
    {
        Context { region_id: 0 }
    }
}

/// A key-value engine in memory.
pub struct Engine {
    state: Snapshot,
}

impl Engine {
    pub closed spec fn wf(&self) -> bool {
        self.state.wf()
    }

    /// What the engine holds.
    pub closed spec fn view(&self) -> SnapshotView {
        self.state@
    }

    /// An engine with nothing in it.
    pub fn new() -> (e: Engine)
        ensures
            e.wf(),
            e@ == SnapshotView::empty(),
    {
        Engine { state: Snapshot::new() }
    }

    /// A view of the engine as it is now.
    pub fn snapshot(&self, ctx: &Context) -> (s: Snapshot)
        requires
            self.wf(),
        ensures
            s.wf(),
            s@ == self@,
    {
        self.state.duplicate()
    }

    /// Writes `modifies`, first to last, as one.
    pub fn write(&mut self, ctx: &Context, modifies: Vec<Modify>)
        requires
            old(self).wf(),
        ensures
            final(self).wf(),
            final(self)@ == apply_modifies(old(self)@, modifies_view(modifies@)),
    {
        let ghost all = modifies_view(modifies@);
        let mut i: usize = 0;
        proof {
            assert(all.subrange(0, 0) =~= Seq::<ModifyView>::empty());
        }
        while i < modifies.len()
            invariant
                i <= modifies@.len(),
                all == modifies_view(modifies@),
                self.wf(),
                self@ == apply_modifies(old(self)@, all.subrange(0, i as int)),
            decreases modifies@.len() - i,
        {
            proof {
                assert(all.subrange(0, i + 1).drop_last() =~= all.subrange(0, i as int));
                assert(all.subrange(0, i + 1).last() == modifies@[i as int]@);
            }
            match &modifies[i] {
                Modify::Delete(cf, key) => {
                    self.state.delete_cf(*cf, key.encoded.as_slice());
                },
                Modify::Put(cf, key, value) => {
                    self.state.put_cf(
                        *cf,
                        to_vec(key.encoded.as_slice()),
                        to_vec(value.as_slice()),
                    );
                },
            }
            i += 1;
        }
        proof {
            assert(all.subrange(0, i as int) =~= all);
        }
    }

    /// Sets `key` to `value` in the default column family.
    pub fn put(&mut self, ctx: &Context, key: Key, value: Value)
        requires
            old(self).wf(),
        ensures
            final(self).wf(),
            final(self)@ == old(self)@.put(CfName::Default, key@, value@),
    {
        self.state.put_cf(CfName::Default, key.encoded, value);
    }

    /// The value under `key` in the default column family.
    pub fn get(&self, ctx: &Context, key: &Key) -> (r: Option<Value>)
        requires
            self.wf(),
        ensures
            r is Some <==> self@.default_cf.dom().contains(key@),
            r matches Some(v) ==> v@ == self@.default_cf[key@],
    {
        self.state.get_value(key.encoded.as_slice())
    }
}

} // verus!
