//! Reading a key at a timestamp, and the operations of a transaction:
//! prewrite, commit and rollback.

use crate::proto::raft_cmdpb::CfName;
use crate::raftstore::store::engine::{CfView, Snapshot, SnapshotView};
use crate::storage::engine::{modifies_view, Modify, ModifyView};
use crate::storage::mvcc::errors::{Error, ErrorKind};
use crate::storage::mvcc::meta::{
    spec_lock_bytes, spec_meta_bytes, spec_parse_lock, spec_parse_meta, spec_split, Meta,
    MetaItem, MetaLock, MetaLockType, MetaLockView, MetaView, FIRST_META_INDEX, TS_LIMIT,
};
use crate::storage::types::{
    spec_append_meta_index, spec_append_ts, CodecError, Key, Mutation, Value,
};
use crate::util::codec::bytes::spec_decode_bytes;
use crate::util::codec::order::to_vec;
use vstd::prelude::*;

verus! {

/// What a walk through the pages of a key looks for: the newest version
/// committed at or before a timestamp, or the newest version whose
/// transaction began at or before a timestamp.
#[derive(Clone, Copy, Debug, PartialEq, Eq, Structural)]
pub enum Probe {
    CommittedBy(u64),
    StartedBy(u64),
}

/// Whether the version `item` is one that `probe` looks for.
pub open spec fn probe_hits(probe: Probe, item: MetaItem) -> bool {
    match probe {
        Probe::CommittedBy(ts) => item.commit_ts <= ts,
        Probe::StartedBy(ts) => item.start_ts <= ts,
    }
}

/// The first of `items` that `probe` looks for.
pub open spec fn first_hit(items: Seq<MetaItem>, probe: Probe) -> Option<MetaItem>
    decreases items.len(),
{
    if items.len() == 0 {
        None
    } else if probe_hits(probe, items[0]) {
        Some(items[0])
    } else {
        first_hit(items.drop_first(), probe)
    }
}

/// The page `index` of `key` in the snapshot: a page that is not stored
/// has no versions.
pub open spec fn spec_load_meta(s: SnapshotView, key: Seq<u8>, index: u64) -> Result<
    MetaView,
    ErrorKind,
> {
    let k = spec_append_meta_index(key, index);
    if s.default_cf.dom().contains(k) {
        match spec_parse_meta(s.default_cf[k]) {
            Some(m) => Ok(m),
            None => Err(ErrorKind::BadFormat),
        }
    } else {
        Ok(MetaView { items: Seq::empty(), next: None })
    }
}

/// The lock on `key` in the snapshot.
pub open spec fn spec_load_lock(s: SnapshotView, key: Seq<u8>) -> Result<
    Option<MetaLockView>,
    ErrorKind,
> {
    if s.lock_cf.dom().contains(key) {
        match spec_parse_lock(s.lock_cf[key]) {
            Some(l) => Ok(Some(l)),
            None => Err(ErrorKind::BadFormat),
        }
    } else {
        Ok(None)
    }
}

/// Whether page `next` can follow page `cur`: the first page may point to
/// any other page; any other page points to a page of a smaller index.
pub open spec fn valid_next(cur: u64, next: u64) -> bool {
    next != FIRST_META_INDEX && next < TS_LIMIT && (cur == FIRST_META_INDEX || next < cur)
}

/// How many pages can at most follow page `cur`.
pub open spec fn chain_measure(cur: u64) -> nat {
    if cur == FIRST_META_INDEX {
        TS_LIMIT as nat
    } else {
        cur as nat
    }
}

/// The walk from page `page`, which has the index `cur`, through the pages
/// behind it: the first version that `probe` looks for.
pub open spec fn spec_find(
    s: SnapshotView,
    key: Seq<u8>,
    page: MetaView,
    cur: u64,
    probe: Probe,
) -> Result<Option<MetaItem>, ErrorKind>
    decreases chain_measure(cur),
{
    match first_hit(page.items, probe) {
        Some(item) => Ok(Some(item)),
        None => match page.next {
            None => Ok(None),
            Some(n) => if !valid_next(cur, n) {
                Err(ErrorKind::BadChain)
            } else {
                match spec_load_meta(s, key, n) {
                    Err(e) => Err(e),
                    Ok(next_page) => spec_find(s, key, next_page, n, probe),
                }
            },
        },
    }
}

/// The value under `k` in the column family, if there is one.
pub open spec fn cf_get(m: CfView, k: Seq<u8>) -> Option<Seq<u8>> {
    if m.dom().contains(k) {
        Some(m[k])
    } else {
        None
    }
}

/// What a read of `key` at `ts` finds, starting from the first page
/// `first_meta`: the value that the newest version committed at or before
/// `ts` wrote; nothing if there is no such version, or if the version
/// deleted the key.
pub open spec fn spec_get_impl(s: SnapshotView, key: Seq<u8>, first_meta: MetaView, ts: u64) -> Result<
    Option<Seq<u8>>,
    ErrorKind,
> {
    match spec_find(s, key, first_meta, FIRST_META_INDEX, Probe::CommittedBy(ts)) {
        Err(e) => Err(e),
        Ok(None) => Ok(None),
        Ok(Some(item)) => Ok(cf_get(s.default_cf, spec_append_ts(key, item.start_ts))),
    }
}

/// The timestamp at which the transaction that began at `start_ts`
/// committed `key`, if it did.
pub open spec fn spec_txn_commit_ts(
    s: SnapshotView,
    key: Seq<u8>,
    first_meta: MetaView,
    start_ts: u64,
) -> Result<Option<u64>, ErrorKind> {
    match spec_find(s, key, first_meta, FIRST_META_INDEX, Probe::StartedBy(start_ts)) {
        Err(e) => Err(e),
        Ok(None) => Ok(None),
        Ok(Some(item)) => Ok(
            if item.start_ts == start_ts {
                Some(item.commit_ts)
            } else {
                None
            },
        ),
    }
}

/// The lock, if it is held by a transaction that began at or before `ts`.
pub open spec fn blocking_lock(lock: Option<MetaLockView>, ts: u64) -> Option<MetaLockView> {
    match lock {
        Some(l) => if l.start_ts <= ts {
            Some(l)
        } else {
            None
        },
        None => None,
    }
}

/// The lock, if it is held by another transaction than the one that began
/// at `start_ts`.
pub open spec fn foreign_lock(lock: Option<MetaLockView>, start_ts: u64) -> Option<MetaLockView> {
    match lock {
        Some(l) => if l.start_ts != start_ts {
            Some(l)
        } else {
            None
        },
        None => None,
    }
}

/// The lock, if it is held by the transaction that began at `start_ts`.
pub open spec fn own_lock(lock: Option<MetaLockView>, start_ts: u64) -> Option<MetaLockView> {
    match lock {
        Some(l) => if l.start_ts == start_ts {
            Some(l)
        } else {
            None
        },
        None => None,
    }
}

/// The error that tells a reader that `key` is locked by `lock`.
pub open spec fn key_is_locked(key: Seq<u8>, lock: MetaLockView) -> ErrorKind {
    match spec_decode_bytes(key) {
        Some((raw, _)) => ErrorKind::KeyIsLocked {
            key: raw,
            primary: lock.primary_key,
            ts: lock.start_ts,
        },
        None => ErrorKind::Codec { err: CodecError::KeyPadding },
    }
}

/// What a read of `key` at `ts` finds. A lock of a transaction that began
/// at or before `ts` stops the read: the transaction may yet commit a
/// version that the read would have to see.
pub open spec fn spec_get(s: SnapshotView, key: Seq<u8>, ts: u64) -> Result<
    Option<Seq<u8>>,
    ErrorKind,
> {
    match spec_load_lock(s, key) {
        Err(e) => Err(e),
        Ok(lock) => match blocking_lock(lock, ts) {
            Some(l) => Err(key_is_locked(key, l)),
            None => match spec_load_meta(s, key, FIRST_META_INDEX) {
                Err(e) => Err(e),
                Ok(meta) => spec_get_impl(s, key, meta, ts),
            },
        },
    }
}

/// The kind of lock that a mutation takes.
pub open spec fn spec_meta_lock_type(mutation: &Mutation) -> MetaLockType {
    match *mutation {
        Mutation::Put(_) => MetaLockType::ReadWrite,
        Mutation::Delete(_) => MetaLockType::ReadWrite,
        Mutation::Lock(_) => MetaLockType::ReadOnly,
    }
}

/// What an operation of a transaction did: how it ended, and what it added
/// to the modifications of the transaction.
pub struct Outcome<T> {
    pub result: Result<T, ErrorKind>,
    pub writes: Seq<ModifyView>,
}

/// An operation that failed with `e` and added nothing.
pub open spec fn failed<T>(e: ErrorKind) -> Outcome<T> {
    Outcome { result: Err(e), writes: Seq::empty() }
}

/// What a prewrite by the transaction that began at `start_ts` does.
///
/// It fails with `WriteConflict` if a version of the key was committed at
/// or after `start_ts`, and with `KeyIsLocked` if another transaction holds
/// the lock. Else it takes the lock, and a put stores its value under the
/// key and `start_ts`.
pub open spec fn spec_prewrite(
    s: SnapshotView,
    start_ts: u64,
    mutation: &Mutation,
    primary: Seq<u8>,
) -> Outcome<()> {
    let key = mutation.spec_key();
    match spec_load_meta(s, key, FIRST_META_INDEX) {
        Err(e) => failed(e),
        Ok(meta) => if meta.items.len() > 0 && meta.items[0].commit_ts >= start_ts {
            // Abort on writes after our start timestamp ...
            failed(ErrorKind::WriteConflict)
        } else {
            match spec_load_lock(s, key) {
                Err(e) => failed(e),
                // ... or locks at any timestamp.
                Ok(lock) => match foreign_lock(lock, start_ts) {
                    Some(l) => failed(key_is_locked(key, l)),
                    None => Outcome {
                        result: Ok(()),
                        writes: seq![
                            ModifyView::Put(
                                CfName::Lock,
                                key,
                                spec_lock_bytes(
                                    MetaLockView {
                                        lock_type: spec_meta_lock_type(mutation),
                                        primary_key: primary,
                                        start_ts,
                                    },
                                ),
                            ),
                        ] + (match *mutation {
                            Mutation::Put((_, value)) => seq![
                                ModifyView::Put(
                                    CfName::Default,
                                    spec_append_ts(key, start_ts),
                                    value@,
                                ),
                            ],
                            _ => Seq::empty(),
                        }),
                    },
                },
            }
        },
    }
}

/// The modifications that store the first page `meta` of `key`: the page
/// is split if it is due, and the new page is stored before the first.
pub open spec fn spec_write_meta(key: Seq<u8>, meta: MetaView) -> Seq<ModifyView> {
    match spec_split(meta) {
        Some((stays, created, index)) => seq![
            ModifyView::Put(
                CfName::Default,
                spec_append_meta_index(key, index),
                spec_meta_bytes(created),
            ),
            ModifyView::Put(
                CfName::Default,
                spec_append_meta_index(key, FIRST_META_INDEX),
                spec_meta_bytes(stays),
            ),
        ],
        None => seq![
            ModifyView::Put(
                CfName::Default,
                spec_append_meta_index(key, FIRST_META_INDEX),
                spec_meta_bytes(meta),
            ),
        ],
    }
}

/// What the commit of `key` at `commit_ts` does to the first page `meta`
/// and to the lock.
///
/// If the transaction holds the lock, the lock is released, and a lock that
/// protected a write leaves a version in front of the page. If it does
/// not, the commit succeeds if the transaction has committed the key
/// already, and fails with `TxnLockNotFound` otherwise.
pub open spec fn spec_commit_impl(
    s: SnapshotView,
    start_ts: u64,
    key: Seq<u8>,
    commit_ts: u64,
    meta: MetaView,
) -> Outcome<MetaView> {
    match spec_load_lock(s, key) {
        Err(e) => failed(e),
        Ok(lock) => match own_lock(lock, start_ts) {
            Some(l) => Outcome {
                result: Ok(
                    if l.lock_type == MetaLockType::ReadWrite {
                        MetaView {
                            items: seq![MetaItem { start_ts, commit_ts }] + meta.items,
                            next: meta.next,
                        }
                    } else {
                        meta
                    },
                ),
                writes: seq![ModifyView::Delete(CfName::Lock, key)],
            },
            None => match spec_txn_commit_ts(s, key, meta, start_ts) {
                Err(e) => failed(e),
                // Committed by concurrent transaction.
                Ok(Some(_)) => Outcome { result: Ok(meta), writes: Seq::empty() },
                // Rollbacked by concurrent transaction.
                Ok(None) => failed(ErrorKind::TxnLockNotFound),
            },
        },
    }
}

/// What the commit of `key` at `commit_ts` does.
pub open spec fn spec_commit(s: SnapshotView, start_ts: u64, key: Seq<u8>, commit_ts: u64) -> Outcome<
    (),
> {
    match spec_load_meta(s, key, FIRST_META_INDEX) {
        Err(e) => failed(e),
        Ok(meta) => {
            let done = spec_commit_impl(s, start_ts, key, commit_ts, meta);
            match done.result {
                Err(e) => failed(e),
                Ok(meta) => Outcome {
                    result: Ok(()),
                    writes: done.writes + spec_write_meta(key, meta),
                },
            }
        },
    }
}

/// What the commit of `key` at `commit_ts`, followed by a read at
/// `get_ts`, does.
pub open spec fn spec_commit_then_get(
    s: SnapshotView,
    start_ts: u64,
    key: Seq<u8>,
    commit_ts: u64,
    get_ts: u64,
) -> Outcome<Option<Seq<u8>>> {
    match spec_load_meta(s, key, FIRST_META_INDEX) {
        Err(e) => failed(e),
        Ok(meta) => {
            let done = spec_commit_impl(s, start_ts, key, commit_ts, meta);
            match done.result {
                Err(e) => failed(e),
                Ok(meta) => match spec_get_impl(s, key, meta, get_ts) {
                    Err(e) => Outcome { result: Err(e), writes: done.writes },
                    Ok(res) => Outcome {
                        result: Ok(res),
                        writes: done.writes + spec_write_meta(key, meta),
                    },
                },
            }
        },
    }
}

/// What the rollback of `key` does to the lock and to the value that the
/// prewrite stored.
///
/// If the transaction holds the lock, the lock is released and the value
/// is deleted. If it does not, the rollback fails with `AlreadyCommitted`
/// if the transaction has committed the key, and succeeds otherwise.
pub open spec fn spec_rollback_impl(s: SnapshotView, start_ts: u64, key: Seq<u8>, meta: MetaView) -> Outcome<
    (),
> {
    match spec_load_lock(s, key) {
        Err(e) => failed(e),
        Ok(lock) => match own_lock(lock, start_ts) {
            Some(l) => Outcome {
                result: Ok(()),
                writes: seq![
                    ModifyView::Delete(CfName::Default, spec_append_ts(key, l.start_ts)),
                    ModifyView::Delete(CfName::Lock, key),
                ],
            },
            None => match spec_txn_commit_ts(s, key, meta, start_ts) {
                Err(e) => failed(e),
                // Already committed by concurrent transaction.
                Ok(Some(ts)) => failed(ErrorKind::AlreadyCommitted { commit_ts: ts }),
                // Rollbacked by concurrent transaction.
                Ok(None) => Outcome { result: Ok(()), writes: Seq::empty() },
            },
        },
    }
}

/// What the rollback of `key` does.
pub open spec fn spec_rollback(s: SnapshotView, start_ts: u64, key: Seq<u8>) -> Outcome<()> {
    match spec_load_meta(s, key, FIRST_META_INDEX) {
        Err(e) => failed(e),
        Ok(meta) => {
            let done = spec_rollback_impl(s, start_ts, key, meta);
            match done.result {
                Err(e) => failed(e),
                Ok(()) => Outcome {
                    result: Ok(()),
                    writes: done.writes + spec_write_meta(key, meta),
                },
            }
        },
    }
}

/// What the rollback of `key`, followed by a read at the start timestamp
/// of the transaction, does.
pub open spec fn spec_rollback_then_get(s: SnapshotView, start_ts: u64, key: Seq<u8>) -> Outcome<
    Option<Seq<u8>>,
> {
    match spec_load_meta(s, key, FIRST_META_INDEX) {
        Err(e) => failed(e),
        Ok(meta) => {
            let done = spec_rollback_impl(s, start_ts, key, meta);
            match done.result {
                Err(e) => failed(e),
                Ok(()) => match spec_get_impl(s, key, meta, start_ts) {
                    Err(e) => Outcome { result: Err(e), writes: done.writes },
                    Ok(res) => Outcome {
                        result: Ok(res),
                        writes: done.writes + spec_write_meta(key, meta),
                    },
                },
            }
        },
    }
}

/// The view of a result that holds a value or nothing.
pub open spec fn value_result_view(r: Result<Option<Value>, Error>) -> Result<
    Option<Seq<u8>>,
    ErrorKind,
> {
    match r {
        Ok(Some(v)) => Ok(Some(v@)),
        Ok(None) => Ok(None),
        Err(e) => Err(e@),
    }
}

/// The view of a result that holds nothing.
pub open spec fn unit_result_view(r: Result<(), Error>) -> Result<(), ErrorKind> {
    match r {
        Ok(()) => Ok(()),
        Err(e) => Err(e@),
    }
}

/// The kind of lock that a mutation takes.
fn meta_lock_type(mutation: &Mutation) -> (t: MetaLockType)
    ensures
        t == spec_meta_lock_type(mutation),
{
    match mutation {
        Mutation::Put(_) => MetaLockType::ReadWrite,
        Mutation::Delete(_) => MetaLockType::ReadWrite,
        Mutation::Lock(_) => MetaLockType::ReadOnly,
    }
}

/// The first of `items` that `probe` looks for.
fn first_hit_in(items: &Vec<MetaItem>, probe: Probe) -> (r: Option<MetaItem>)
    ensures
        r == first_hit(items@, probe),
{
    let mut i: usize = 0;
    proof {
        assert(items@.skip(0) =~= items@);
    }
    while i < items.len()
        invariant
            i <= items@.len(),
            first_hit(items@, probe) == first_hit(items@.skip(i as int), probe),
        decreases items@.len() - i,
    {
        let item = items[i];
        proof {
            assert(items@.skip(i as int)[0] == item);
            assert(items@.skip(i as int).drop_first() =~= items@.skip(i + 1));
        }
        let hit = match probe {
            Probe::CommittedBy(ts) => item.commit_ts <= ts,
            Probe::StartedBy(ts) => item.start_ts <= ts,
        };
        if hit {
            return Some(item);
        }
        i += 1;
    }
    None
}

/// A view of the engine to read from at the timestamp `start_ts`.
pub struct MvccSnapshot<'a> {
    pub snapshot: &'a Snapshot,
    pub start_ts: u64,
}

impl<'a> MvccSnapshot<'a> {
    pub fn new(snapshot: &'a Snapshot, start_ts: u64) -> (s: MvccSnapshot<'a>)
        ensures
            s.snapshot == snapshot,
            s.start_ts == start_ts,
    {
        MvccSnapshot { snapshot, start_ts }
    }

    /// The lock on `key`.
    pub fn load_lock(&self, key: &Key) -> (r: Result<Option<MetaLock>, Error>)
        requires
            self.snapshot.wf(),
        ensures
            match spec_load_lock(self.snapshot@, key@) {
                Err(e) => r matches Err(err) && err@ == e,
                Ok(None) => r matches Ok(None),
                Ok(Some(l)) => r matches Ok(Some(lock)) && lock@ == l,
            },
    {
        match self.snapshot.get_value_cf(CfName::Lock, key.encoded.as_slice()) {
            Some(x) => match MetaLock::parse(x.as_slice()) {
                Some(lock) => Ok(Some(lock)),
                None => Err(Error::BadFormat),
            },
            None => Ok(None),
        }
    }

    /// The page `index` of `key`.
    pub fn load_meta(&self, key: &Key, index: u64) -> (r: Result<Meta, Error>)
        requires
            self.snapshot.wf(),
        ensures
            match spec_load_meta(self.snapshot@, key@, index) {
                Err(e) => r matches Err(err) && err@ == e,
                Ok(m) => r matches Ok(meta) && meta@ == m,
            },
    {
        match self.snapshot.get_value(key.append_meta_index(index).encoded.as_slice()) {
            Some(x) => match Meta::parse(x.as_slice()) {
                Some(meta) => Ok(meta),
                None => Err(Error::BadFormat),
            },
            None => Ok(Meta::new()),
        }
    }

    /// Walks from the first page `first_meta` of `key` through the pages
    /// behind it, up to the first version that `probe` looks for.
    pub fn find(&self, key: &Key, first_meta: &Meta, probe: Probe) -> (r: Result<
        Option<MetaItem>,
        Error,
    >)
        requires
            self.snapshot.wf(),
        ensures
            match spec_find(self.snapshot@, key@, first_meta@, FIRST_META_INDEX, probe) {
                Err(e) => r matches Err(err) && err@ == e,
                Ok(item) => r == Ok::<Option<MetaItem>, Error>(item),
            },
    {
        if let Some(x) = first_hit_in(&first_meta.items, probe) {
            return Ok(Some(x));
        }
        let ghost s = self.snapshot@;
        let ghost goal = spec_find(s, key@, first_meta@, FIRST_META_INDEX, probe);
        let mut next = first_meta.next;
        let mut cur = FIRST_META_INDEX;
        loop
            invariant
                self.snapshot.wf(),
                s == self.snapshot@,
                goal == spec_find(self.snapshot@, key@, first_meta@, FIRST_META_INDEX, probe),
                goal == match next {
                    None => Ok(None),
                    Some(n) => if !valid_next(cur, n) {
                        Err(ErrorKind::BadChain)
                    } else {
                        match spec_load_meta(s, key@, n) {
                            Err(e) => Err(e),
                            Ok(next_page) => spec_find(s, key@, next_page, n, probe),
                        }
                    },
                },
            ensures
                goal == Ok::<Option<MetaItem>, ErrorKind>(None),
            decreases chain_measure(cur),
        {
            let n = match next {
                None => {
                    break ;
                },
                Some(n) => n,
            };
            if n == FIRST_META_INDEX || n >= TS_LIMIT || (cur != FIRST_META_INDEX && n >= cur) {
                return Err(Error::BadChain);
            }
            let meta = match self.load_meta(key, n) {
                Err(e) => {
                    return Err(e);
                },
                Ok(m) => m,
            };
            if let Some(x) = first_hit_in(&meta.items, probe) {
                return Ok(Some(x));
            }
            cur = n;
            next = meta.next;
        }
        Ok(None)
    }

    /// Reads `key` at the timestamp of the snapshot.
    pub fn get(&self, key: &Key) -> (r: Result<Option<Value>, Error>)
        requires
            self.snapshot.wf(),
        ensures
            value_result_view(r) == spec_get(self.snapshot@, key@, self.start_ts),
    {
        // Check for locks that signal concurrent writes.
        let lock = match self.load_lock(key) {
            Err(e) => {
                return Err(e);
            },
            Ok(l) => l,
        };
        if let Some(lock) = lock {
            if lock.start_ts <= self.start_ts {
                // There is a pending lock. Client should wait or clean it.
                return Err(locked_error(key, lock));
            }
        }
        let meta = match self.load_meta(key, FIRST_META_INDEX) {
            Err(e) => {
                return Err(e);
            },
            Ok(m) => m,
        };
        self.get_impl(key, &meta, self.start_ts)
    }

    /// Reads `key` at `ts`, starting from its first page `first_meta`.
    pub fn get_impl(&self, key: &Key, first_meta: &Meta, ts: u64) -> (r: Result<
        Option<Value>,
        Error,
    >)
        requires
            self.snapshot.wf(),
        ensures
            value_result_view(r) == spec_get_impl(self.snapshot@, key@, first_meta@, ts),
    {
        // Find the latest write below our start timestamp.
        match self.find(key, first_meta, Probe::CommittedBy(ts)) {
            Err(e) => Err(e),
            Ok(None) => Ok(None),
            Ok(Some(x)) => {
                let data_key = key.append_ts(x.start_ts);
                Ok(self.snapshot.get_value(data_key.encoded.as_slice()))
            },
        }
    }

    /// The timestamp at which the transaction that began at `start_ts`
    /// committed `key`, if it did.
    pub fn get_txn_commit_ts(&self, key: &Key, first_meta: &Meta, start_ts: u64) -> (r: Result<
        Option<u64>,
        Error,
    >)
        requires
            self.snapshot.wf(),
        ensures
            match spec_txn_commit_ts(self.snapshot@, key@, first_meta@, start_ts) {
                Err(e) => r matches Err(err) && err@ == e,
                Ok(ts) => r == Ok::<Option<u64>, Error>(ts),
            },
    {
        match self.find(key, first_meta, Probe::StartedBy(start_ts)) {
            Err(e) => Err(e),
            Ok(None) => Ok(None),
            Ok(Some(x)) => if x.start_ts == start_ts {
                Ok(Some(x.commit_ts))
            } else {
                Ok(None)
            },
        }
    }
}

/// The error that tells a reader that `key` is locked by `lock`.
fn locked_error(key: &Key, lock: MetaLock) -> (e: Error)
    ensures
        e@ == key_is_locked(key@, lock@),
{
    match key.raw() {
        Ok(raw) => Error::KeyIsLocked { key: raw, primary: lock.primary_key, ts: lock.start_ts },
        Err(err) => Error::Codec { err },
    }
}

/// A transaction: a snapshot at its start timestamp, and the modifications
/// that its operations have asked for so far.
pub struct MvccTxn<'a> {
    pub snapshot: MvccSnapshot<'a>,
    pub start_ts: u64,
    pub writes: Vec<Modify>,
}

impl<'a> MvccTxn<'a> {
    /// The representation invariant.
    pub open spec fn wf(&self) -> bool {
        self.snapshot.snapshot.wf() && self.snapshot.start_ts == self.start_ts
    }

    /// What the transaction reads from.
    pub open spec fn view(&self) -> SnapshotView {
        self.snapshot.snapshot@
    }

    /// The modifications asked for so far.
    pub open spec fn spec_writes(&self) -> Seq<ModifyView> {
        modifies_view(self.writes@)
    }

    /// Whether `after` is this transaction with `added` behind its
    /// modifications.
    pub open spec fn extended_by(&self, after: &MvccTxn<'a>, added: Seq<ModifyView>) -> bool {
        &&& after.wf()
        &&& after.snapshot == self.snapshot
        &&& after.start_ts == self.start_ts
        &&& after.spec_writes() == self.spec_writes() + added
    }

    pub fn new(snapshot: &'a Snapshot, start_ts: u64) -> (txn: MvccTxn<'a>)
        requires
            snapshot.wf(),
        ensures
            txn.wf(),
            txn.snapshot.snapshot == snapshot,
            txn.start_ts == start_ts,
            txn.spec_writes() == Seq::<ModifyView>::empty(),
    {
        let txn = MvccTxn {
            snapshot: MvccSnapshot::new(snapshot, start_ts),
            start_ts,
            writes: Vec::new(),
        };
        assert(txn.spec_writes() =~= Seq::<ModifyView>::empty());
        txn
    }

    /// Hands out the modifications asked for so far, and forgets them.
    pub fn modifies(&mut self) -> (r: Vec<Modify>)
        ensures
            modifies_view(r@) == old(self).spec_writes(),
            final(self).spec_writes() == Seq::<ModifyView>::empty(),
            final(self).snapshot == old(self).snapshot,
            final(self).start_ts == old(self).start_ts,
    {
        let mut r: Vec<Modify> = Vec::new();
        std::mem::swap(&mut r, &mut self.writes);
        assert(self.spec_writes() =~= Seq::<ModifyView>::empty());
        r
    }

    /// Adds one modification.
    fn push_write(&mut self, m: Modify)
        ensures
            final(self).spec_writes() == old(self).spec_writes().push(m@),
            final(self).snapshot == old(self).snapshot,
            final(self).start_ts == old(self).start_ts,
    {
        self.writes.push(m);
        assert(self.spec_writes() =~= old(self).spec_writes().push(m@));
    }

    /// Stores the first page `meta` of `key`. A page that has grown to
    /// `META_SPLIT_SIZE` versions is split first: its older versions go to
    /// a new page under the next index that the key has not used, which is
    /// stored before the first page, and `meta` keeps the newer versions
    /// and points to the new page.
    pub fn write_meta(&mut self, key: &Key, meta: &mut Meta)
        requires
            old(self).wf(),
        ensures
            old(self).extended_by(final(self), spec_write_meta(key@, old(meta)@)),
            final(meta)@ == match spec_split(old(meta)@) {
                Some((stays, _, _)) => stays,
                None => old(meta)@,
            },
    {
        if let Some((split_meta, index)) = meta.split() {
            let modify = Modify::Put(
                CfName::Default,
                key.append_meta_index(index),
                split_meta.to_bytes(),
            );
            self.push_write(modify);
        }
        let modify = Modify::Put(
            CfName::Default,
            key.append_meta_index(FIRST_META_INDEX),
            meta.to_bytes(),
        );
        self.push_write(modify);
        proof {
            assert(self.spec_writes() =~= old(self).spec_writes() + spec_write_meta(
                key@,
                old(meta)@,
            ));
        }
    }

    fn lock_key(&mut self, key: Key, lock_type: MetaLockType, primary: Vec<u8>)
        ensures
            final(self).spec_writes() == old(self).spec_writes().push(
                ModifyView::Put(
                    CfName::Lock,
                    key@,
                    spec_lock_bytes(
                        MetaLockView {
                            lock_type,
                            primary_key: primary@,
                            start_ts: old(self).start_ts,
                        },
                    ),
                ),
            ),
            final(self).snapshot == old(self).snapshot,
            final(self).start_ts == old(self).start_ts,
    {
        let lock = MetaLock { lock_type, primary_key: primary, start_ts: self.start_ts };
        let b = lock.to_bytes();
        self.push_write(Modify::Put(CfName::Lock, key, b));
    }

    fn unlock_key(&mut self, key: Key)
        ensures
            final(self).spec_writes() == old(self).spec_writes().push(
                ModifyView::Delete(CfName::Lock, key@),
            ),
            final(self).snapshot == old(self).snapshot,
            final(self).start_ts == old(self).start_ts,
    {
        self.push_write(Modify::Delete(CfName::Lock, key));
    }

    /// Reads `key` at the start timestamp of the transaction.
    pub fn get(&self, key: &Key) -> (r: Result<Option<Value>, Error>)
        requires
            self.wf(),
        ensures
            value_result_view(r) == spec_get(self@, key@, self.start_ts),
    {
        self.snapshot.get(key)
    }

    /// The first phase of the commit: takes the lock on the key of
    /// `mutation` and stores the value of a put. `primary` is the key that
    /// stands for the whole transaction.
    pub fn prewrite(&mut self, mutation: Mutation, primary: &[u8]) -> (r: Result<(), Error>)
        requires
            old(self).wf(),
        ensures
            ({
                let out = spec_prewrite(old(self)@, old(self).start_ts, &mutation, primary@);
                &&& unit_result_view(r) == out.result
                &&& old(self).extended_by(final(self), out.writes)
            }),
    {
        proof {
            assert(self.spec_writes() + Seq::<ModifyView>::empty() =~= self.spec_writes());
        }
        let key = mutation.key();
        let meta = match self.snapshot.load_meta(key, FIRST_META_INDEX) {
            Err(e) => {
                return Err(e);
            },
            Ok(m) => m,
        };
        // Abort on writes after our start timestamp ...
        if meta.items.len() > 0 {
            let latest = meta.items[0];
            if latest.commit_ts >= self.start_ts {
                return Err(Error::WriteConflict);
            }
        }
        // ... or locks at any timestamp.
        let lock = match self.snapshot.load_lock(key) {
            Err(e) => {
                return Err(e);
            },
            Ok(l) => l,
        };
        if let Some(lock) = lock {
            if lock.start_ts != self.start_ts {
                return Err(locked_error(key, lock));
            }
        }
        self.lock_key(key.clone(), meta_lock_type(&mutation), to_vec(primary));
        if let Mutation::Put((_, value)) = &mutation {
            let value_key = key.append_ts(self.start_ts);
            self.push_write(Modify::Put(CfName::Default, value_key, to_vec(value.as_slice())));
        }
        proof {
            let out = spec_prewrite(old(self)@, old(self).start_ts, &mutation, primary@);
            assert(self.spec_writes() =~= old(self).spec_writes() + out.writes);
        }
        Ok(())
    }

    /// The second phase of the commit for `key`.
    pub fn commit(&mut self, key: &Key, commit_ts: u64) -> (r: Result<(), Error>)
        requires
            old(self).wf(),
        ensures
            ({
                let out = spec_commit(old(self)@, old(self).start_ts, key@, commit_ts);
                &&& unit_result_view(r) == out.result
                &&& old(self).extended_by(final(self), out.writes)
            }),
    {
        proof {
            assert(self.spec_writes() + Seq::<ModifyView>::empty() =~= self.spec_writes());
        }
        let mut meta = match self.snapshot.load_meta(key, FIRST_META_INDEX) {
            Err(e) => {
                return Err(e);
            },
            Ok(m) => m,
        };
        let ghost loaded = meta@;
        match self.commit_impl(key, commit_ts, &mut meta) {
            Err(e) => {
                return Err(e);
            },
            Ok(()) => {},
        }
        let ghost done = spec_commit_impl(old(self)@, old(self).start_ts, key@, commit_ts, loaded);
        self.write_meta(key, &mut meta);
        proof {
            assert(self.spec_writes() =~= old(self).spec_writes() + (done.writes
                + spec_write_meta(key@, done.result->Ok_0)));
        }
        Ok(())
    }

    fn commit_impl(&mut self, key: &Key, commit_ts: u64, meta: &mut Meta) -> (r: Result<(), Error>)
        requires
            old(self).wf(),
        ensures
            ({
                let out = spec_commit_impl(
                    old(self)@,
                    old(self).start_ts,
                    key@,
                    commit_ts,
                    old(meta)@,
                );
                &&& old(self).extended_by(final(self), out.writes)
                &&& match out.result {
                    Err(e) => r matches Err(err) && err@ == e,
                    Ok(m) => r is Ok && final(meta)@ == m,
                }
            }),
    {
        proof {
            assert(self.spec_writes() + Seq::<ModifyView>::empty() =~= self.spec_writes());
        }
        let lock = match self.snapshot.load_lock(key) {
            Err(e) => {
                return Err(e);
            },
            Ok(l) => l,
        };
        let held = match &lock {
            Some(lock) => lock.start_ts == self.start_ts,
            None => false,
        };
        if !held {
            return match self.snapshot.get_txn_commit_ts(key, meta, self.start_ts) {
                Err(e) => Err(e),
                // Committed by concurrent transaction.
                Ok(Some(_)) => Ok(()),
                // Rollbacked by concurrent transaction.
                Ok(None) => Err(Error::TxnLockNotFound),
            };
        }
        let lock_type = match &lock {
            Some(lock) => lock.lock_type,
            None => MetaLockType::ReadOnly,
        };
        match lock_type {
            MetaLockType::ReadWrite => {
                let item = MetaItem { start_ts: self.start_ts, commit_ts };
                meta.push_item(item);
            },
            MetaLockType::ReadOnly => {},
        }
        self.unlock_key(key.clone());
        proof {
            let out = spec_commit_impl(
                old(self)@,
                old(self).start_ts,
                key@,
                commit_ts,
                old(meta)@,
            );
            assert(self.spec_writes() =~= old(self).spec_writes() + out.writes);
        }
        Ok(())
    }

    /// The second phase of the commit for `key`, followed by a read of the
    /// key at `get_ts`.
    pub fn commit_then_get(&mut self, key: &Key, commit_ts: u64, get_ts: u64) -> (r: Result<
        Option<Value>,
        Error,
    >)
        requires
            old(self).wf(),
        ensures
            ({
                let out = spec_commit_then_get(
                    old(self)@,
                    old(self).start_ts,
                    key@,
                    commit_ts,
                    get_ts,
                );
                &&& value_result_view(r) == out.result
                &&& old(self).extended_by(final(self), out.writes)
            }),
    {
        proof {
            assert(self.spec_writes() + Seq::<ModifyView>::empty() =~= self.spec_writes());
        }
        let mut meta = match self.snapshot.load_meta(key, FIRST_META_INDEX) {
            Err(e) => {
                return Err(e);
            },
            Ok(m) => m,
        };
        let ghost loaded = meta@;
        match self.commit_impl(key, commit_ts, &mut meta) {
            Err(e) => {
                return Err(e);
            },
            Ok(()) => {},
        }
        let ghost done = spec_commit_impl(old(self)@, old(self).start_ts, key@, commit_ts, loaded);
        let res = match self.snapshot.get_impl(key, &meta, get_ts) {
            Err(e) => {
                return Err(e);
            },
            Ok(res) => res,
        };
        self.write_meta(key, &mut meta);
        proof {
            assert(self.spec_writes() =~= old(self).spec_writes() + (done.writes
                + spec_write_meta(key@, done.result->Ok_0)));
        }
        Ok(res)
    }

    /// Takes back what the prewrite of `key` did.
    pub fn rollback(&mut self, key: &Key) -> (r: Result<(), Error>)
        requires
            old(self).wf(),
        ensures
            ({
                let out = spec_rollback(old(self)@, old(self).start_ts, key@);
                &&& unit_result_view(r) == out.result
                &&& old(self).extended_by(final(self), out.writes)
            }),
    {
        proof {
            assert(self.spec_writes() + Seq::<ModifyView>::empty() =~= self.spec_writes());
        }
        let mut meta = match self.snapshot.load_meta(key, FIRST_META_INDEX) {
            Err(e) => {
                return Err(e);
            },
            Ok(m) => m,
        };
        let ghost loaded = meta@;
        match self.rollback_impl(key, &meta) {
            Err(e) => {
                return Err(e);
            },
            Ok(()) => {},
        }
        let ghost done = spec_rollback_impl(old(self)@, old(self).start_ts, key@, loaded);
        self.write_meta(key, &mut meta);
        proof {
            assert(self.spec_writes() =~= old(self).spec_writes() + (done.writes
                + spec_write_meta(key@, loaded)));
        }
        Ok(())
    }

    fn rollback_impl(&mut self, key: &Key, meta: &Meta) -> (r: Result<(), Error>)
        requires
            old(self).wf(),
        ensures
            ({
                let out = spec_rollback_impl(old(self)@, old(self).start_ts, key@, meta@);
                &&& unit_result_view(r) == out.result
                &&& old(self).extended_by(final(self), out.writes)
            }),
    {
        proof {
            assert(self.spec_writes() + Seq::<ModifyView>::empty() =~= self.spec_writes());
        }
        let lock = match self.snapshot.load_lock(key) {
            Err(e) => {
                return Err(e);
            },
            Ok(l) => l,
        };
        let held = match &lock {
            Some(lock) => lock.start_ts == self.start_ts,
            None => false,
        };
        if !held {
            return match self.snapshot.get_txn_commit_ts(key, meta, self.start_ts) {
                Err(e) => Err(e),
                // Already committed by concurrent transaction.
                Ok(Some(ts)) => Err(Error::AlreadyCommitted { commit_ts: ts }),
                // Rollbacked by concurrent transaction.
                Ok(None) => Ok(()),
            };
        }
        let value_key = key.append_ts(self.start_ts);
        self.push_write(Modify::Delete(CfName::Default, value_key));
        self.unlock_key(key.clone());
        proof {
            let out = spec_rollback_impl(old(self)@, old(self).start_ts, key@, meta@);
            assert(self.spec_writes() =~= old(self).spec_writes() + out.writes);
        }
        Ok(())
    }

    /// Takes back what the prewrite of `key` did, then reads the key at
    /// the start timestamp of the transaction.
    pub fn rollback_then_get(&mut self, key: &Key) -> (r: Result<Option<Value>, Error>)
        requires
            old(self).wf(),
        ensures
            ({
                let out = spec_rollback_then_get(old(self)@, old(self).start_ts, key@);
                &&& value_result_view(r) == out.result
                &&& old(self).extended_by(final(self), out.writes)
            }),
    {
        proof {
            assert(self.spec_writes() + Seq::<ModifyView>::empty() =~= self.spec_writes());
        }
        let mut meta = match self.snapshot.load_meta(key, FIRST_META_INDEX) {
            Err(e) => {
                return Err(e);
            },
            Ok(m) => m,
        };
        let ghost loaded = meta@;
        match self.rollback_impl(key, &meta) {
            Err(e) => {
                return Err(e);
            },
            Ok(()) => {},
        }
        let ghost done = spec_rollback_impl(old(self)@, old(self).start_ts, key@, loaded);
        let res = match self.snapshot.get_impl(key, &meta, self.start_ts) {
            Err(e) => {
                return Err(e);
            },
            Ok(res) => res,
        };
        self.write_meta(key, &mut meta);
        proof {
            assert(self.spec_writes() =~= old(self).spec_writes() + (done.writes
                + spec_write_meta(key@, loaded)));
        }
        Ok(res)
    }
}

/// The start timestamp of the version of `key` that a read at `ts` sees,
/// if it sees one.
pub open spec fn spec_get_version(s: SnapshotView, key: Seq<u8>, ts: u64) -> Result<
    Option<u64>,
    ErrorKind,
> {
    match spec_load_meta(s, key, FIRST_META_INDEX) {
        Err(e) => Err(e),
        Ok(meta) => match spec_find(s, key, meta, FIRST_META_INDEX, Probe::CommittedBy(ts)) {
            Err(e) => Err(e),
            Ok(None) => Ok(None),
            Ok(Some(item)) => Ok(Some(item.start_ts)),
        },
    }
}

/// A reader of many keys of one snapshot at the timestamp `start_ts`.
pub struct MvccCursor<'a> {
    pub snapshot: &'a MvccSnapshot<'a>,
    pub start_ts: u64,
}

impl<'a> MvccCursor<'a> {
    pub fn new(snapshot: &'a MvccSnapshot<'a>, start_ts: u64) -> (c: MvccCursor<'a>)
        ensures
            c.snapshot == snapshot,
            c.start_ts == start_ts,
    {
        MvccCursor { snapshot, start_ts }
    }

    /// Reads `key` at the timestamp of the cursor.
    pub fn get(&mut self, key: &Key) -> (r: Result<Option<Value>, Error>)
        requires
            old(self).snapshot.snapshot.wf(),
        ensures
            *final(self) == *old(self),
            value_result_view(r) == spec_get(
                old(self).snapshot.snapshot@,
                key@,
                old(self).start_ts,
            ),
    {
        // Check for locks that signal concurrent writes.
        let lock = match self.snapshot.load_lock(key) {
            Err(e) => {
                return Err(e);
            },
            Ok(l) => l,
        };
        if let Some(lock) = lock {
            if lock.start_ts <= self.start_ts {
                // There is a pending lock. Client should wait or clean it.
                return Err(locked_error(key, lock));
            }
        }
        match self.get_version(key) {
            Err(e) => Err(e),
            Ok(Some(ts)) => {
                let key = key.append_ts(ts);
                Ok(self.snapshot.snapshot.get_value(key.encoded.as_slice()))
            },
            Ok(None) => Ok(None),
        }
    }

    /// The start timestamp of the version of `key` that a read at the
    /// timestamp of the cursor sees.
    pub fn get_version(&mut self, key: &Key) -> (r: Result<Option<u64>, Error>)
        requires
            old(self).snapshot.snapshot.wf(),
        ensures
            *final(self) == *old(self),
            match spec_get_version(old(self).snapshot.snapshot@, key@, old(self).start_ts) {
                Err(e) => r matches Err(err) && err@ == e,
                Ok(v) => r == Ok::<Option<u64>, Error>(v),
            },
    {
        let meta = match self.snapshot.load_meta(key, FIRST_META_INDEX) {
            Err(e) => {
                return Err(e);
            },
            Ok(m) => m,
        };
        // Find the latest write below our start timestamp.
        match self.snapshot.find(key, &meta, Probe::CommittedBy(self.start_ts)) {
            Err(e) => Err(e),
            Ok(None) => Ok(None),
            Ok(Some(x)) => Ok(Some(x.start_ts)),
        }
    }
}

} // verus!
