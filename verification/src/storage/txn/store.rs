//! Reads and the operations of transactions, each against a snapshot of
//! the engine taken when the operation begins.

use crate::raftstore::store::engine::{Snapshot, SnapshotView};
use crate::storage::engine::{
    apply_modifies, modifies_view, Context, Engine, Modify, ModifyView,
};
use crate::storage::mvcc::errors::{Error as MvccError, ErrorKind as MvccErrorKind};
use crate::storage::mvcc::txn::{
    spec_commit, spec_commit_then_get, spec_get, spec_prewrite, spec_rollback,
    spec_rollback_then_get, MvccSnapshot, MvccTxn,
};
use crate::storage::txn::errors::{Error, ErrorKind};
use crate::storage::txn::scanner::{
    scan_result_view, spec_lower_bound, spec_reverse_scan_from, spec_scan_from, StoreScanner,
};
use crate::storage::types::{Key, KvPair, Mutation, Value};
use vstd::prelude::*;

verus! {

/// The store that clients talk to.
pub struct TxnStore {
    pub engine: Engine,
}

/// The view of a result that holds a value or nothing.
pub open spec fn value_view(r: Result<Option<Value>, Error>) -> Result<Option<Seq<u8>>, ErrorKind> {
    match r {
        Ok(Some(v)) => Ok(Some(v@)),
        Ok(None) => Ok(None),
        Err(e) => Err(e@),
    }
}

/// A result of the multi-version layer as a result of the store.
pub open spec fn lift<T>(r: Result<T, MvccErrorKind>) -> Result<T, ErrorKind> {
    match r {
        Ok(x) => Ok(x),
        Err(err) => Err(ErrorKind::Mvcc { err }),
    }
}

/// What the prewrites of a list of mutations by one transaction do, all
/// against the same snapshot: a key that is locked by another transaction
/// yields an error of its own and the others go on; any other failure
/// fails the whole list. The modifications add up.
pub open spec fn spec_prewrite_all(
    s: SnapshotView,
    start_ts: u64,
    mutations: Seq<Mutation>,
    primary: Seq<u8>,
) -> Result<(Seq<Result<(), ErrorKind>>, Seq<ModifyView>), ErrorKind>
    decreases mutations.len(),
{
    if mutations.len() == 0 {
        Ok((Seq::empty(), Seq::empty()))
    } else {
        match spec_prewrite_all(s, start_ts, mutations.drop_last(), primary) {
            Err(e) => Err(e),
            Ok((results, writes)) => {
                let out = spec_prewrite(s, start_ts, &mutations.last(), primary);
                match out.result {
                    Ok(()) => Ok((results.push(Ok(())), writes + out.writes)),
                    Err(err) => if err is KeyIsLocked {
                        Ok((results.push(Err(ErrorKind::Mvcc { err })), writes + out.writes))
                    } else {
                        Err(ErrorKind::Mvcc { err })
                    },
                }
            },
        }
    }
}

/// What the commits of a list of keys by one transaction do, all against
/// the same snapshot: the first failure fails the whole list.
pub open spec fn spec_commit_all(
    s: SnapshotView,
    start_ts: u64,
    keys: Seq<Key>,
    commit_ts: u64,
) -> Result<Seq<ModifyView>, ErrorKind>
    decreases keys.len(),
{
    if keys.len() == 0 {
        Ok(Seq::empty())
    } else {
        match spec_commit_all(s, start_ts, keys.drop_last(), commit_ts) {
            Err(e) => Err(e),
            Ok(writes) => {
                let out = spec_commit(s, start_ts, keys.last()@, commit_ts);
                match out.result {
                    Ok(()) => Ok(writes + out.writes),
                    Err(err) => Err(ErrorKind::Mvcc { err }),
                }
            },
        }
    }
}

/// What the rollbacks of a list of keys by one transaction do, all against
/// the same snapshot: the first failure fails the whole list.
pub open spec fn spec_rollback_all(s: SnapshotView, start_ts: u64, keys: Seq<Key>) -> Result<
    Seq<ModifyView>,
    ErrorKind,
>
    decreases keys.len(),
{
    if keys.len() == 0 {
        Ok(Seq::empty())
    } else {
        match spec_rollback_all(s, start_ts, keys.drop_last()) {
            Err(e) => Err(e),
            Ok(writes) => {
                let out = spec_rollback(s, start_ts, keys.last()@);
                match out.result {
                    Ok(()) => Ok(writes + out.writes),
                    Err(err) => Err(ErrorKind::Mvcc { err }),
                }
            },
        }
    }
}

/// Once a prewrite of the list has failed for good, the list has failed.
pub proof fn lemma_prewrite_failure(
    s: SnapshotView,
    start_ts: u64,
    mutations: Seq<Mutation>,
    primary: Seq<u8>,
    n: int,
)
    requires
        0 <= n <= mutations.len(),
        spec_prewrite_all(s, start_ts, mutations.subrange(0, n), primary) is Err,
    ensures
        spec_prewrite_all(s, start_ts, mutations, primary) == spec_prewrite_all(
            s,
            start_ts,
            mutations.subrange(0, n),
            primary,
        ),
    decreases mutations.len() - n,
{
    if n < mutations.len() {
        assert(mutations.subrange(0, n + 1).drop_last() =~= mutations.subrange(0, n));
        lemma_prewrite_failure(s, start_ts, mutations, primary, n + 1);
    } else {
        assert(mutations.subrange(0, n) =~= mutations);
    }
}

/// Once a commit of the list has failed, the list has failed.
pub proof fn lemma_commit_failure(
    s: SnapshotView,
    start_ts: u64,
    keys: Seq<Key>,
    commit_ts: u64,
    n: int,
)
    requires
        0 <= n <= keys.len(),
        spec_commit_all(s, start_ts, keys.subrange(0, n), commit_ts) is Err,
    ensures
        spec_commit_all(s, start_ts, keys, commit_ts) == spec_commit_all(
            s,
            start_ts,
            keys.subrange(0, n),
            commit_ts,
        ),
    decreases keys.len() - n,
{
    if n < keys.len() {
        assert(keys.subrange(0, n + 1).drop_last() =~= keys.subrange(0, n));
        lemma_commit_failure(s, start_ts, keys, commit_ts, n + 1);
    } else {
        assert(keys.subrange(0, n) =~= keys);
    }
}

/// Once a rollback of the list has failed, the list has failed.
pub proof fn lemma_rollback_failure(s: SnapshotView, start_ts: u64, keys: Seq<Key>, n: int)
    requires
        0 <= n <= keys.len(),
        spec_rollback_all(s, start_ts, keys.subrange(0, n)) is Err,
    ensures
        spec_rollback_all(s, start_ts, keys) == spec_rollback_all(
            s,
            start_ts,
            keys.subrange(0, n),
        ),
    decreases keys.len() - n,
{
    if n < keys.len() {
        assert(keys.subrange(0, n + 1).drop_last() =~= keys.subrange(0, n));
        lemma_rollback_failure(s, start_ts, keys, n + 1);
    } else {
        assert(keys.subrange(0, n) =~= keys);
    }
}

/// The views of the results of the prewrites of a list.
pub open spec fn prewrite_results_view(v: Seq<Result<(), Error>>) -> Seq<Result<(), ErrorKind>> {
    Seq::new(
        v.len(),
        |i: int|
            match v[i] {
                Ok(()) => Ok(()),
                Err(e) => Err(e@),
            },
    )
}

/// What the first phase of the commit of the transaction that began at
/// `start_ts` makes of an engine that holds what `snapshot` holds: the
/// outcome for each of `mutations`, and the modifications to write.
pub fn plan_prewrite(
    snapshot: &Snapshot,
    mutations: Vec<Mutation>,
    primary: Vec<u8>,
    start_ts: u64,
) -> (r: Result<(Vec<Result<(), Error>>, Vec<Modify>), Error>)
    requires
        snapshot.wf(),
    ensures
        match spec_prewrite_all(snapshot@, start_ts, mutations@, primary@) {
            Err(e) => r matches Err(err) && err@ == e,
            Ok((results, writes)) => r matches Ok((done, modifies)) && prewrite_results_view(
                done@,
            ) == results && modifies_view(modifies@) == writes,
        },
{
    let mut txn = MvccTxn::new(snapshot, start_ts);
    let mut results: Vec<Result<(), Error>> = Vec::new();
    let ghost s = snapshot@;
    let ghost all = mutations@;
    let n = mutations.len();
    let mut source = mutations;
    let mut rest: Vec<Mutation> = Vec::new();
    // take the mutations in order
    while source.len() > 0
        invariant
            rest@.len() + source@.len() == all.len(),
            forall|i: int| 0 <= i < source@.len() ==> source@[i] == all[i],
            forall|i: int|
                0 <= i < rest@.len() ==> rest@[i] == all[all.len() - 1 - i],
        decreases source@.len(),
    {
        let m = source.pop().unwrap();
        rest.push(m);
    }
    let mut i: usize = 0;
    proof {
        assert(all.subrange(0, 0) =~= Seq::<Mutation>::empty());
        assert(prewrite_results_view(results@) =~= Seq::empty());
    }
    while rest.len() > 0
        invariant
            txn.wf(),
            txn@ == s,
            txn.start_ts == start_ts,
            s == snapshot@,
            all.len() == n,
            all == mutations@,
            i + rest@.len() == all.len(),
            forall|k: int| 0 <= k < rest@.len() ==> rest@[k] == all[all.len() - 1 - k],
            spec_prewrite_all(s, start_ts, all.subrange(0, i as int), primary@) matches Ok(
                (done, writes),
            ) && prewrite_results_view(results@) == done && txn.spec_writes() == writes,
        decreases rest@.len(),
    {
        let m = rest.pop().unwrap();
        proof {
            assert(m == all[i as int]);
            assert(all.subrange(0, i + 1).drop_last() =~= all.subrange(0, i as int));
            assert(all.subrange(0, i + 1).last() == m);
        }
        let ghost before = prewrite_results_view(results@);
        let ghost out = spec_prewrite(s, start_ts, &m, primary@);
        match txn.prewrite(m, primary.as_slice()) {
            Ok(_) => {
                results.push(Ok(()));
                proof {
                    assert(prewrite_results_view(results@) =~= before.push(Ok(())));
                }
            },
            Err(e) => {
                let locked = match &e {
                    MvccError::KeyIsLocked { .. } => true,
                    _ => false,
                };
                if !locked {
                    proof {
                        assert(!(e@ is KeyIsLocked));
                        assert(spec_prewrite_all(
                            s,
                            start_ts,
                            all.subrange(0, i + 1),
                            primary@,
                        ) is Err);
                        lemma_prewrite_failure(s, start_ts, all, primary@, i + 1);
                    }
                    return Err(Error::Mvcc { err: e });
                }
                assert(e@ is KeyIsLocked);
                let ghost ek = e@;
                results.push(Err(Error::Mvcc { err: e }));
                proof {
                    assert(prewrite_results_view(results@) =~= before.push(
                        Err(ErrorKind::Mvcc { err: ek }),
                    ));
                }
            },
        }
        i += 1;
    }
    proof {
        assert(all.subrange(0, i as int) =~= all);
    }
    let writes = txn.modifies();
    Ok((results, writes))
}

/// What the second phase of the commit of the transaction that began at
/// `start_ts`, for each of `keys`, writes to an engine that holds what
/// `snapshot` holds.
pub fn plan_commit(snapshot: &Snapshot, keys: Vec<Key>, start_ts: u64, commit_ts: u64) -> (r:
    Result<((), Vec<Modify>), Error>)
    requires
        snapshot.wf(),
    ensures
        match spec_commit_all(snapshot@, start_ts, keys@, commit_ts) {
            Err(e) => r matches Err(err) && err@ == e,
            Ok(writes) => r matches Ok((_, modifies)) && modifies_view(modifies@) == writes,
        },
{
    let mut txn = MvccTxn::new(snapshot, start_ts);
    let ghost s = snapshot@;
    let mut i: usize = 0;
    proof {
        assert(keys@.subrange(0, 0) =~= Seq::<Key>::empty());
    }
    while i < keys.len()
        invariant
            i <= keys@.len(),
            txn.wf(),
            txn@ == s,
            txn.start_ts == start_ts,
            s == snapshot@,
            spec_commit_all(s, start_ts, keys@.subrange(0, i as int), commit_ts) matches Ok(
                writes,
            ) && txn.spec_writes() == writes,
        decreases keys@.len() - i,
    {
        proof {
            assert(keys@.subrange(0, i + 1).drop_last() =~= keys@.subrange(0, i as int));
            assert(keys@.subrange(0, i + 1).last() == keys@[i as int]);
        }
        match txn.commit(&keys[i], commit_ts) {
            Ok(()) => {},
            Err(e) => {
                proof {
                    lemma_commit_failure(s, start_ts, keys@, commit_ts, i + 1);
                }
                return Err(Error::Mvcc { err: e });
            },
        }
        i += 1;
    }
    proof {
        assert(keys@.subrange(0, i as int) =~= keys@);
    }
    let writes = txn.modifies();
    Ok(((), writes))
}

/// What the second phase of the commit for `key` writes to an engine that
/// holds what `snapshot` holds, and what a read of the key at `get_ts`
/// finds after it.
pub fn plan_commit_then_get(
    snapshot: &Snapshot,
    key: Key,
    lock_ts: u64,
    commit_ts: u64,
    get_ts: u64,
) -> (r: Result<(Option<Value>, Vec<Modify>), Error>)
    requires
        snapshot.wf(),
    ensures
        ({
            let out = spec_commit_then_get(snapshot@, lock_ts, key@, commit_ts, get_ts);
            &&& value_view(read_of(r)) == lift(out.result)
            &&& r matches Ok((_, modifies)) ==> modifies_view(modifies@) == out.writes
        }),
{
    let mut txn = MvccTxn::new(snapshot, lock_ts);
    let val = match txn.commit_then_get(&key, commit_ts, get_ts) {
        Err(e) => {
            return Err(Error::Mvcc { err: e });
        },
        Ok(v) => v,
    };
    proof {
        assert(Seq::<ModifyView>::empty() + txn.spec_writes() =~= txn.spec_writes());
    }
    let writes = txn.modifies();
    Ok((val, writes))
}

/// What taking back the prewrite of `key` by the transaction that began at
/// `start_ts` writes to an engine that holds what `snapshot` holds.
pub fn plan_cleanup(snapshot: &Snapshot, key: Key, start_ts: u64) -> (r: Result<
    ((), Vec<Modify>),
    Error,
>)
    requires
        snapshot.wf(),
    ensures
        ({
            let out = spec_rollback(snapshot@, start_ts, key@);
            match out.result {
                Err(err) => r matches Err(e) && e@ == (ErrorKind::Mvcc { err }),
                Ok(()) => r matches Ok((_, modifies)) && modifies_view(modifies@) == out.writes,
            }
        }),
{
    let mut txn = MvccTxn::new(snapshot, start_ts);
    match txn.rollback(&key) {
        Err(e) => {
            return Err(Error::Mvcc { err: e });
        },
        Ok(()) => {},
    }
    proof {
        assert(Seq::<ModifyView>::empty() + txn.spec_writes() =~= txn.spec_writes());
    }
    let writes = txn.modifies();
    Ok(((), writes))
}

/// What taking back the prewrites of `keys` by the transaction that began
/// at `start_ts` writes to an engine that holds what `snapshot` holds.
pub fn plan_rollback(snapshot: &Snapshot, keys: Vec<Key>, start_ts: u64) -> (r: Result<
    ((), Vec<Modify>),
    Error,
>)
    requires
        snapshot.wf(),
    ensures
        match spec_rollback_all(snapshot@, start_ts, keys@) {
            Err(e) => r matches Err(err) && err@ == e,
            Ok(writes) => r matches Ok((_, modifies)) && modifies_view(modifies@) == writes,
        },
{
    let mut txn = MvccTxn::new(snapshot, start_ts);
    let ghost s = snapshot@;
    let mut i: usize = 0;
    proof {
        assert(keys@.subrange(0, 0) =~= Seq::<Key>::empty());
    }
    while i < keys.len()
        invariant
            i <= keys@.len(),
            txn.wf(),
            txn@ == s,
            txn.start_ts == start_ts,
            s == snapshot@,
            spec_rollback_all(s, start_ts, keys@.subrange(0, i as int)) matches Ok(writes)
                && txn.spec_writes() == writes,
        decreases keys@.len() - i,
    {
        proof {
            assert(keys@.subrange(0, i + 1).drop_last() =~= keys@.subrange(0, i as int));
            assert(keys@.subrange(0, i + 1).last() == keys@[i as int]);
        }
        match txn.rollback(&keys[i]) {
            Ok(()) => {},
            Err(e) => {
                proof {
                    lemma_rollback_failure(s, start_ts, keys@, i + 1);
                }
                return Err(Error::Mvcc { err: e });
            },
        }
        i += 1;
    }
    proof {
        assert(keys@.subrange(0, i as int) =~= keys@);
    }
    let writes = txn.modifies();
    Ok(((), writes))
}

/// What taking back the prewrite of `key` writes to an engine that holds
/// what `snapshot` holds, and what a read of the key at `lock_ts` finds
/// after it.
pub fn plan_rollback_then_get(snapshot: &Snapshot, key: Key, lock_ts: u64) -> (r: Result<
    (Option<Value>, Vec<Modify>),
    Error,
>)
    requires
        snapshot.wf(),
    ensures
        ({
            let out = spec_rollback_then_get(snapshot@, lock_ts, key@);
            &&& value_view(read_of(r)) == lift(out.result)
            &&& r matches Ok((_, modifies)) ==> modifies_view(modifies@) == out.writes
        }),
{
    let mut txn = MvccTxn::new(snapshot, lock_ts);
    let val = match txn.rollback_then_get(&key) {
        Err(e) => {
            return Err(Error::Mvcc { err: e });
        },
        Ok(v) => v,
    };
    proof {
        assert(Seq::<ModifyView>::empty() + txn.spec_writes() =~= txn.spec_writes());
    }
    let writes = txn.modifies();
    Ok((val, writes))
}

/// The read that a planned operation found, without what it writes.
pub open spec fn read_of(r: Result<(Option<Value>, Vec<Modify>), Error>) -> Result<
    Option<Value>,
    Error,
> {
    match r {
        Ok((v, _)) => Ok(v),
        Err(e) => Err(e),
    }
}

impl TxnStore {
    /// The representation invariant.
    pub open spec fn wf(&self) -> bool {
        self.engine.wf()
    }

    /// What the engine of the store holds.
    pub open spec fn view(&self) -> SnapshotView {
        self.engine@
    }

    pub fn new(engine: Engine) -> (s: TxnStore)
        requires
            engine.wf(),
        ensures
            s.wf(),
            s@ == engine@,
    {
        TxnStore { engine }
    }

    /// Reads `key` at `start_ts`.
    pub fn get(&self, ctx: Context, key: &Key, start_ts: u64) -> (r: Result<Option<Value>, Error>)
        requires
            self.wf(),
        ensures
            value_view(r) == lift(spec_get(self@, key@, start_ts)),
    {
        let snapshot = self.engine.snapshot(&ctx);
        let snap_store = SnapshotStore::new(&snapshot, start_ts);
        snap_store.get(key)
    }

    /// Reads each of `keys` at `start_ts`.
    pub fn batch_get(&self, ctx: Context, keys: &Vec<Key>, start_ts: u64) -> (r: Result<
        Vec<Result<Option<Value>, Error>>,
        Error,
    >)
        requires
            self.wf(),
        ensures
            r matches Ok(results) && results@.len() == keys@.len() && forall|i: int|
                0 <= i < keys@.len() ==> value_view(#[trigger] results@[i]) == lift(
                    spec_get(self@, keys@[i]@, start_ts),
                ),
    {
        let snapshot = self.engine.snapshot(&ctx);
        let snap_store = SnapshotStore::new(&snapshot, start_ts);
        snap_store.batch_get(keys)
    }

    /// Scans forward from `key` at `start_ts`, for at most `limit` keys.
    pub fn scan(&self, ctx: Context, key: Key, limit: usize, start_ts: u64) -> (r: Result<
        Vec<Result<KvPair, Error>>,
        Error,
    >)
        requires
            self.wf(),
        ensures
            exists|keys: Seq<Seq<u8>>|
                scan_result_view(r) == #[trigger] spec_scan_from(
                    self@,
                    keys,
                    spec_lower_bound(keys, key@),
                    start_ts,
                    limit as nat,
                ) && stored_keys(self@, keys),
    {
        let snapshot = self.engine.snapshot(&ctx);
        let snap_store = SnapshotStore::new(&snapshot, start_ts);
        let mut scanner = snap_store.scanner();
        let ghost keys = snapshot.keys(crate::proto::raft_cmdpb::CfName::Default);
        let ghost start = spec_lower_bound(keys, key@);
        let r = scanner.scan(key, limit);
        proof {
            snapshot.lemma_keys(crate::proto::raft_cmdpb::CfName::Default);
            assert(stored_keys(self@, keys));
            assert(scan_result_view(r) == spec_scan_from(self@, keys, start, start_ts, limit as nat));
        }
        r
    }

    /// Scans backward from `key` at `start_ts`, for at most `limit` keys.
    pub fn reverse_scan(&self, ctx: Context, key: Key, limit: usize, start_ts: u64) -> (r: Result<
        Vec<Result<KvPair, Error>>,
        Error,
    >)
        requires
            self.wf(),
        ensures
            exists|keys: Seq<Seq<u8>>|
                scan_result_view(r) == #[trigger] spec_reverse_scan_from(
                    self@,
                    keys,
                    spec_lower_bound(keys, key@) - 1,
                    start_ts,
                    limit as nat,
                ) && stored_keys(self@, keys),
    {
        let snapshot = self.engine.snapshot(&ctx);
        let snap_store = SnapshotStore::new(&snapshot, start_ts);
        let mut scanner = snap_store.scanner();
        let ghost keys = snapshot.keys(crate::proto::raft_cmdpb::CfName::Default);
        let ghost start = spec_lower_bound(keys, key@) - 1;
        let r = scanner.reverse_scan(key, limit);
        proof {
            snapshot.lemma_keys(crate::proto::raft_cmdpb::CfName::Default);
            assert(stored_keys(self@, keys));
            assert(scan_result_view(r) == spec_reverse_scan_from(
                self@,
                keys,
                start,
                start_ts,
                limit as nat,
            ));
        }
        r
    }

    /// The first phase of the commit of the transaction that began at
    /// `start_ts`, for each of `mutations`.
    pub fn prewrite(
        &mut self,
        ctx: Context,
        mutations: Vec<Mutation>,
        primary: Vec<u8>,
        start_ts: u64,
    ) -> (r: Result<Vec<Result<(), Error>>, Error>)
        requires
            old(self).wf(),
        ensures
            final(self).wf(),
            match spec_prewrite_all(old(self)@, start_ts, mutations@, primary@) {
                Err(e) => r matches Err(err) && err@ == e && final(self)@ == old(self)@,
                Ok((results, writes)) => r matches Ok(done) && prewrite_results_view(done@)
                    == results && final(self)@ == apply_modifies(old(self)@, writes),
            },
    {
        let snapshot = self.engine.snapshot(&ctx);
        match plan_prewrite(&snapshot, mutations, primary, start_ts) {
            Err(e) => Err(e),
            Ok((results, writes)) => {
                self.engine.write(&ctx, writes);
                Ok(results)
            },
        }
    }

    /// The second phase of the commit of the transaction that began at
    /// `start_ts`, for each of `keys`.
    pub fn commit(&mut self, ctx: Context, keys: Vec<Key>, start_ts: u64, commit_ts: u64) -> (r:
        Result<(), Error>)
        requires
            old(self).wf(),
        ensures
            final(self).wf(),
            match spec_commit_all(old(self)@, start_ts, keys@, commit_ts) {
                Err(e) => r matches Err(err) && err@ == e && final(self)@ == old(self)@,
                Ok(writes) => r is Ok && final(self)@ == apply_modifies(old(self)@, writes),
            },
    {
        let snapshot = self.engine.snapshot(&ctx);
        match plan_commit(&snapshot, keys, start_ts, commit_ts) {
            Err(e) => Err(e),
            Ok((_, writes)) => {
                self.engine.write(&ctx, writes);
                Ok(())
            },
        }
    }

    /// The second phase of the commit for `key`, followed by a read of the
    /// key at `get_ts`.
    pub fn commit_then_get(
        &mut self,
        ctx: Context,
        key: Key,
        lock_ts: u64,
        commit_ts: u64,
        get_ts: u64,
    ) -> (r: Result<Option<Value>, Error>)
        requires
            old(self).wf(),
        ensures
            final(self).wf(),
            ({
                let out = spec_commit_then_get(old(self)@, lock_ts, key@, commit_ts, get_ts);
                &&& value_view(r) == lift(out.result)
                &&& final(self)@ == if out.result is Ok {
                    apply_modifies(old(self)@, out.writes)
                } else {
                    old(self)@
                }
            }),
    {
        let snapshot = self.engine.snapshot(&ctx);
        match plan_commit_then_get(&snapshot, key, lock_ts, commit_ts, get_ts) {
            Err(e) => Err(e),
            Ok((val, writes)) => {
                self.engine.write(&ctx, writes);
                Ok(val)
            },
        }
    }

    /// Takes back what the prewrite of `key` by the transaction that began
    /// at `start_ts` did.
    pub fn cleanup(&mut self, ctx: Context, key: Key, start_ts: u64) -> (r: Result<(), Error>)
        requires
            old(self).wf(),
        ensures
            final(self).wf(),
            ({
                let out = spec_rollback(old(self)@, start_ts, key@);
                match out.result {
                    Err(err) => r matches Err(e) && e@ == (ErrorKind::Mvcc { err }) && final(self)@ == old(self)@,
                    Ok(()) => r is Ok && final(self)@ == apply_modifies(old(self)@, out.writes),
                }
            }),
    {
        let snapshot = self.engine.snapshot(&ctx);
        match plan_cleanup(&snapshot, key, start_ts) {
            Err(e) => Err(e),
            Ok((_, writes)) => {
                self.engine.write(&ctx, writes);
                Ok(())
            },
        }
    }

    /// Takes back what the prewrites of `keys` by the transaction that
    /// began at `start_ts` did.
    pub fn rollback(&mut self, ctx: Context, keys: Vec<Key>, start_ts: u64) -> (r: Result<
        (),
        Error,
    >)
        requires
            old(self).wf(),
        ensures
            final(self).wf(),
            match spec_rollback_all(old(self)@, start_ts, keys@) {
                Err(e) => r matches Err(err) && err@ == e && final(self)@ == old(self)@,
                Ok(writes) => r is Ok && final(self)@ == apply_modifies(old(self)@, writes),
            },
    {
        let snapshot = self.engine.snapshot(&ctx);
        match plan_rollback(&snapshot, keys, start_ts) {
            Err(e) => Err(e),
            Ok((_, writes)) => {
                self.engine.write(&ctx, writes);
                Ok(())
            },
        }
    }

    /// Takes back what the prewrite of `key` did, then reads the key at
    /// `lock_ts`.
    pub fn rollback_then_get(&mut self, ctx: Context, key: Key, lock_ts: u64) -> (r: Result<
        Option<Value>,
        Error,
    >)
        requires
            old(self).wf(),
        ensures
            final(self).wf(),
            ({
                let out = spec_rollback_then_get(old(self)@, lock_ts, key@);
                &&& value_view(r) == lift(out.result)
                &&& final(self)@ == if out.result is Ok {
                    apply_modifies(old(self)@, out.writes)
                } else {
                    old(self)@
                }
            }),
    {
        let snapshot = self.engine.snapshot(&ctx);
        match plan_rollback_then_get(&snapshot, key, lock_ts) {
            Err(e) => Err(e),
            Ok((val, writes)) => {
                self.engine.write(&ctx, writes);
                Ok(val)
            },
        }
    }
}

/// Whether `keys` are the keys that the default column family of `s`
/// holds, in rising order.
pub open spec fn stored_keys(s: SnapshotView, keys: Seq<Seq<u8>>) -> bool {
    &&& forall|i: int, j: int|
        0 <= i < j < keys.len() ==> crate::util::codec::order::lex_lt(
            #[trigger] keys[i],
            #[trigger] keys[j],
        )
    &&& forall|i: int| 0 <= i < keys.len() ==> s.default_cf.dom().contains(#[trigger] keys[i])
    &&& forall|k: Seq<u8>| #[trigger]
        s.default_cf.dom().contains(k) ==> exists|i: int|
            0 <= i < keys.len() && #[trigger] keys[i] == k
}

/// A snapshot of the engine to read from at the timestamp `start_ts`.
pub struct SnapshotStore<'a> {
    pub snapshot: &'a Snapshot,
    pub start_ts: u64,
}

impl<'a> SnapshotStore<'a> {
    pub fn new(snapshot: &'a Snapshot, start_ts: u64) -> (s: SnapshotStore<'a>)
        ensures
            s.snapshot == snapshot,
            s.start_ts == start_ts,
    {
        SnapshotStore { snapshot, start_ts }
    }

    /// Reads `key` at the timestamp of the store.
    pub fn get(&self, key: &Key) -> (r: Result<Option<Value>, Error>)
        requires
            self.snapshot.wf(),
        ensures
            value_view(r) == lift(spec_get(self.snapshot@, key@, self.start_ts)),
    {
        let txn = MvccSnapshot::new(self.snapshot, self.start_ts);
        match txn.get(key) {
            Ok(v) => Ok(v),
            Err(e) => Err(Error::Mvcc { err: e }),
        }
    }

    /// Reads each of `keys` at the timestamp of the store.
    pub fn batch_get(&self, keys: &Vec<Key>) -> (r: Result<
        Vec<Result<Option<Value>, Error>>,
        Error,
    >)
        requires
            self.snapshot.wf(),
        ensures
            r matches Ok(results) && results@.len() == keys@.len() && forall|i: int|
                0 <= i < keys@.len() ==> value_view(#[trigger] results@[i]) == lift(
                    spec_get(self.snapshot@, keys@[i]@, self.start_ts),
                ),
    {
        let txn = MvccSnapshot::new(self.snapshot, self.start_ts);
        let mut results: Vec<Result<Option<Value>, Error>> = Vec::new();
        let mut i: usize = 0;
        while i < keys.len()
            invariant
                i <= keys@.len(),
                self.snapshot.wf(),
                txn.snapshot == self.snapshot,
                txn.start_ts == self.start_ts,
                results@.len() == i,
                forall|k: int|
                    0 <= k < i ==> value_view(#[trigger] results@[k]) == lift(
                        spec_get(self.snapshot@, keys@[k]@, self.start_ts),
                    ),
            decreases keys@.len() - i,
        {
            let r = match txn.get(&keys[i]) {
                Ok(v) => Ok(v),
                Err(e) => Err(Error::Mvcc { err: e }),
            };
            results.push(r);
            i += 1;
        }
        Ok(results)
    }

    /// A scanner over the snapshot.
    pub fn scanner(&self) -> (s: StoreScanner<'a>)
        requires
            self.snapshot.wf(),
        ensures
            s.wf(),
            s.snapshot.snapshot == self.snapshot,
            s.start_ts == self.start_ts,
    {
        StoreScanner {
            snapshot: MvccSnapshot::new(self.snapshot, self.start_ts),
            start_ts: self.start_ts,
        }
    }
}

} // verus!
