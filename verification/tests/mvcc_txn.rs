use tikv::proto::raft_cmdpb::CfName;
use tikv::storage::engine::{Context, Engine, Modify};
use tikv::storage::mvcc::errors::Error;
use tikv::storage::mvcc::meta::{
    FIRST_META_INDEX, META_SPLIT_SIZE, Meta, MetaItem, MetaLock, MetaLockType,
};
use tikv::storage::mvcc::txn::{MvccCursor, MvccSnapshot, MvccTxn};
use tikv::storage::types::{make_key, Mutation};

const TEST_TS_BASE: u64 = 10 * META_SPLIT_SIZE as u64;

fn to_fake_ts(ts: u64) -> u64 {
    TEST_TS_BASE + ts
}

fn must_get(engine: &Engine, key: &[u8], ts: u64, expect: &[u8]) {
    let ctx = Context::new();
    let snapshot = engine.snapshot(&ctx);
    let txn = MvccTxn::new(&snapshot, to_fake_ts(ts));
    assert_eq!(txn.get(&make_key(key)).unwrap().unwrap(), expect);
}

fn must_get_none(engine: &Engine, key: &[u8], ts: u64) {
    let ctx = Context::new();
    let snapshot = engine.snapshot(&ctx);
    let txn = MvccTxn::new(&snapshot, to_fake_ts(ts));
    assert!(txn.get(&make_key(key)).unwrap().is_none());
}

fn must_get_err(engine: &Engine, key: &[u8], ts: u64) {
    let ctx = Context::new();
    let snapshot = engine.snapshot(&ctx);
    let txn = MvccTxn::new(&snapshot, to_fake_ts(ts));
    assert!(txn.get(&make_key(key)).is_err());
}

fn must_prewrite_put(engine: &mut Engine, key: &[u8], value: &[u8], pk: &[u8], ts: u64) {
    let ctx = Context::new();
    let snapshot = engine.snapshot(&ctx);
    let mut txn = MvccTxn::new(&snapshot, to_fake_ts(ts));
    txn.prewrite(Mutation::Put((make_key(key), value.to_vec())), pk).unwrap();
    engine.write(&ctx, txn.modifies());
}

fn must_prewrite_delete(engine: &mut Engine, key: &[u8], pk: &[u8], ts: u64) {
    let ctx = Context::new();
    let snapshot = engine.snapshot(&ctx);
    let mut txn = MvccTxn::new(&snapshot, to_fake_ts(ts));
    txn.prewrite(Mutation::Delete(make_key(key)), pk).unwrap();
    engine.write(&ctx, txn.modifies());
}

fn must_prewrite_lock(engine: &mut Engine, key: &[u8], pk: &[u8], ts: u64) {
    let ctx = Context::new();
    let snapshot = engine.snapshot(&ctx);
    let mut txn = MvccTxn::new(&snapshot, to_fake_ts(ts));
    txn.prewrite(Mutation::Lock(make_key(key)), pk).unwrap();
    engine.write(&ctx, txn.modifies());
}

fn must_prewrite_lock_err(engine: &Engine, key: &[u8], pk: &[u8], ts: u64) {
    let ctx = Context::new();
    let snapshot = engine.snapshot(&ctx);
    let mut txn = MvccTxn::new(&snapshot, to_fake_ts(ts));
    assert!(txn.prewrite(Mutation::Lock(make_key(key)), pk).is_err());
}

fn must_commit(engine: &mut Engine, key: &[u8], start_ts: u64, commit_ts: u64) {
    let ctx = Context::new();
    let snapshot = engine.snapshot(&ctx);
    let mut txn = MvccTxn::new(&snapshot, to_fake_ts(start_ts));
    txn.commit(&make_key(key), to_fake_ts(commit_ts)).unwrap();
    engine.write(&ctx, txn.modifies());
}

fn must_commit_err(engine: &Engine, key: &[u8], start_ts: u64, commit_ts: u64) {
    let ctx = Context::new();
    let snapshot = engine.snapshot(&ctx);
    let mut txn = MvccTxn::new(&snapshot, to_fake_ts(start_ts));
    assert!(txn.commit(&make_key(key), to_fake_ts(commit_ts)).is_err());
}

fn must_commit_then_get(
    engine: &mut Engine,
    key: &[u8],
    lock_ts: u64,
    commit_ts: u64,
    get_ts: u64,
    expect: &[u8],
) {
    let ctx = Context::new();
    let snapshot = engine.snapshot(&ctx);
    let mut txn = MvccTxn::new(&snapshot, to_fake_ts(lock_ts));
    assert_eq!(
        txn.commit_then_get(&make_key(key), to_fake_ts(commit_ts), to_fake_ts(get_ts))
            .unwrap()
            .unwrap(),
        expect
    );
    engine.write(&ctx, txn.modifies());
}

fn must_commit_then_get_err(engine: &Engine, key: &[u8], lock_ts: u64, commit_ts: u64, get_ts: u64) {
    let ctx = Context::new();
    let snapshot = engine.snapshot(&ctx);
    let mut txn = MvccTxn::new(&snapshot, to_fake_ts(lock_ts));
    assert!(txn
        .commit_then_get(&make_key(key), to_fake_ts(commit_ts), to_fake_ts(get_ts))
        .is_err());
}

fn must_rollback(engine: &mut Engine, key: &[u8], start_ts: u64) {
    let ctx = Context::new();
    let snapshot = engine.snapshot(&ctx);
    let mut txn = MvccTxn::new(&snapshot, to_fake_ts(start_ts));
    txn.rollback(&make_key(key)).unwrap();
    engine.write(&ctx, txn.modifies());
}

fn must_rollback_err(engine: &Engine, key: &[u8], start_ts: u64) {
    let ctx = Context::new();
    let snapshot = engine.snapshot(&ctx);
    let mut txn = MvccTxn::new(&snapshot, to_fake_ts(start_ts));
    assert!(txn.rollback(&make_key(key)).is_err());
}

fn must_rollback_then_get(engine: &mut Engine, key: &[u8], lock_ts: u64, expect: &[u8]) {
    let ctx = Context::new();
    let snapshot = engine.snapshot(&ctx);
    let mut txn = MvccTxn::new(&snapshot, to_fake_ts(lock_ts));
    assert_eq!(txn.rollback_then_get(&make_key(key)).unwrap().unwrap(), expect);
    engine.write(&ctx, txn.modifies());
}

fn must_rollback_then_get_err(engine: &Engine, key: &[u8], lock_ts: u64) {
    let ctx = Context::new();
    let snapshot = engine.snapshot(&ctx);
    let mut txn = MvccTxn::new(&snapshot, to_fake_ts(lock_ts));
    assert!(txn.rollback_then_get(&make_key(key)).is_err());
}

#[test]
fn test_mvcc_txn_read() {
    let mut engine = Engine::new();

    must_get_none(&engine, b"x", 1);

    must_prewrite_put(&mut engine, b"x", b"x5", b"x", 5);
    must_get_none(&engine, b"x", 3);
    must_get_err(&engine, b"x", 7);

    must_commit(&mut engine, b"x", 5, 10);
    must_get_none(&engine, b"x", 3);
    must_get_none(&engine, b"x", 7);
    must_get(&engine, b"x", 13, b"x5");

    must_prewrite_delete(&mut engine, b"x", b"x", 15);
    must_commit(&mut engine, b"x", 15, 20);
    must_get_none(&engine, b"x", 3);
    must_get_none(&engine, b"x", 7);
    must_get(&engine, b"x", 13, b"x5");
    must_get(&engine, b"x", 17, b"x5");
    must_get_none(&engine, b"x", 23);

    // insert bad format data
    engine.put(
        &Context::new(),
        make_key(b"y").append_meta_index(FIRST_META_INDEX),
        b"dummy".to_vec(),
    );
    must_get_err(&engine, b"y", 100);
}

#[test]
fn test_mvcc_txn_prewrite() {
    let mut engine = Engine::new();

    must_prewrite_put(&mut engine, b"x", b"x5", b"x", 5);
    // Key is locked.
    must_prewrite_lock_err(&engine, b"x", b"x", 6);
    must_commit(&mut engine, b"x", 5, 10);
    // Write conflict
    must_prewrite_lock_err(&engine, b"x", b"x", 6);
    // Not conflict
    must_prewrite_lock(&mut engine, b"x", b"x", 12);
    must_rollback(&mut engine, b"x", 12);
    // Can prewrite after rollback
    must_prewrite_lock(&mut engine, b"x", b"x", 13);
    must_rollback(&mut engine, b"x", 13);
}

#[test]
fn test_mvcc_txn_commit_ok() {
    let mut engine = Engine::new();
    must_prewrite_put(&mut engine, b"x", b"x10", b"x", 10);
    must_commit(&mut engine, b"x", 10, 15);
    // commit should be idempotent
    must_commit(&mut engine, b"x", 10, 15);
}

#[test]
fn test_mvcc_txn_commit_err() {
    let mut engine = Engine::new();

    // Not prewrite yet
    must_commit_err(&engine, b"x", 1, 2);
    must_prewrite_put(&mut engine, b"x", b"x5", b"x", 5);
    // start_ts not match
    must_commit_err(&engine, b"x", 4, 5);
    must_rollback(&mut engine, b"x", 5);
    // commit after rollback
    must_commit_err(&engine, b"x", 5, 6);
}

#[test]
fn test_mvcc_txn_commit_then_get() {
    let mut engine = Engine::new();

    must_prewrite_put(&mut engine, b"x", b"x5", b"x", 5);
    must_commit_then_get(&mut engine, b"x", 5, 10, 15, b"x5");
    must_commit_then_get(&mut engine, b"x", 5, 10, 15, b"x5");
    must_commit_then_get_err(&engine, b"x", 25, 30, 35);
}

#[test]
fn test_mvcc_txn_rollback() {
    let mut engine = Engine::new();

    must_prewrite_put(&mut engine, b"x", b"x5", b"x", 5);
    must_rollback(&mut engine, b"x", 5);
    // rollback should be idempotent
    must_rollback(&mut engine, b"x", 5);
    // lock should be released after rollback
    must_prewrite_lock(&mut engine, b"x", b"x", 10);
    must_rollback(&mut engine, b"x", 10);
    // data should be dropped after rollback
    must_get_none(&engine, b"x", 20);
}

#[test]
fn test_mvcc_txn_rollback_err() {
    let mut engine = Engine::new();

    must_prewrite_put(&mut engine, b"x", b"x5", b"x", 5);
    must_commit(&mut engine, b"x", 5, 10);
    must_rollback_err(&engine, b"x", 5);
}

#[test]
fn test_mvcc_txn_rollback_then_get() {
    let mut engine = Engine::new();

    must_prewrite_put(&mut engine, b"x", b"x5", b"x", 5);
    must_commit(&mut engine, b"x", 5, 10);
    must_rollback_then_get_err(&engine, b"x", 5);
    must_prewrite_put(&mut engine, b"x", b"x15", b"x", 15);
    must_rollback_then_get(&mut engine, b"x", 15, b"x5");
    must_rollback_then_get(&mut engine, b"x", 15, b"x5");
}

#[test]
fn test_mvcc_commit_after_meta_split() {
    let mut engine = Engine::new();
    for i in (1u64..).take(META_SPLIT_SIZE + 1) {
        must_prewrite_put(&mut engine, b"x", b"v", b"x", i * 10);
        must_commit(&mut engine, b"x", i * 10, i * 10 + 5);
    }
    // Make sure we can still commit the 1st txn after meta splits.
    must_commit(&mut engine, b"x", 10, 15);
}

#[test]
fn test_mvcc_txn_meta_split() {
    let mut engine = Engine::new();
    for i in 1u64..300 {
        let val = format!("x{}", i);
        must_prewrite_put(&mut engine, b"x", val.as_bytes(), b"x", 5 * i);
        must_commit(&mut engine, b"x", 5 * i, 5 * i + 1)
    }
    must_get(&engine, b"x", 9, b"x1");
    must_get_none(&engine, b"x", 5);
}

#[test]
fn test_mvcc_error_variants() {
    let mut engine = Engine::new();
    let ctx = Context::new();
    must_prewrite_put(&mut engine, b"k", b"v", b"pk", 5);

    // a reader at or after the lock is told who holds it
    let snapshot = engine.snapshot(&ctx);
    let txn = MvccTxn::new(&snapshot, to_fake_ts(7));
    assert_eq!(
        txn.get(&make_key(b"k")),
        Err(Error::KeyIsLocked { key: b"k".to_vec(), primary: b"pk".to_vec(), ts: to_fake_ts(5) })
    );
    // another transaction cannot prewrite
    let mut other = MvccTxn::new(&snapshot, to_fake_ts(6));
    assert_eq!(
        other.prewrite(Mutation::Delete(make_key(b"k")), b"k"),
        Err(Error::KeyIsLocked { key: b"k".to_vec(), primary: b"pk".to_vec(), ts: to_fake_ts(5) })
    );
    assert!(other.modifies().is_empty());
    // nor commit
    assert_eq!(other.commit(&make_key(b"k"), to_fake_ts(8)), Err(Error::TxnLockNotFound));

    must_commit(&mut engine, b"k", 5, 10);
    let snapshot = engine.snapshot(&ctx);
    let mut late = MvccTxn::new(&snapshot, to_fake_ts(9));
    assert_eq!(late.prewrite(Mutation::Lock(make_key(b"k")), b"k"), Err(Error::WriteConflict));
    let mut same = MvccTxn::new(&snapshot, to_fake_ts(10));
    assert_eq!(same.prewrite(Mutation::Lock(make_key(b"k")), b"k"), Err(Error::WriteConflict));
    let mut back = MvccTxn::new(&snapshot, to_fake_ts(5));
    assert_eq!(
        back.rollback(&make_key(b"k")),
        Err(Error::AlreadyCommitted { commit_ts: to_fake_ts(10) })
    );

    // a page that does not decode
    engine.put(&ctx, make_key(b"bad").append_meta_index(FIRST_META_INDEX), vec![7u8; 9]);
    let snapshot = engine.snapshot(&ctx);
    let txn = MvccTxn::new(&snapshot, 1);
    assert_eq!(txn.get(&make_key(b"bad")), Err(Error::BadFormat));

    // a first page that points to itself
    let looped = Meta { items: vec![], next: Some(FIRST_META_INDEX) };
    engine.put(&ctx, make_key(b"loop").append_meta_index(FIRST_META_INDEX), looped.to_bytes());
    let snapshot = engine.snapshot(&ctx);
    let txn = MvccTxn::new(&snapshot, 1);
    assert_eq!(txn.get(&make_key(b"loop")), Err(Error::BadChain));
}

#[test]
fn test_mvcc_put_visible_from_commit_ts() {
    let mut engine = Engine::new();
    must_prewrite_put(&mut engine, b"x", b"v1", b"x", 5);
    must_commit(&mut engine, b"x", 5, 10);
    must_get_none(&engine, b"x", 9);
    must_get(&engine, b"x", 10, b"v1");
    must_get(&engine, b"x", 13, b"v1");
    // a second version leaves the first to earlier readers
    must_prewrite_put(&mut engine, b"x", b"v2", b"x", 15);
    must_commit(&mut engine, b"x", 15, 20);
    must_get(&engine, b"x", 19, b"v1");
    must_get(&engine, b"x", 20, b"v2");
}

#[test]
fn test_mvcc_commit_twice_changes_nothing() {
    let mut engine = Engine::new();
    let ctx = Context::new();
    must_prewrite_put(&mut engine, b"x", b"x10", b"x", 10);
    must_commit(&mut engine, b"x", 10, 15);
    let head = engine.get(&ctx, &make_key(b"x").append_meta_index(FIRST_META_INDEX)).unwrap();
    let snapshot = engine.snapshot(&ctx);
    let mut txn = MvccTxn::new(&snapshot, to_fake_ts(10));
    txn.commit(&make_key(b"x"), to_fake_ts(15)).unwrap();
    engine.write(&ctx, txn.modifies());
    assert_eq!(
        engine.get(&ctx, &make_key(b"x").append_meta_index(FIRST_META_INDEX)).unwrap(),
        head
    );
    let page = Meta::parse(&head).unwrap();
    assert_eq!(
        page.items,
        vec![MetaItem { start_ts: to_fake_ts(10), commit_ts: to_fake_ts(15) }]
    );
    assert_eq!(page.next, None);
}

#[test]
fn test_mvcc_meta_split_moves_older_half() {
    let mut page = Meta::new();
    for i in 0..META_SPLIT_SIZE as u64 - 1 {
        page.push_item(MetaItem { start_ts: 10 * i, commit_ts: 10 * i + 5 });
    }
    assert!(page.split().is_none());
    page.push_item(MetaItem { start_ts: 1000, commit_ts: 1005 });
    let (older, index) = page.split().unwrap();
    assert_eq!(index, FIRST_META_INDEX + 1);
    assert_eq!(page.items.len(), META_SPLIT_SIZE / 2);
    assert_eq!(older.items.len(), META_SPLIT_SIZE - META_SPLIT_SIZE / 2);
    assert_eq!(page.items[0], MetaItem { start_ts: 1000, commit_ts: 1005 });
    assert_eq!(page.next_index(), Some(index));
    assert_eq!(older.next_index(), None);
    assert_eq!(older.items[older.items.len() - 1], MetaItem { start_ts: 0, commit_ts: 5 });
    assert_eq!(Meta::parse(&page.to_bytes()).unwrap(), page);
    assert_eq!(Meta::parse(&older.to_bytes()).unwrap(), older);
}

#[test]
fn test_mvcc_lock_round_trip() {
    let lock = MetaLock {
        lock_type: MetaLockType::ReadWrite,
        primary_key: b"primary".to_vec(),
        start_ts: 0x0102030405060708,
    };
    let bytes = lock.to_bytes();
    assert_eq!(bytes[0], 1);
    assert_eq!(&bytes[1..9], &[1, 2, 3, 4, 5, 6, 7, 8]);
    assert_eq!(&bytes[9..], b"primary");
    assert_eq!(MetaLock::parse(&bytes).unwrap(), lock);
    assert!(MetaLock::parse(&bytes[..8]).is_none());
    assert!(MetaLock::parse(&[2u8; 12]).is_none());
}

#[test]
fn test_mvcc_cursor_reads_like_snapshot() {
    let mut engine = Engine::new();
    let ctx = Context::new();
    must_prewrite_put(&mut engine, b"x", b"x5", b"x", 5);
    must_commit(&mut engine, b"x", 5, 10);
    let snapshot = engine.snapshot(&ctx);
    let mvcc = MvccSnapshot::new(&snapshot, to_fake_ts(12));
    let mut cursor = MvccCursor::new(&mvcc, to_fake_ts(12));
    assert_eq!(cursor.get_version(&make_key(b"x")).unwrap(), Some(to_fake_ts(5)));
    assert_eq!(cursor.get(&make_key(b"x")).unwrap().unwrap(), b"x5");
    let early = MvccSnapshot::new(&snapshot, to_fake_ts(9));
    let mut cursor = MvccCursor::new(&early, to_fake_ts(9));
    assert_eq!(cursor.get_version(&make_key(b"x")).unwrap(), None);
    assert_eq!(cursor.get(&make_key(b"x")).unwrap(), None);
}

#[test]
fn test_mvcc_write_meta_splits_a_full_page() {
    let engine = Engine::new();
    let snapshot = engine.snapshot(&Context::new());
    let key = make_key(b"x");

    // a page below the limit is stored as it is
    let mut txn = MvccTxn::new(&snapshot, 1);
    let mut page = Meta::new();
    for i in 0..(META_SPLIT_SIZE as u64 - 1) {
        page.push_item(MetaItem { start_ts: 10 * i, commit_ts: 10 * i + 5 });
    }
    let before = page.to_bytes();
    txn.write_meta(&key, &mut page);
    assert_eq!(
        txn.modifies(),
        vec![Modify::Put(CfName::Default, key.append_meta_index(FIRST_META_INDEX), before)]
    );
    assert_eq!(page.next_index(), None);

    // a full page gives its older half to a new page, which is stored first
    page.push_item(MetaItem { start_ts: 1000, commit_ts: 1005 });
    let all = page.items.clone();
    txn.write_meta(&key, &mut page);
    assert_eq!(page.next_index(), Some(FIRST_META_INDEX + 1));
    assert_eq!(page.items[..], all[..META_SPLIT_SIZE / 2]);
    let mut older = Meta::new();
    for item in all[META_SPLIT_SIZE / 2..].iter().rev() {
        older.push_item(*item);
    }
    assert_eq!(
        txn.modifies(),
        vec![
            Modify::Put(
                CfName::Default,
                key.append_meta_index(FIRST_META_INDEX + 1),
                older.to_bytes()
            ),
            Modify::Put(
                CfName::Default,
                key.append_meta_index(FIRST_META_INDEX),
                page.to_bytes()
            ),
        ]
    );

    // the next split goes behind the page that the first one made
    for i in 0..(META_SPLIT_SIZE as u64 / 2) {
        page.push_item(MetaItem { start_ts: 2000 + 10 * i, commit_ts: 2005 + 10 * i });
    }
    txn.write_meta(&key, &mut page);
    assert_eq!(page.next_index(), Some(FIRST_META_INDEX + 2));
    let writes = txn.modifies();
    assert_eq!(writes.len(), 2);
    match &writes[0] {
        Modify::Put(_, to, bytes) => {
            assert_eq!(to, &key.append_meta_index(FIRST_META_INDEX + 2));
            assert_eq!(Meta::parse(bytes).unwrap().next_index(), Some(FIRST_META_INDEX + 1));
        }
        other => panic!("unexpected write {:?}", other),
    }
}
