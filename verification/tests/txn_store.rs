use tikv::storage::engine::{Context, Engine};
use tikv::storage::mvcc::errors::Error as MvccError;
use tikv::storage::txn::errors::Error;
use tikv::storage::txn::shard::{shard_index, shard_indexes, SHARD_MUTEX_SIZE};
use tikv::proto::raft_cmdpb::CfName;
use tikv::storage::txn::store::{
    plan_cleanup, plan_commit, plan_commit_then_get, plan_prewrite, plan_rollback,
    plan_rollback_then_get, SnapshotStore, TxnStore,
};
use tikv::storage::types::{make_key, Key, KvPair, Mutation};

fn get_none(store: &TxnStore, key: &[u8], ts: u64) {
    let key = make_key(key);
    assert_eq!(store.get(Context::new(), &key, ts).unwrap(), None);
}

fn get_err(store: &TxnStore, key: &[u8], ts: u64) {
    let key = make_key(key);
    assert!(store.get(Context::new(), &key, ts).is_err());
}

fn get_ok(store: &TxnStore, key: &[u8], ts: u64, expect: &[u8]) {
    let key = make_key(key);
    assert_eq!(store.get(Context::new(), &key, ts).unwrap().unwrap(), expect);
}

fn put_ok(store: &mut TxnStore, key: &[u8], value: &[u8], start_ts: u64, commit_ts: u64) {
    store
        .prewrite(
            Context::new(),
            vec![Mutation::Put((make_key(key), value.to_vec()))],
            key.to_vec(),
            start_ts,
        )
        .unwrap();
    store.commit(Context::new(), vec![make_key(key)], start_ts, commit_ts).unwrap();
}

fn delete_ok(store: &mut TxnStore, key: &[u8], start_ts: u64, commit_ts: u64) {
    store
        .prewrite(Context::new(), vec![Mutation::Delete(make_key(key))], key.to_vec(), start_ts)
        .unwrap();
    store.commit(Context::new(), vec![make_key(key)], start_ts, commit_ts).unwrap();
}

fn scan_ok(
    store: &TxnStore,
    start_key: &[u8],
    limit: usize,
    ts: u64,
    expect: Vec<Option<(&[u8], &[u8])>>,
) {
    let key_address = make_key(start_key);
    let result = store.scan(Context::new(), key_address, limit, ts).unwrap();
    let result: Vec<Option<KvPair>> = result.into_iter().map(Result::ok).collect();
    let expect: Vec<Option<KvPair>> =
        expect.into_iter().map(|x| x.map(|(k, v)| (k.to_vec(), v.to_vec()))).collect();
    assert_eq!(result, expect);
}

fn reverse_scan_ok(
    store: &TxnStore,
    start_key: &[u8],
    limit: usize,
    ts: u64,
    expect: Vec<Option<(&[u8], &[u8])>>,
) {
    let key_address = make_key(start_key);
    let result = store.reverse_scan(Context::new(), key_address, limit, ts).unwrap();
    let result: Vec<Option<KvPair>> = result.into_iter().map(Result::ok).collect();
    let expect: Vec<Option<KvPair>> =
        expect.into_iter().map(|x| x.map(|(k, v)| (k.to_vec(), v.to_vec()))).collect();
    assert_eq!(result, expect);
}

fn prewrite_ok(store: &mut TxnStore, mutations: Vec<Mutation>, primary: &[u8], start_ts: u64) {
    store.prewrite(Context::new(), mutations, primary.to_vec(), start_ts).unwrap();
}

fn commit_ok(store: &mut TxnStore, keys: Vec<&[u8]>, start_ts: u64, commit_ts: u64) {
    let keys: Vec<Key> = keys.iter().map(|x| make_key(x)).collect();
    store.commit(Context::new(), keys, start_ts, commit_ts).unwrap();
}

fn rollback_ok(store: &mut TxnStore, keys: Vec<&[u8]>, start_ts: u64) {
    let keys: Vec<Key> = keys.iter().map(|x| make_key(x)).collect();
    store.rollback(Context::new(), keys, start_ts).unwrap();
}

fn rollback_err(store: &mut TxnStore, keys: Vec<&[u8]>, start_ts: u64) {
    let keys: Vec<Key> = keys.iter().map(|x| make_key(x)).collect();
    assert!(store.rollback(Context::new(), keys, start_ts).is_err());
}

fn commit_then_get_ok(
    store: &mut TxnStore,
    key: &[u8],
    lock_ts: u64,
    commit_ts: u64,
    get_ts: u64,
    expect: &[u8],
) {
    assert_eq!(
        store
            .commit_then_get(Context::new(), make_key(key), lock_ts, commit_ts, get_ts)
            .unwrap()
            .unwrap(),
        expect
    );
}

fn rollback_then_get_ok(store: &mut TxnStore, key: &[u8], lock_ts: u64, expect: &[u8]) {
    assert_eq!(
        store.rollback_then_get(Context::new(), make_key(key), lock_ts).unwrap().unwrap(),
        expect
    );
}

#[test]
fn test_txn_store_get() {
    let mut store = TxnStore::new(Engine::new());

    // not exist
    get_none(&store, b"x", 10);
    // after put
    put_ok(&mut store, b"x", b"x", 5, 10);
    get_none(&store, b"x", 9);
    get_ok(&store, b"x", 10, b"x");
    get_ok(&store, b"x", 11, b"x");
}

#[test]
fn test_txn_store_delete() {
    let mut store = TxnStore::new(Engine::new());

    put_ok(&mut store, b"x", b"x5-10", 5, 10);
    delete_ok(&mut store, b"x", 15, 20);
    get_none(&store, b"x", 5);
    get_none(&store, b"x", 9);
    get_ok(&store, b"x", 10, b"x5-10");
    get_ok(&store, b"x", 19, b"x5-10");
    get_none(&store, b"x", 20);
    get_none(&store, b"x", 21);
}

#[test]
fn test_txn_store_cleanup_rollback() {
    let mut store = TxnStore::new(Engine::new());

    put_ok(&mut store, b"secondary", b"s-0", 1, 2);
    prewrite_ok(
        &mut store,
        vec![
            Mutation::Put((make_key(b"primary"), b"p-5".to_vec())),
            Mutation::Put((make_key(b"secondary"), b"s-5".to_vec())),
        ],
        b"primary",
        5,
    );
    get_err(&store, b"secondary", 10);
    rollback_ok(&mut store, vec![b"primary"], 5);
    rollback_then_get_ok(&mut store, b"secondary", 5, b"s-0");
    rollback_then_get_ok(&mut store, b"secondary", 5, b"s-0");
}

#[test]
fn test_txn_store_cleanup_commit() {
    let mut store = TxnStore::new(Engine::new());

    put_ok(&mut store, b"secondary", b"s-0", 1, 2);
    prewrite_ok(
        &mut store,
        vec![
            Mutation::Put((make_key(b"primary"), b"p-5".to_vec())),
            Mutation::Put((make_key(b"secondary"), b"s-5".to_vec())),
        ],
        b"primary",
        5,
    );
    get_err(&store, b"secondary", 8);
    get_err(&store, b"secondary", 12);
    commit_ok(&mut store, vec![b"primary"], 5, 10);
    rollback_err(&mut store, vec![b"primary"], 5);
    commit_then_get_ok(&mut store, b"secondary", 5, 10, 8, b"s-0");
    commit_then_get_ok(&mut store, b"secondary", 5, 10, 12, b"s-5");
    commit_then_get_ok(&mut store, b"secondary", 5, 10, 8, b"s-0");
    commit_then_get_ok(&mut store, b"secondary", 5, 10, 12, b"s-5");
}

fn check_v10(store: &TxnStore) {
    scan_ok(store, b"", 0, 10, vec![]);
    scan_ok(store, b"", 1, 10, vec![Some((b"A", b"A10"))]);
    scan_ok(store, b"", 2, 10, vec![Some((b"A", b"A10")), Some((b"C", b"C10"))]);
    scan_ok(
        store,
        b"",
        3,
        10,
        vec![Some((b"A", b"A10")), Some((b"C", b"C10")), Some((b"E", b"E10"))],
    );
    scan_ok(
        store,
        b"",
        4,
        10,
        vec![Some((b"A", b"A10")), Some((b"C", b"C10")), Some((b"E", b"E10"))],
    );
    scan_ok(
        store,
        b"A",
        3,
        10,
        vec![Some((b"A", b"A10")), Some((b"C", b"C10")), Some((b"E", b"E10"))],
    );
    scan_ok(store, b"A\x00", 3, 10, vec![Some((b"C", b"C10")), Some((b"E", b"E10"))]);
    scan_ok(store, b"C", 4, 10, vec![Some((b"C", b"C10")), Some((b"E", b"E10"))]);
    scan_ok(store, b"F", 1, 10, vec![]);

    reverse_scan_ok(store, b"F", 0, 10, vec![]);
    reverse_scan_ok(store, b"F", 1, 10, vec![Some((b"E", b"E10"))]);
    reverse_scan_ok(store, b"F", 2, 10, vec![Some((b"E", b"E10")), Some((b"C", b"C10"))]);
    reverse_scan_ok(
        store,
        b"F",
        3,
        10,
        vec![Some((b"E", b"E10")), Some((b"C", b"C10")), Some((b"A", b"A10"))],
    );
    reverse_scan_ok(
        store,
        b"F",
        4,
        10,
        vec![Some((b"E", b"E10")), Some((b"C", b"C10")), Some((b"A", b"A10"))],
    );
    reverse_scan_ok(
        store,
        b"F",
        3,
        10,
        vec![Some((b"E", b"E10")), Some((b"C", b"C10")), Some((b"A", b"A10"))],
    );
    reverse_scan_ok(store, b"D", 3, 10, vec![Some((b"C", b"C10")), Some((b"A", b"A10"))]);
    reverse_scan_ok(store, b"C", 4, 10, vec![Some((b"A", b"A10"))]);
    reverse_scan_ok(store, b"0", 1, 10, vec![]);
}

fn check_v20(store: &TxnStore) {
    scan_ok(
        store,
        b"",
        5,
        20,
        vec![
            Some((b"A", b"A10")),
            Some((b"B", b"B20")),
            Some((b"C", b"C10")),
            Some((b"D", b"D20")),
            Some((b"E", b"E10")),
        ],
    );
    scan_ok(
        store,
        b"C",
        5,
        20,
        vec![Some((b"C", b"C10")), Some((b"D", b"D20")), Some((b"E", b"E10"))],
    );
    scan_ok(store, b"D\x00", 1, 20, vec![Some((b"E", b"E10"))]);

    reverse_scan_ok(
        store,
        b"F",
        5,
        20,
        vec![
            Some((b"E", b"E10")),
            Some((b"D", b"D20")),
            Some((b"C", b"C10")),
            Some((b"B", b"B20")),
            Some((b"A", b"A10")),
        ],
    );
    reverse_scan_ok(
        store,
        b"C\x00",
        5,
        20,
        vec![Some((b"C", b"C10")), Some((b"B", b"B20")), Some((b"A", b"A10"))],
    );
    reverse_scan_ok(store, b"AAA", 1, 20, vec![Some((b"A", b"A10"))]);
}

fn check_v30(store: &TxnStore) {
    scan_ok(
        store,
        b"",
        5,
        30,
        vec![Some((b"B", b"B20")), Some((b"C", b"C10")), Some((b"E", b"E10"))],
    );
    scan_ok(store, b"A", 1, 30, vec![Some((b"B", b"B20"))]);
    scan_ok(store, b"C\x00", 5, 30, vec![Some((b"E", b"E10"))]);

    reverse_scan_ok(
        store,
        b"F",
        5,
        30,
        vec![Some((b"E", b"E10")), Some((b"C", b"C10")), Some((b"B", b"B20"))],
    );
    reverse_scan_ok(store, b"D\x00", 1, 30, vec![Some((b"C", b"C10"))]);
    reverse_scan_ok(store, b"D\x00", 5, 30, vec![Some((b"C", b"C10")), Some((b"B", b"B20"))]);
}

fn check_v40(store: &TxnStore) {
    scan_ok(
        store,
        b"",
        5,
        40,
        vec![Some((b"C", b"C40")), Some((b"D", b"D40")), Some((b"E", b"E10"))],
    );
    scan_ok(
        store,
        b"",
        5,
        100,
        vec![Some((b"C", b"C40")), Some((b"D", b"D40")), Some((b"E", b"E10"))],
    );
    reverse_scan_ok(
        store,
        b"F",
        5,
        40,
        vec![Some((b"E", b"E10")), Some((b"D", b"D40")), Some((b"C", b"C40"))],
    );
    reverse_scan_ok(
        store,
        b"F",
        5,
        100,
        vec![Some((b"E", b"E10")), Some((b"D", b"D40")), Some((b"C", b"C40"))],
    );
}

#[test]
fn test_txn_store_scan() {
    let mut store = TxnStore::new(Engine::new());

    // ver10: A(10) - B(_) - C(10) - D(_) - E(10)
    put_ok(&mut store, b"A", b"A10", 5, 10);
    put_ok(&mut store, b"C", b"C10", 5, 10);
    put_ok(&mut store, b"E", b"E10", 5, 10);
    check_v10(&store);

    // ver20: A(10) - B(20) - C(10) - D(20) - E(10)
    put_ok(&mut store, b"B", b"B20", 15, 20);
    put_ok(&mut store, b"D", b"D20", 15, 20);
    check_v10(&store);
    check_v20(&store);

    // ver30: A(_) - B(20) - C(10) - D(_) - E(10)
    delete_ok(&mut store, b"A", 25, 30);
    delete_ok(&mut store, b"D", 25, 30);
    check_v10(&store);
    check_v20(&store);
    check_v30(&store);

    // ver40: A(_) - B(_) - C(40) - D(40) - E(10)
    delete_ok(&mut store, b"B", 35, 40);
    put_ok(&mut store, b"C", b"C40", 35, 40);
    put_ok(&mut store, b"D", b"D40", 35, 40);
    check_v10(&store);
    check_v20(&store);
    check_v30(&store);
    check_v40(&store);
}

#[test]
fn test_txn_store_scan_reports_locked_keys() {
    let mut store = TxnStore::new(Engine::new());
    put_ok(&mut store, b"A", b"A10", 5, 10);
    put_ok(&mut store, b"C", b"C10", 5, 10);
    prewrite_ok(&mut store, vec![Mutation::Put((make_key(b"B"), b"B20".to_vec()))], b"B", 15);
    // a version written at the first timestamp sorts last among the keys of "A"
    put_ok(&mut store, b"0", b"zero", 0, 1);

    let result = store.scan(Context::new(), make_key(b""), 10, 20).unwrap();
    assert_eq!(result.len(), 4);
    assert_eq!(result[0], Ok((b"0".to_vec(), b"zero".to_vec())));
    assert_eq!(result[1], Ok((b"A".to_vec(), b"A10".to_vec())));
    assert_eq!(
        result[2],
        Err(Error::Mvcc {
            err: MvccError::KeyIsLocked { key: b"B".to_vec(), primary: b"B".to_vec(), ts: 15 }
        })
    );
    assert_eq!(result[3], Ok((b"C".to_vec(), b"C10".to_vec())));

    let result = store.reverse_scan(Context::new(), make_key(b"Z"), 10, 20).unwrap();
    assert_eq!(result.len(), 4);
    assert_eq!(result[0], Ok((b"C".to_vec(), b"C10".to_vec())));
    assert!(result[1].is_err());
    assert_eq!(result[2], Ok((b"A".to_vec(), b"A10".to_vec())));
    assert_eq!(result[3], Ok((b"0".to_vec(), b"zero".to_vec())));
}

#[test]
fn test_txn_store_prewrite_locked_key_is_reported_per_key() {
    let mut store = TxnStore::new(Engine::new());
    prewrite_ok(&mut store, vec![Mutation::Lock(make_key(b"b"))], b"b", 5);
    let results = store
        .prewrite(
            Context::new(),
            vec![
                Mutation::Put((make_key(b"a"), b"1".to_vec())),
                Mutation::Put((make_key(b"b"), b"2".to_vec())),
                Mutation::Put((make_key(b"c"), b"3".to_vec())),
            ],
            b"a".to_vec(),
            7,
        )
        .unwrap();
    assert_eq!(results.len(), 3);
    assert_eq!(results[0], Ok(()));
    assert_eq!(
        results[1],
        Err(Error::Mvcc {
            err: MvccError::KeyIsLocked { key: b"b".to_vec(), primary: b"b".to_vec(), ts: 5 }
        })
    );
    assert_eq!(results[2], Ok(()));
    // the keys that were free are locked now
    get_err(&store, b"a", 8);
    get_err(&store, b"c", 8);
    // a conflict fails the whole list and writes nothing
    store.commit(Context::new(), vec![make_key(b"a")], 7, 9).unwrap();
    assert_eq!(
        store.prewrite(
            Context::new(),
            vec![
                Mutation::Put((make_key(b"d"), b"4".to_vec())),
                Mutation::Put((make_key(b"a"), b"5".to_vec())),
            ],
            b"d".to_vec(),
            8,
        ),
        Err(Error::Mvcc { err: MvccError::WriteConflict })
    );
    get_none(&store, b"d", 100);
}

#[test]
fn test_txn_store_batch_get_and_snapshot_store() {
    let mut store = TxnStore::new(Engine::new());
    put_ok(&mut store, b"a", b"1", 1, 2);
    put_ok(&mut store, b"b", b"2", 3, 4);
    let got = store.batch_get(Context::new(), &vec![make_key(b"a"), make_key(b"b"), make_key(b"c")], 3).unwrap();
    assert_eq!(got, vec![Ok(Some(b"1".to_vec())), Ok(None), Ok(None)]);
    let snapshot = store.engine.snapshot(&Context::new());
    let snap_store = SnapshotStore::new(&snapshot, 10);
    assert_eq!(snap_store.get(&make_key(b"b")).unwrap().unwrap(), b"2");
    let mut scanner = snap_store.scanner();
    assert_eq!(scanner.seek(make_key(b"aa")).unwrap(), Some((make_key(b"b"), b"2".to_vec())));
    assert_eq!(scanner.reverse_seek(make_key(b"b")).unwrap(), Some((make_key(b"a"), b"1".to_vec())));
    assert_eq!(scanner.seek(make_key(b"c")).unwrap(), None);
    assert_eq!(scanner.get(&make_key(b"a"), 1).unwrap().unwrap(), b"1");
    assert_eq!(scanner.get(&make_key(b"a"), 2).unwrap(), None);
}

#[test]
fn test_shard_indexes_are_sorted_and_distinct() {
    let keys: Vec<Key> = (0..600u32).map(|i| make_key(format!("k{}", i).as_bytes())).collect();
    let shards = shard_indexes(&keys, SHARD_MUTEX_SIZE);
    assert!(!shards.is_empty());
    for w in shards.windows(2) {
        assert!(w[0] < w[1]);
    }
    for k in &keys {
        let idx = shard_index(k, SHARD_MUTEX_SIZE);
        assert!(idx < SHARD_MUTEX_SIZE);
        assert!(shards.contains(&idx));
    }
    assert_eq!(shard_index(&Key::from_encoded(vec![]), 7), 0);
    assert_eq!(shard_index(&Key::from_encoded(vec![2]), 7), 2);
    assert_eq!(shard_index(&Key::from_encoded(vec![1, 1]), 7), 32 % 7);
    assert_eq!(shard_indexes(&vec![], SHARD_MUTEX_SIZE), Vec::<usize>::new());
}

/// One client that increments counters: it reads, then prewrites, then
/// commits, one step at a time, and starts over when a step fails.
struct Incrementer {
    step: usize,
    start_ts: u64,
    read: Vec<usize>,
    done: usize,
}

fn parse_number(value: Option<Vec<u8>>) -> usize {
    match value {
        Some(x) => String::from_utf8(x).unwrap().parse().unwrap(),
        None => 0,
    }
}

fn format_key(x: usize) -> Vec<u8> {
    format!("k{}", x).into_bytes()
}

/// Runs `clients` incrementers over `key_num` counters in turns, one step
/// each, until each has made `inc_per_client` increments. Returns what the
/// successful increments read, in the order of their commits.
fn run_incrementers(
    store: &mut TxnStore,
    clients: usize,
    key_num: usize,
    inc_per_client: usize,
) -> Vec<Vec<usize>> {
    let keys: Vec<Key> = (0..key_num).map(|n| make_key(&format_key(n))).collect();
    let mut ts: u64 = 1000;
    let mut committed = vec![];
    let mut workers: Vec<Incrementer> = (0..clients)
        .map(|_| Incrementer { step: 0, start_ts: 0, read: vec![], done: 0 })
        .collect();
    let mut rounds = 0;
    while workers.iter().any(|w| w.done < inc_per_client) {
        rounds += 1;
        assert!(rounds <= 8 * clients * inc_per_client, "no progress");
        for w in workers.iter_mut() {
            if w.done >= inc_per_client {
                continue;
            }
            match w.step {
                0 => {
                    ts += 1;
                    w.start_ts = ts;
                    w.read.clear();
                    for key in &keys {
                        match store.get(Context::new(), key, w.start_ts) {
                            Ok(value) => w.read.push(parse_number(value)),
                            Err(_) => break,
                        }
                    }
                    if w.read.len() == keys.len() {
                        w.step = 1;
                    }
                }
                1 => {
                    let mutations = keys
                        .iter()
                        .zip(w.read.iter())
                        .map(|(k, n)| Mutation::Put((k.clone(), (n + 1).to_string().into_bytes())))
                        .collect();
                    let primary = format_key(0);
                    w.step = match store.prewrite(Context::new(), mutations, primary, w.start_ts) {
                        Ok(_) => 2,
                        Err(_) => 0,
                    };
                }
                _ => {
                    ts += 1;
                    w.step = 0;
                    if store.commit(Context::new(), keys.clone(), w.start_ts, ts).is_ok() {
                        committed.push(w.read.clone());
                        w.done += 1;
                    }
                }
            }
        }
    }
    committed
}

#[test]
fn test_isolation_inc_in_turns() {
    const CLIENTS: usize = 4;
    const INC_PER_CLIENT: usize = 100;
    let mut store = TxnStore::new(Engine::new());
    let committed = run_incrementers(&mut store, CLIENTS, 1, INC_PER_CLIENT);
    // no two increments read the same number
    let mut punch_card = vec![false; CLIENTS * INC_PER_CLIENT];
    for read in committed {
        assert_eq!(punch_card[read[0]], false);
        punch_card[read[0]] = true;
    }
    assert!(punch_card.iter().all(|p| *p));
    let key = make_key(&format_key(0));
    let last = store.get(Context::new(), &key, 1_000_000).unwrap();
    assert_eq!(parse_number(last), CLIENTS * INC_PER_CLIENT);
}

#[test]
fn test_isolation_multi_inc_in_turns() {
    const CLIENTS: usize = 4;
    const KEY_NUM: usize = 4;
    const INC_PER_CLIENT: usize = 25;
    let mut store = TxnStore::new(Engine::new());
    let committed = run_incrementers(&mut store, CLIENTS, KEY_NUM, INC_PER_CLIENT);
    assert_eq!(committed.len(), CLIENTS * INC_PER_CLIENT);
    for (i, read) in committed.iter().enumerate() {
        // all counters move together
        assert_eq!(read, &vec![i; KEY_NUM]);
    }
    for n in 0..KEY_NUM {
        let key = make_key(&format_key(n));
        let last = store.get(Context::new(), &key, 1_000_000).unwrap();
        assert_eq!(parse_number(last), CLIENTS * INC_PER_CLIENT);
    }
}

#[test]
fn test_plan_then_write_is_the_operation() {
    let ctx = Context::new();
    let mut engine = Engine::new();
    let mut store = TxnStore::new(Engine::new());

    // prewrite of two keys, planned on a snapshot and written afterwards
    let mutations = || {
        vec![
            Mutation::Put((make_key(b"a"), b"a5".to_vec())),
            Mutation::Put((make_key(b"b"), b"b5".to_vec())),
        ]
    };
    let snapshot = engine.snapshot(&ctx);
    let (results, writes) = plan_prewrite(&snapshot, mutations(), b"a".to_vec(), 5).unwrap();
    assert_eq!(results.len(), 2);
    assert!(results.iter().all(|r| r.is_ok()));
    // a lock and a value for each key
    assert_eq!(writes.len(), 4);
    // nothing is written until the plan is
    assert_eq!(engine.snapshot(&ctx).cf(CfName::Lock).len(), 0);
    engine.write(&ctx, writes);
    assert_eq!(engine.snapshot(&ctx).cf(CfName::Lock).len(), 2);
    store.prewrite(ctx, mutations(), b"a".to_vec(), 5).unwrap();

    // a plan that fails writes nothing
    let snapshot = engine.snapshot(&ctx);
    assert!(plan_commit(&snapshot, vec![make_key(b"a")], 6, 10).is_err());
    assert!(plan_rollback_then_get(&snapshot, make_key(b"c"), 6).is_ok());

    // commit one key, take back the other
    let (_, writes) = plan_commit(&snapshot, vec![make_key(b"a")], 5, 10).unwrap();
    engine.write(&ctx, writes);
    let snapshot = engine.snapshot(&ctx);
    let (found, writes) = plan_rollback_then_get(&snapshot, make_key(b"b"), 5).unwrap();
    assert_eq!(found, None);
    engine.write(&ctx, writes);
    store.commit(ctx, vec![make_key(b"a")], 5, 10).unwrap();
    assert_eq!(store.rollback_then_get(ctx, make_key(b"b"), 5).unwrap(), None);

    // both ways leave the same engine
    let planned = TxnStore::new(engine);
    for key in [&b"a"[..], b"b"] {
        for ts in [4, 9, 10, 12] {
            let key = make_key(key);
            assert_eq!(
                planned.get(ctx, &key, ts).unwrap(),
                store.get(ctx, &key, ts).unwrap()
            );
        }
    }
    get_ok(&planned, b"a", 12, b"a5");
    get_none(&planned, b"b", 12);

    // cleanup and commit_then_get, planned
    let mut engine = Engine::new();
    let snapshot = engine.snapshot(&ctx);
    let (_, writes) = plan_prewrite(
        &snapshot,
        vec![Mutation::Put((make_key(b"x"), b"x7".to_vec()))],
        b"x".to_vec(),
        7,
    )
    .unwrap();
    engine.write(&ctx, writes);
    let snapshot = engine.snapshot(&ctx);
    let (found, writes) = plan_commit_then_get(&snapshot, make_key(b"x"), 7, 9, 8).unwrap();
    assert_eq!(found, None);
    engine.write(&ctx, writes);
    let snapshot = engine.snapshot(&ctx);
    assert!(plan_cleanup(&snapshot, make_key(b"x"), 7).is_err());
    // a rollback with nothing to take back stores the first page again
    let (_, writes) = plan_cleanup(&snapshot, make_key(b"x"), 8).unwrap();
    assert_eq!(writes.len(), 1);
    let (_, writes) = plan_rollback(&snapshot, vec![make_key(b"y")], 8).unwrap();
    assert_eq!(writes.len(), 1);
    get_ok(&TxnStore::new(engine), b"x", 9, b"x7");
}
