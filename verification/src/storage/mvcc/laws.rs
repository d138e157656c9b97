//! What holds of the operations of a transaction on a key whose records
//! are well formed: what each operation leaves, and what repeating or
//! reversing an operation does.

use crate::proto::raft_cmdpb::CfName;
use crate::raftstore::store::engine::SnapshotView;
use crate::storage::engine::{apply_modifies, ModifyView};
use crate::storage::mvcc::chain::{
    key_chain, key_wf, lemma_apply_one, lemma_apply_two, lemma_chain_frame, lemma_find_in_chain,
    lemma_first_hit_concat, lemma_first_started_by, lemma_first_started_by_later,
    lemma_keys_distinct, lemma_push_keeps_order, spec_chain,
};
use crate::storage::mvcc::errors::ErrorKind;
use crate::storage::mvcc::meta::{
    lemma_meta_bytes_parse, lemma_parse_lock_bytes, lemma_parse_meta_bytes, spec_lock_bytes,
    spec_meta_bytes, spec_split, MetaItem, MetaLockType, MetaLockView, MetaView, FIRST_META_INDEX,
    TS_LIMIT,
};
use crate::storage::mvcc::txn::{
    cf_get, chain_measure, first_hit, own_lock, spec_commit, spec_commit_impl, spec_get,
    spec_load_lock, spec_load_meta, spec_meta_lock_type, spec_prewrite, spec_rollback,
    spec_rollback_impl, spec_write_meta, valid_next, Probe,
};
use crate::storage::types::{spec_append_meta_index, spec_append_ts, Mutation};
use vstd::prelude::*;

verus! {

/// The versions of `key` that lie behind its first page `head`.
pub open spec fn chain_tail(s: SnapshotView, key: Seq<u8>, head: MetaView) -> Seq<MetaItem> {
    match head.next {
        None => Seq::empty(),
        Some(n) => spec_chain(s, key, spec_load_meta(s, key, n)->Ok_0, n)->0,
    }
}

/// The versions of a key are those of its first page, then those behind.
pub proof fn lemma_chain_is_head_and_tail(s: SnapshotView, key: Seq<u8>, head: MetaView)
    requires
        spec_chain(s, key, head, FIRST_META_INDEX) is Some,
    ensures
        spec_chain(s, key, head, FIRST_META_INDEX)->0 == head.items + chain_tail(s, key, head),
        head.next matches Some(n) ==> valid_next(FIRST_META_INDEX, n) && spec_load_meta(
            s,
            key,
            n,
        ) is Ok && spec_chain(s, key, spec_load_meta(s, key, n)->Ok_0, n) is Some,
{
    if head.next is None {
        assert(head.items + Seq::<MetaItem>::empty() =~= head.items);
    }
}

/// Storing the first page `meta` of `key` leaves the versions of `meta`
/// in front of the versions that lay behind the first page before, and
/// touches neither locks nor values.
pub proof fn lemma_store_head(s: SnapshotView, key: Seq<u8>, meta: MetaView)
    requires
        spec_load_meta(s, key, FIRST_META_INDEX) is Ok,
        spec_chain(s, key, spec_load_meta(s, key, FIRST_META_INDEX)->Ok_0, FIRST_META_INDEX) is Some,
        meta.next == spec_load_meta(s, key, FIRST_META_INDEX)->Ok_0.next,
        meta.items.len() == 0 ==> meta.next is None,
    ensures
        ({
            let head = spec_load_meta(s, key, FIRST_META_INDEX)->Ok_0;
            let t = apply_modifies(s, spec_write_meta(key, meta));
            &&& t.lock_cf == s.lock_cf
            &&& forall|ts: u64|
                ts < TS_LIMIT ==> cf_get(t.default_cf, #[trigger] spec_append_ts(key, ts))
                    == cf_get(s.default_cf, spec_append_ts(key, ts))
            &&& spec_load_meta(t, key, FIRST_META_INDEX) matches Ok(h) && spec_split(h) is None
                && (h.items.len() == 0 ==> h.next is None) && (spec_split(meta) is None ==> h
                == meta) && (h.items.len() > 0 && meta.items.len() > 0 ==> h.items[0]
                == meta.items[0])
            &&& key_chain(t, key) == Some(meta.items + chain_tail(s, key, head))
            &&& spec_split(meta) is None ==> t.default_cf == s.default_cf.insert(
                spec_append_meta_index(key, FIRST_META_INDEX),
                spec_meta_bytes(meta),
            )
        }),
{
    let head = spec_load_meta(s, key, FIRST_META_INDEX)->Ok_0;
    let head_key = spec_append_meta_index(key, FIRST_META_INDEX);
    let tail = chain_tail(s, key, head);
    lemma_chain_is_head_and_tail(s, key, head);
    match spec_split(meta) {
        None => {
            let w = ModifyView::Put(CfName::Default, head_key, spec_meta_bytes(meta));
            lemma_apply_one(s, w);
            let t = apply_modifies(s, spec_write_meta(key, meta));
            assert(t.default_cf == s.default_cf.insert(head_key, spec_meta_bytes(meta)));
            lemma_parse_meta_bytes(meta);
            assert(spec_load_meta(t, key, FIRST_META_INDEX) == Ok::<MetaView, ErrorKind>(meta));
            assert forall|ts: u64| ts < TS_LIMIT implies cf_get(
                t.default_cf,
                #[trigger] spec_append_ts(key, ts),
            ) == cf_get(s.default_cf, spec_append_ts(key, ts)) by {
                lemma_keys_distinct(key, FIRST_META_INDEX, 0, ts, 0);
            }
            assert forall|i: u64|
                i != FIRST_META_INDEX && i < chain_measure(FIRST_META_INDEX) implies cf_get(
                s.default_cf,
                #[trigger] spec_append_meta_index(key, i),
            ) == cf_get(t.default_cf, spec_append_meta_index(key, i)) by {
                lemma_keys_distinct(key, i, FIRST_META_INDEX, 0, 0);
            }
            // the pages behind are as they were
            match meta.next {
                None => {
                    assert(meta.items + Seq::<MetaItem>::empty() =~= meta.items);
                },
                Some(n) => {
                    assert(spec_load_meta(t, key, n) == spec_load_meta(s, key, n)) by {
                        lemma_keys_distinct(key, n, FIRST_META_INDEX, 0, 0);
                    }
                    let page = spec_load_meta(s, key, n)->Ok_0;
                    assert forall|i: u64|
                        i != FIRST_META_INDEX && i < chain_measure(n) implies cf_get(
                        s.default_cf,
                        #[trigger] spec_append_meta_index(key, i),
                    ) == cf_get(t.default_cf, spec_append_meta_index(key, i)) by {
                        lemma_keys_distinct(key, i, FIRST_META_INDEX, 0, 0);
                    }
                    lemma_chain_frame(s, t, key, page, n);
                },
            }
        },
        Some((stays, created, index)) => {
            let page_key = spec_append_meta_index(key, index);
            let w1 = ModifyView::Put(CfName::Default, page_key, spec_meta_bytes(created));
            let w2 = ModifyView::Put(CfName::Default, head_key, spec_meta_bytes(stays));
            lemma_apply_two(s, w1, w2);
            let t = apply_modifies(s, spec_write_meta(key, meta));
            assert(t.default_cf == s.default_cf.insert(page_key, spec_meta_bytes(created)).insert(
                head_key,
                spec_meta_bytes(stays),
            ));
            lemma_parse_meta_bytes(stays);
            lemma_parse_meta_bytes(created);
            lemma_keys_distinct(key, index, FIRST_META_INDEX, 0, 0);
            assert(spec_load_meta(t, key, FIRST_META_INDEX) == Ok::<MetaView, ErrorKind>(stays));
            assert(spec_load_meta(t, key, index) == Ok::<MetaView, ErrorKind>(created));
            assert(valid_next(FIRST_META_INDEX, index));
            assert forall|ts: u64| ts < TS_LIMIT implies cf_get(
                t.default_cf,
                #[trigger] spec_append_ts(key, ts),
            ) == cf_get(s.default_cf, spec_append_ts(key, ts)) by {
                lemma_keys_distinct(key, FIRST_META_INDEX, 0, ts, 0);
                lemma_keys_distinct(key, index, 0, ts, 0);
            }
            assert(stays.items + created.items =~= meta.items);
            match meta.next {
                None => {
                    assert(spec_chain(t, key, created, index) == Some(created.items));
                    assert(meta.items + Seq::<MetaItem>::empty() =~= meta.items);
                },
                Some(n) => {
                    assert(index == n + 1);
                    assert(valid_next(index, n));
                    assert(spec_load_meta(t, key, n) == spec_load_meta(s, key, n)) by {
                        lemma_keys_distinct(key, n, FIRST_META_INDEX, 0, 0);
                        lemma_keys_distinct(key, n, index, 0, 0);
                    }
                    let page = spec_load_meta(s, key, n)->Ok_0;
                    assert forall|i: u64|
                        i != FIRST_META_INDEX && i < chain_measure(n) implies cf_get(
                        s.default_cf,
                        #[trigger] spec_append_meta_index(key, i),
                    ) == cf_get(t.default_cf, spec_append_meta_index(key, i)) by {
                        lemma_keys_distinct(key, i, FIRST_META_INDEX, 0, 0);
                        lemma_keys_distinct(key, i, index, 0, 0);
                    }
                    lemma_chain_frame(s, t, key, page, n);
                    assert(spec_chain(t, key, created, index) == Some(created.items + tail));
                    assert(stays.items + (created.items + tail) =~= meta.items + tail);
                },
            }
        },
    }
}

/// What a prewrite leaves of a key whose records are well formed: the
/// lock of the transaction, the value of a put under the key and the start
/// timestamp, and the versions as they were. The records are well formed
/// after it.
pub proof fn lemma_prewrite(s: SnapshotView, start_ts: u64, mutation: &Mutation, primary: Seq<u8>)
    requires
        key_wf(s, mutation.spec_key()),
        start_ts < TS_LIMIT,
        spec_prewrite(s, start_ts, mutation, primary).result is Ok,
    ensures
        ({
            let key = mutation.spec_key();
            let t = apply_modifies(s, spec_prewrite(s, start_ts, mutation, primary).writes);
            &&& key_wf(t, key)
            &&& spec_load_lock(t, key) == Ok::<Option<MetaLockView>, ErrorKind>(
                Some(
                    MetaLockView {
                        lock_type: spec_meta_lock_type(mutation),
                        primary_key: primary,
                        start_ts,
                    },
                ),
            )
            &&& key_chain(t, key) == key_chain(s, key)
            &&& mutation matches Mutation::Put((_, value)) ==> cf_get(
                t.default_cf,
                spec_append_ts(key, start_ts),
            ) == Some(value@)
            &&& forall|ts: u64|
                ts < TS_LIMIT && ts != start_ts ==> cf_get(
                    t.default_cf,
                    #[trigger] spec_append_ts(key, ts),
                ) == cf_get(s.default_cf, spec_append_ts(key, ts))
        }),
{
    let key = mutation.spec_key();
    let out = spec_prewrite(s, start_ts, mutation, primary);
    let t = apply_modifies(s, out.writes);
    let lock = MetaLockView {
        lock_type: spec_meta_lock_type(mutation),
        primary_key: primary,
        start_ts,
    };
    let w1 = ModifyView::Put(CfName::Lock, key, spec_lock_bytes(lock));
    lemma_parse_lock_bytes(lock);
    let head = spec_load_meta(s, key, FIRST_META_INDEX)->Ok_0;
    lemma_chain_is_head_and_tail(s, key, head);
    match *mutation {
        Mutation::Put((_, value)) => {
            let w2 = ModifyView::Put(CfName::Default, spec_append_ts(key, start_ts), value@);
            assert(out.writes =~= seq![w1, w2]);
            lemma_apply_two(s, w1, w2);
            assert(t.default_cf == s.default_cf.insert(spec_append_ts(key, start_ts), value@));
        },
        _ => {
            assert(out.writes =~= seq![w1]);
            lemma_apply_one(s, w1);
            assert(t.default_cf == s.default_cf);
        },
    }
    assert(t.lock_cf == s.lock_cf.insert(key, spec_lock_bytes(lock)));
    assert forall|i: u64| i < TS_LIMIT implies cf_get(
        s.default_cf,
        #[trigger] spec_append_meta_index(key, i),
    ) == cf_get(t.default_cf, spec_append_meta_index(key, i)) by {
        lemma_keys_distinct(key, i, 0, start_ts, 0);
    }
    assert(spec_load_meta(t, key, FIRST_META_INDEX) == spec_load_meta(s, key, FIRST_META_INDEX));
    lemma_chain_frame(s, t, key, head, FIRST_META_INDEX);
    assert forall|ts: u64| ts < TS_LIMIT && ts != start_ts implies cf_get(
        t.default_cf,
        #[trigger] spec_append_ts(key, ts),
    ) == cf_get(s.default_cf, spec_append_ts(key, ts)) by {
        lemma_keys_distinct(key, 0, 0, ts, start_ts);
    }
    // the lock is that of a transaction that began after the newest version
    let items = key_chain(s, key)->0;
    if items.len() > 0 {
        assert(head.items.len() > 0);
        assert(items[0] == head.items[0]);
    }
}

/// What a commit by the transaction that holds the lock leaves of a key
/// whose records are well formed: no lock; the versions as they were,
/// with the version of the transaction in front if the lock protected a
/// write; and the values as they were. The records are well formed after
/// it: the versions stay strictly decreasing in their commit timestamps.
pub proof fn lemma_commit(s: SnapshotView, start_ts: u64, key: Seq<u8>, commit_ts: u64)
    requires
        key_wf(s, key),
        own_lock(spec_load_lock(s, key)->Ok_0, start_ts) is Some,
        start_ts < commit_ts,
    ensures
        ({
            let l = own_lock(spec_load_lock(s, key)->Ok_0, start_ts)->0;
            let out = spec_commit(s, start_ts, key, commit_ts);
            let t = apply_modifies(s, out.writes);
            let item = MetaItem { start_ts, commit_ts };
            &&& out.result is Ok
            &&& key_wf(t, key)
            &&& spec_load_lock(t, key) == Ok::<Option<MetaLockView>, ErrorKind>(None)
            &&& key_chain(t, key) == Some(
                if l.lock_type == MetaLockType::ReadWrite {
                    seq![item] + key_chain(s, key)->0
                } else {
                    key_chain(s, key)->0
                },
            )
            &&& l.lock_type == MetaLockType::ReadWrite ==> spec_load_meta(
                t,
                key,
                FIRST_META_INDEX,
            )->Ok_0.items.len() > 0 && spec_load_meta(t, key, FIRST_META_INDEX)->Ok_0.items[0]
                == item
            &&& forall|ts: u64|
                ts < TS_LIMIT ==> cf_get(t.default_cf, #[trigger] spec_append_ts(key, ts))
                    == cf_get(s.default_cf, spec_append_ts(key, ts))
        }),
{
    let l = own_lock(spec_load_lock(s, key)->Ok_0, start_ts)->0;
    let head = spec_load_meta(s, key, FIRST_META_INDEX)->Ok_0;
    let item = MetaItem { start_ts, commit_ts };
    let done = spec_commit_impl(s, start_ts, key, commit_ts, head);
    let meta = done.result->Ok_0;
    let out = spec_commit(s, start_ts, key, commit_ts);
    let unlock = ModifyView::Delete(CfName::Lock, key);
    assert(done.writes == seq![unlock]);
    let mid = apply_modifies(s, seq![unlock]);
    lemma_apply_one(s, unlock);
    assert(mid.default_cf == s.default_cf);
    assert(mid.lock_cf == s.lock_cf.remove(key));
    crate::storage::engine::lemma_apply_modifies_concat(s, seq![unlock], spec_write_meta(key, meta));
    let t = apply_modifies(s, out.writes);
    assert(t == apply_modifies(mid, spec_write_meta(key, meta)));
    assert(spec_load_meta(mid, key, FIRST_META_INDEX) == spec_load_meta(
        s,
        key,
        FIRST_META_INDEX,
    ));
    assert forall|i: u64|
        i != FIRST_META_INDEX && i < chain_measure(FIRST_META_INDEX) implies cf_get(
        s.default_cf,
        #[trigger] spec_append_meta_index(key, i),
    ) == cf_get(mid.default_cf, spec_append_meta_index(key, i)) by {}
    lemma_chain_frame(s, mid, key, head, FIRST_META_INDEX);
    lemma_chain_is_head_and_tail(s, key, head);
    lemma_chain_is_head_and_tail(mid, key, head);
    lemma_store_head(mid, key, meta);
    let old_items = key_chain(s, key)->0;
    assert(chain_tail(mid, key, head) == chain_tail(s, key, head)) by {
        match head.next {
            None => {},
            Some(n) => {
                let page = spec_load_meta(s, key, n)->Ok_0;
                assert forall|i: u64|
                    i != FIRST_META_INDEX && i < chain_measure(n) implies cf_get(
                    s.default_cf,
                    #[trigger] spec_append_meta_index(key, i),
                ) == cf_get(mid.default_cf, spec_append_meta_index(key, i)) by {}
                lemma_chain_frame(s, mid, key, page, n);
            },
        }
    }
    if l.lock_type == MetaLockType::ReadWrite {
        assert(meta.items + chain_tail(s, key, head) =~= seq![item] + old_items);
        lemma_push_keeps_order(old_items, item);
    } else {
        assert(meta == head);
    }
}

/// A commit repeated leaves everything as the first commit left it: the
/// second commit of a write succeeds and changes nothing.
pub proof fn lemma_commit_twice(s: SnapshotView, start_ts: u64, key: Seq<u8>, commit_ts: u64)
    requires
        key_wf(s, key),
        own_lock(spec_load_lock(s, key)->Ok_0, start_ts) matches Some(l) && l.lock_type
            == MetaLockType::ReadWrite,
        start_ts < commit_ts,
    ensures
        ({
            let t = apply_modifies(s, spec_commit(s, start_ts, key, commit_ts).writes);
            let again = spec_commit(t, start_ts, key, commit_ts);
            &&& again.result is Ok
            &&& apply_modifies(t, again.writes) == t
        }),
{
    lemma_commit(s, start_ts, key, commit_ts);
    let t = apply_modifies(s, spec_commit(s, start_ts, key, commit_ts).writes);
    lemma_committed_is_settled(t, start_ts, key, commit_ts, 0);
}

/// A commit by a transaction that holds no lock on the key, and of which
/// the key has a version, succeeds and changes nothing, however many
/// versions were committed since and on whichever page the version is.
pub proof fn lemma_committed_is_settled(
    s: SnapshotView,
    start_ts: u64,
    key: Seq<u8>,
    commit_ts: u64,
    k: int,
)
    requires
        key_wf(s, key),
        own_lock(spec_load_lock(s, key)->Ok_0, start_ts) is None,
        0 <= k < key_chain(s, key)->0.len(),
        key_chain(s, key)->0[k].start_ts == start_ts,
    ensures
        spec_commit(s, start_ts, key, commit_ts).result is Ok,
        apply_modifies(s, spec_commit(s, start_ts, key, commit_ts).writes) == s,
        spec_rollback(s, start_ts, key).result == Err::<(), ErrorKind>(
            ErrorKind::AlreadyCommitted { commit_ts: key_chain(s, key)->0[k].commit_ts },
        ),
{
    let head = spec_load_meta(s, key, FIRST_META_INDEX)->Ok_0;
    let items = key_chain(s, key)->0;
    lemma_find_in_chain(s, key, head, FIRST_META_INDEX, Probe::StartedBy(start_ts));
    lemma_first_started_by(items, k);
    let out = spec_commit(s, start_ts, key, commit_ts);
    assert(out.writes =~= spec_write_meta(key, head));
    lemma_rewrite_head(s, key);
}

/// Storing the first page of a key as it is changes nothing.
proof fn lemma_rewrite_head(s: SnapshotView, key: Seq<u8>)
    requires
        key_wf(s, key),
        key_chain(s, key)->0.len() > 0,
    ensures
        apply_modifies(
            s,
            spec_write_meta(key, spec_load_meta(s, key, FIRST_META_INDEX)->Ok_0),
        ) == s,
{
    let head = spec_load_meta(s, key, FIRST_META_INDEX)->Ok_0;
    let head_key = spec_append_meta_index(key, FIRST_META_INDEX);
    lemma_chain_is_head_and_tail(s, key, head);
    // a key with versions has its first page stored
    assert(s.default_cf.dom().contains(head_key));
    lemma_meta_bytes_parse(s.default_cf[head_key]);
    let w = ModifyView::Put(CfName::Default, head_key, spec_meta_bytes(head));
    lemma_apply_one(s, w);
    let t = apply_modifies(s, spec_write_meta(key, head));
    assert(t.default_cf =~= s.default_cf);
}

/// What a rollback by the transaction that holds the lock leaves of a key
/// whose records are well formed: no lock, no value under the key and the
/// start timestamp, and the versions as they were. The records are well
/// formed after it.
pub proof fn lemma_rollback(s: SnapshotView, start_ts: u64, key: Seq<u8>)
    requires
        key_wf(s, key),
        own_lock(spec_load_lock(s, key)->Ok_0, start_ts) is Some,
    ensures
        ({
            let out = spec_rollback(s, start_ts, key);
            let t = apply_modifies(s, out.writes);
            &&& out.result is Ok
            &&& key_wf(t, key)
            &&& spec_load_lock(t, key) == Ok::<Option<MetaLockView>, ErrorKind>(None)
            &&& key_chain(t, key) == key_chain(s, key)
            &&& cf_get(t.default_cf, spec_append_ts(key, start_ts)) is None
            &&& forall|ts: u64|
                ts < TS_LIMIT && ts != start_ts ==> cf_get(
                    t.default_cf,
                    #[trigger] spec_append_ts(key, ts),
                ) == cf_get(s.default_cf, spec_append_ts(key, ts))
            &&& s.default_cf.dom().contains(spec_append_meta_index(key, FIRST_META_INDEX))
                ==> t.default_cf == s.default_cf.remove(spec_append_ts(key, start_ts))
            &&& t.default_cf.dom().contains(spec_append_meta_index(key, FIRST_META_INDEX))
            &&& t.default_cf[spec_append_meta_index(key, FIRST_META_INDEX)] == spec_meta_bytes(
                spec_load_meta(t, key, FIRST_META_INDEX)->Ok_0,
            )
        }),
{
    let l = own_lock(spec_load_lock(s, key)->Ok_0, start_ts)->0;
    let head = spec_load_meta(s, key, FIRST_META_INDEX)->Ok_0;
    let head_key = spec_append_meta_index(key, FIRST_META_INDEX);
    let out = spec_rollback(s, start_ts, key);
    let w1 = ModifyView::Delete(CfName::Default, spec_append_ts(key, start_ts));
    let w2 = ModifyView::Delete(CfName::Lock, key);
    let done = spec_rollback_impl(s, start_ts, key, head);
    assert(done.writes == seq![w1, w2]);
    let mid = apply_modifies(s, seq![w1, w2]);
    lemma_apply_two(s, w1, w2);
    assert(mid.default_cf == s.default_cf.remove(spec_append_ts(key, start_ts)));
    assert(mid.lock_cf == s.lock_cf.remove(key));
    crate::storage::engine::lemma_apply_modifies_concat(s, seq![w1, w2], spec_write_meta(key, head));
    let t = apply_modifies(s, out.writes);
    assert(t == apply_modifies(mid, spec_write_meta(key, head)));
    assert forall|i: u64| i < TS_LIMIT implies cf_get(
        s.default_cf,
        #[trigger] spec_append_meta_index(key, i),
    ) == cf_get(mid.default_cf, spec_append_meta_index(key, i)) by {
        lemma_keys_distinct(key, i, 0, start_ts, 0);
    }
    assert(spec_load_meta(mid, key, FIRST_META_INDEX) == spec_load_meta(
        s,
        key,
        FIRST_META_INDEX,
    ));
    lemma_chain_frame(s, mid, key, head, FIRST_META_INDEX);
    lemma_chain_is_head_and_tail(s, key, head);
    lemma_chain_is_head_and_tail(mid, key, head);
    lemma_store_head(mid, key, head);
    assert(chain_tail(mid, key, head) == chain_tail(s, key, head)) by {
        match head.next {
            None => {},
            Some(n) => {
                let page = spec_load_meta(s, key, n)->Ok_0;
                assert forall|i: u64|
                    i != FIRST_META_INDEX && i < chain_measure(n) implies cf_get(
                    s.default_cf,
                    #[trigger] spec_append_meta_index(key, i),
                ) == cf_get(mid.default_cf, spec_append_meta_index(key, i)) by {}
                lemma_chain_frame(s, mid, key, page, n);
            },
        }
    }
    assert forall|ts: u64| ts < TS_LIMIT && ts != start_ts implies cf_get(
        t.default_cf,
        #[trigger] spec_append_ts(key, ts),
    ) == cf_get(s.default_cf, spec_append_ts(key, ts)) by {
        lemma_keys_distinct(key, 0, 0, ts, start_ts);
    }
    assert(cf_get(t.default_cf, spec_append_ts(key, start_ts)) is None);
    lemma_parse_meta_bytes(head);
    if s.default_cf.dom().contains(head_key) {
        lemma_meta_bytes_parse(s.default_cf[head_key]);
        lemma_keys_distinct(key, FIRST_META_INDEX, 0, start_ts, 0);
        assert(t.default_cf =~= s.default_cf.remove(spec_append_ts(key, start_ts)));
    }
}

/// A rollback repeated leaves everything as the first rollback left it:
/// the second rollback succeeds and changes nothing. And a commit after
/// the rollback fails: the transaction holds no lock any more.
pub proof fn lemma_rollback_twice(s: SnapshotView, start_ts: u64, key: Seq<u8>, commit_ts: u64)
    requires
        key_wf(s, key),
        own_lock(spec_load_lock(s, key)->Ok_0, start_ts) is Some,
    ensures
        ({
            let t = apply_modifies(s, spec_rollback(s, start_ts, key).writes);
            let again = spec_rollback(t, start_ts, key);
            &&& again.result is Ok
            &&& apply_modifies(t, again.writes) == t
            &&& spec_commit(t, start_ts, key, commit_ts).result == Err::<(), ErrorKind>(
                ErrorKind::TxnLockNotFound,
            )
        }),
{
    lemma_rollback(s, start_ts, key);
    let t = apply_modifies(s, spec_rollback(s, start_ts, key).writes);
    let head = spec_load_meta(t, key, FIRST_META_INDEX)->Ok_0;
    let head_key = spec_append_meta_index(key, FIRST_META_INDEX);
    let items = key_chain(t, key)->0;
    lemma_find_in_chain(t, key, head, FIRST_META_INDEX, Probe::StartedBy(start_ts));
    lemma_first_started_by_later(items, start_ts);
    let again = spec_rollback(t, start_ts, key);
    assert(again.writes =~= spec_write_meta(key, head));
    let w = ModifyView::Put(CfName::Default, head_key, spec_meta_bytes(head));
    lemma_apply_one(t, w);
    let u = apply_modifies(t, again.writes);
    assert(u.default_cf =~= t.default_cf);
}

/// A rollback after the commit of a write fails: the transaction has
/// committed the key.
pub proof fn lemma_rollback_after_commit(
    s: SnapshotView,
    start_ts: u64,
    key: Seq<u8>,
    commit_ts: u64,
)
    requires
        key_wf(s, key),
        own_lock(spec_load_lock(s, key)->Ok_0, start_ts) matches Some(l) && l.lock_type
            == MetaLockType::ReadWrite,
        start_ts < commit_ts,
    ensures
        spec_rollback(
            apply_modifies(s, spec_commit(s, start_ts, key, commit_ts).writes),
            start_ts,
            key,
        ).result == Err::<(), ErrorKind>(ErrorKind::AlreadyCommitted { commit_ts }),
{
    lemma_commit(s, start_ts, key, commit_ts);
    let t = apply_modifies(s, spec_commit(s, start_ts, key, commit_ts).writes);
    lemma_committed_is_settled(t, start_ts, key, commit_ts, 0);
}

/// After a put of `value` under `key` by a transaction that began at
/// `start_ts` and committed at `commit_ts`, a read at `ts` finds `value`
/// if `ts` is at or after `commit_ts`, and what it found before the put
/// otherwise.
pub proof fn lemma_put_then_get(
    s: SnapshotView,
    start_ts: u64,
    commit_ts: u64,
    mutation: &Mutation,
    primary: Seq<u8>,
    ts: u64,
)
    requires
        mutation is Put,
        key_wf(s, mutation.spec_key()),
        spec_load_lock(s, mutation.spec_key()) == Ok::<Option<MetaLockView>, ErrorKind>(None),
        start_ts < commit_ts,
        start_ts < TS_LIMIT,
        spec_prewrite(s, start_ts, mutation, primary).result is Ok,
    ensures
        ({
            let key = mutation.spec_key();
            let t = apply_modifies(s, spec_prewrite(s, start_ts, mutation, primary).writes);
            let u = apply_modifies(t, spec_commit(t, start_ts, key, commit_ts).writes);
            &&& spec_commit(t, start_ts, key, commit_ts).result is Ok
            &&& ts >= commit_ts ==> spec_get(u, key, ts) == Ok::<Option<Seq<u8>>, ErrorKind>(
                Some(mutation->Put_0.1@),
            )
            &&& ts < commit_ts ==> spec_get(u, key, ts) == spec_get(s, key, ts)
        }),
{
    let key = mutation.spec_key();
    let value = mutation->Put_0.1@;
    lemma_prewrite(s, start_ts, mutation, primary);
    let t = apply_modifies(s, spec_prewrite(s, start_ts, mutation, primary).writes);
    lemma_commit(t, start_ts, key, commit_ts);
    let u = apply_modifies(t, spec_commit(t, start_ts, key, commit_ts).writes);
    let item = MetaItem { start_ts, commit_ts };
    let old_items = key_chain(s, key)->0;
    let items = key_chain(u, key)->0;
    assert(items == seq![item] + old_items);
    let head_u = spec_load_meta(u, key, FIRST_META_INDEX)->Ok_0;
    let head_s = spec_load_meta(s, key, FIRST_META_INDEX)->Ok_0;
    lemma_find_in_chain(u, key, head_u, FIRST_META_INDEX, Probe::CommittedBy(ts));
    lemma_find_in_chain(s, key, head_s, FIRST_META_INDEX, Probe::CommittedBy(ts));
    lemma_first_hit_concat(seq![item], old_items, Probe::CommittedBy(ts));
    reveal_with_fuel(first_hit, 2);
    assert(seq![item].drop_first() =~= Seq::<MetaItem>::empty());
    if ts >= commit_ts {
        assert(first_hit(items, Probe::CommittedBy(ts)) == Some(item));
    } else {
        assert(first_hit(items, Probe::CommittedBy(ts)) == first_hit(
            old_items,
            Probe::CommittedBy(ts),
        ));
        match first_hit(old_items, Probe::CommittedBy(ts)) {
            Some(x) => {
                lemma_first_hit_is_member(old_items, Probe::CommittedBy(ts));
                let k = choose|k: int| 0 <= k < old_items.len() && old_items[k] == x;
                lemma_first_started_by_later(old_items, start_ts);
                assert(x.start_ts < start_ts);
                assert(x.start_ts < TS_LIMIT);
            },
            None => {},
        }
    }
}

/// The first version that a probe looks for is one of the versions.
pub proof fn lemma_first_hit_is_member(items: Seq<MetaItem>, probe: Probe)
    requires
        first_hit(items, probe) is Some,
    ensures
        exists|k: int| 0 <= k < items.len() && items[k] == first_hit(items, probe)->0,
    decreases items.len(),
{
    if items.len() > 0 {
        if crate::storage::mvcc::txn::probe_hits(probe, items[0]) {
            assert(items[0] == first_hit(items, probe)->0);
        } else {
            lemma_first_hit_is_member(items.drop_first(), probe);
            let k = choose|k: int|
                0 <= k < items.drop_first().len() && items.drop_first()[k] == first_hit(
                    items.drop_first(),
                    probe,
                )->0;
            assert(items[k + 1] == items.drop_first()[k]);
        }
    }
}

} // verus!
