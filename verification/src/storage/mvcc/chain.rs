//! The committed versions of a key as one list, newest first, and what
//! makes the records of a key well formed.

use crate::raftstore::store::engine::SnapshotView;
use crate::storage::engine::{apply_modifies, apply_modify, ModifyView};
use crate::storage::mvcc::errors::ErrorKind;
use crate::storage::mvcc::meta::{spec_split, MetaItem, MetaView, FIRST_META_INDEX, TS_LIMIT};
use crate::storage::mvcc::txn::{
    cf_get, chain_measure, first_hit, spec_find, spec_load_lock, spec_load_meta, valid_next, Probe,
};
use crate::storage::types::{spec_append_meta_index, spec_append_ts};
use crate::util::codec::number::{be_bytes, lemma_be_bytes_injective};
use vstd::prelude::*;

verus! {

/// The versions of the page `page`, which has the index `cur`, and of the
/// pages behind it, newest first; none if a page does not decode or points
/// where it cannot.
pub open spec fn spec_chain(s: SnapshotView, key: Seq<u8>, page: MetaView, cur: u64) -> Option<
    Seq<MetaItem>,
>
    decreases chain_measure(cur),
{
    match page.next {
        None => Some(page.items),
        Some(n) => if !valid_next(cur, n) {
            None
        } else {
            match spec_load_meta(s, key, n) {
                Err(_) => None,
                Ok(next_page) => match spec_chain(s, key, next_page, n) {
                    None => None,
                    Some(rest) => Some(page.items + rest),
                },
            }
        },
    }
}

/// All committed versions of `key`, newest first.
pub open spec fn key_chain(s: SnapshotView, key: Seq<u8>) -> Option<Seq<MetaItem>> {
    match spec_load_meta(s, key, FIRST_META_INDEX) {
        Err(_) => None,
        Ok(head) => spec_chain(s, key, head, FIRST_META_INDEX),
    }
}

/// Whether a list of versions, newest first, is in order: each version was
/// committed after its transaction began, and each transaction began after
/// every older version was committed. The versions are then strictly
/// decreasing in their commit timestamps, and in their start timestamps.
pub open spec fn versions_ordered(items: Seq<MetaItem>) -> bool {
    &&& forall|i: int| 0 <= i < items.len() ==> (#[trigger] items[i]).start_ts < items[i].commit_ts
    &&& forall|i: int| 0 <= i < items.len() ==> (#[trigger] items[i]).start_ts < TS_LIMIT
    &&& forall|i: int, j: int|
        0 <= i < j < items.len() ==> (#[trigger] items[j]).commit_ts < (#[trigger] items[i]).start_ts
}

/// Versions that are in order are strictly decreasing in their commit
/// timestamps.
pub proof fn lemma_versions_decreasing(items: Seq<MetaItem>, i: int, j: int)
    requires
        versions_ordered(items),
        0 <= i < j < items.len(),
    ensures
        items[j].commit_ts < items[i].commit_ts,
        items[j].start_ts < items[i].start_ts,
{
    assert(items[j].commit_ts < items[i].start_ts);
    assert(items[i].start_ts < items[i].commit_ts);
    assert(items[j].start_ts < items[j].commit_ts);
}

/// Whether the records of `key` are well formed: its pages decode and
/// follow one another, its first page is not due for a split and is empty
/// only if the key has no version, its versions are in order, and its
/// lock, if it has one, is held by a transaction that began after every
/// version was committed. A key has at most one lock: the locks are a map
/// from keys.
pub open spec fn key_wf(s: SnapshotView, key: Seq<u8>) -> bool {
    &&& key_chain(s, key) matches Some(items) && versions_ordered(items)
    &&& spec_load_meta(s, key, FIRST_META_INDEX) matches Ok(head) && spec_split(head) is None
        && (head.items.len() == 0 ==> head.next is None)
    &&& spec_load_lock(s, key) matches Ok(lock) && (lock matches Some(l) ==> l.start_ts
        < TS_LIMIT && (key_chain(s, key)->0.len() > 0 ==> key_chain(s, key)->0[0].commit_ts
        < l.start_ts))
}

/// The first of two lists that `probe` looks for is the first of the
/// first list, or else the first of the second.
pub proof fn lemma_first_hit_concat(a: Seq<MetaItem>, b: Seq<MetaItem>, probe: Probe)
    ensures
        first_hit(a + b, probe) == match first_hit(a, probe) {
            Some(x) => Some(x),
            None => first_hit(b, probe),
        },
    decreases a.len(),
{
    if a.len() == 0 {
        assert(a + b =~= b);
    } else {
        assert((a + b)[0] == a[0]);
        assert((a + b).drop_first() =~= a.drop_first() + b);
        lemma_first_hit_concat(a.drop_first(), b, probe);
    }
}

/// A walk through pages that all decode finds what the list of their
/// versions holds.
pub proof fn lemma_find_in_chain(
    s: SnapshotView,
    key: Seq<u8>,
    page: MetaView,
    cur: u64,
    probe: Probe,
)
    requires
        spec_chain(s, key, page, cur) is Some,
    ensures
        spec_find(s, key, page, cur, probe) == Ok::<Option<MetaItem>, ErrorKind>(
            first_hit(spec_chain(s, key, page, cur)->0, probe),
        ),
    decreases chain_measure(cur),
{
    match page.next {
        None => {},
        Some(n) => {
            let next_page = spec_load_meta(s, key, n)->Ok_0;
            lemma_find_in_chain(s, key, next_page, n, probe);
            lemma_first_hit_concat(page.items, spec_chain(s, key, next_page, n)->0, probe);
        },
    }
}

/// Keys under one key with different bytes behind it are different keys,
/// and no page is stored where a version of a transaction that began
/// before `TS_LIMIT` is.
pub proof fn lemma_keys_distinct(key: Seq<u8>, i: u64, j: u64, a: u64, b: u64)
    ensures
        spec_append_meta_index(key, i) == spec_append_meta_index(key, j) <==> i == j,
        spec_append_ts(key, a) == spec_append_ts(key, b) <==> a == b,
        i < TS_LIMIT && a < TS_LIMIT ==> spec_append_meta_index(key, i) != spec_append_ts(key, a),
{
    lemma_be_bytes_injective(i, j);
    lemma_be_bytes_injective(!a, !b);
    lemma_be_bytes_injective(i, !a);
    assert(!a == !b <==> a == b) by (bit_vector);
    assert(i < 0x8000_0000_0000_0000u64 && a < 0x8000_0000_0000_0000u64 ==> i != !a)
        by (bit_vector);
    let len = key.len() as int;
    assert((key + be_bytes(i)).skip(len) =~= be_bytes(i));
    assert((key + be_bytes(j)).skip(len) =~= be_bytes(j));
    assert((key + be_bytes(!a)).skip(len) =~= be_bytes(!a));
    assert((key + be_bytes(!b)).skip(len) =~= be_bytes(!b));
}

/// Whether two snapshots hold the same pages of `key` behind page `cur`.
pub open spec fn pages_agree(s: SnapshotView, t: SnapshotView, key: Seq<u8>, cur: u64) -> bool {
    forall|i: u64|
        i != FIRST_META_INDEX && i < chain_measure(cur) ==> cf_get(
            s.default_cf,
            #[trigger] spec_append_meta_index(key, i),
        ) == cf_get(t.default_cf, spec_append_meta_index(key, i))
}

/// Two snapshots that hold the same pages of a key behind a page hold the
/// same versions from that page on.
pub proof fn lemma_chain_frame(
    s: SnapshotView,
    t: SnapshotView,
    key: Seq<u8>,
    page: MetaView,
    cur: u64,
)
    requires
        pages_agree(s, t, key, cur),
    ensures
        spec_chain(s, key, page, cur) == spec_chain(t, key, page, cur),
    decreases chain_measure(cur),
{
    match page.next {
        None => {},
        Some(n) => {
            if valid_next(cur, n) {
                assert(cf_get(s.default_cf, spec_append_meta_index(key, n)) == cf_get(
                    t.default_cf,
                    spec_append_meta_index(key, n),
                ));
                assert(spec_load_meta(s, key, n) == spec_load_meta(t, key, n));
                match spec_load_meta(s, key, n) {
                    Ok(next_page) => {
                        assert forall|i: u64|
                            i != FIRST_META_INDEX && i < chain_measure(n) implies cf_get(
                            s.default_cf,
                            #[trigger] spec_append_meta_index(key, i),
                        ) == cf_get(t.default_cf, spec_append_meta_index(key, i)) by {
                            assert(i < chain_measure(cur));
                        }
                        lemma_chain_frame(s, t, key, next_page, n);
                    },
                    Err(_) => {},
                }
            }
        },
    }
}

/// What one modification leaves.
pub proof fn lemma_apply_one(s: SnapshotView, a: ModifyView)
    ensures
        apply_modifies(s, seq![a]) == apply_modify(s, a),
{
    reveal_with_fuel(apply_modifies, 2);
    assert(seq![a].drop_last() =~= Seq::<ModifyView>::empty());
}

/// What two modifications leave.
pub proof fn lemma_apply_two(s: SnapshotView, a: ModifyView, b: ModifyView)
    ensures
        apply_modifies(s, seq![a, b]) == apply_modify(apply_modify(s, a), b),
{
    lemma_apply_one(s, a);
    assert(seq![a, b].drop_last() =~= seq![a]);
}

/// What three modifications leave.
pub proof fn lemma_apply_three(s: SnapshotView, a: ModifyView, b: ModifyView, c: ModifyView)
    ensures
        apply_modifies(s, seq![a, b, c]) == apply_modify(
            apply_modify(apply_modify(s, a), b),
            c,
        ),
{
    lemma_apply_two(s, a, b);
    assert(seq![a, b, c].drop_last() =~= seq![a, b]);
}

/// What four modifications leave.
pub proof fn lemma_apply_four(
    s: SnapshotView,
    a: ModifyView,
    b: ModifyView,
    c: ModifyView,
    d: ModifyView,
)
    ensures
        apply_modifies(s, seq![a, b, c, d]) == apply_modify(
            apply_modify(apply_modify(apply_modify(s, a), b), c),
            d,
        ),
{
    lemma_apply_three(s, a, b, c);
    assert(seq![a, b, c, d].drop_last() =~= seq![a, b, c]);
}

/// In a list of versions that is in order, the first version whose
/// transaction began at or before the start of one of the versions is that
/// version.
pub proof fn lemma_first_started_by(items: Seq<MetaItem>, k: int)
    requires
        versions_ordered(items),
        0 <= k < items.len(),
    ensures
        first_hit(items, Probe::StartedBy(items[k].start_ts)) == Some(items[k]),
    decreases k,
{
    if k > 0 {
        let rest = items.drop_first();
        assert(items[0].start_ts > items[k].commit_ts);
        assert forall|i: int, j: int| 0 <= i < j < rest.len() implies (#[trigger] rest[j]).commit_ts
            < (#[trigger] rest[i]).start_ts by {
            assert(rest[i] == items[i + 1] && rest[j] == items[j + 1]);
        }
        assert forall|i: int| 0 <= i < rest.len() implies (#[trigger] rest[i]).start_ts
            < rest[i].commit_ts && rest[i].start_ts < TS_LIMIT by {
            assert(rest[i] == items[i + 1]);
        }
        assert(rest[k - 1] == items[k]);
        lemma_first_started_by(rest, k - 1);
    }
}

/// In a list of versions that is in order, no version is of a transaction
/// that began after the newest version was committed.
pub proof fn lemma_first_started_by_later(items: Seq<MetaItem>, start_ts: u64)
    requires
        versions_ordered(items),
        items.len() > 0 ==> items[0].commit_ts < start_ts,
    ensures
        match first_hit(items, Probe::StartedBy(start_ts)) {
            Some(x) => x.start_ts != start_ts,
            None => true,
        },
        forall|i: int| 0 <= i < items.len() ==> (#[trigger] items[i]).start_ts < start_ts,
{
    if items.len() > 0 {
        assert(items[0].start_ts < items[0].commit_ts);
        assert forall|i: int| 0 <= i < items.len() implies (#[trigger] items[i]).start_ts
            < start_ts by {
            if i > 0 {
                assert(items[i].commit_ts < items[0].start_ts);
            }
        }
    }
}

/// A version in front of a list of versions that is in order keeps the
/// list in order, if its transaction began after the newest version was
/// committed.
pub proof fn lemma_push_keeps_order(items: Seq<MetaItem>, item: MetaItem)
    requires
        versions_ordered(items),
        item.start_ts < item.commit_ts,
        item.start_ts < TS_LIMIT,
        items.len() > 0 ==> items[0].commit_ts < item.start_ts,
    ensures
        versions_ordered(seq![item] + items),
{
    let after = seq![item] + items;
    assert forall|i: int, j: int| 0 <= i < j < after.len() implies (#[trigger] after[j]).commit_ts
        < (#[trigger] after[i]).start_ts by {
        assert(after[j] == items[j - 1]);
        if i == 0 {
            if j - 1 > 0 {
                assert(items[j - 1].commit_ts < items[0].start_ts);
                assert(items[0].start_ts < items[0].commit_ts);
            }
        } else {
            assert(after[i] == items[i - 1]);
        }
    }
    assert forall|i: int| 0 <= i < after.len() implies (#[trigger] after[i]).start_ts
        < after[i].commit_ts && after[i].start_ts < TS_LIMIT by {
        if i > 0 {
            assert(after[i] == items[i - 1]);
        }
    }
}

} // verus!
