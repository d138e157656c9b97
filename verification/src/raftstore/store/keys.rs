//! The byte keys under which a store keeps region metadata, consensus
//! state and user data. The three live under disjoint prefixes.

use crate::proto::metapb::Region;
use crate::util::codec::number::{be_bytes, decode_u64_at, encode_u64_into};
use crate::util::codec::order::{lemma_lex_common_prefix, lex_le, lex_lt};
use vstd::prelude::*;

verus! {

/// The first byte of every key that is local to the store.
pub const LOCAL_PREFIX: u8 = 0x01;

/// The second byte of a key that holds consensus state of a region.
pub const REGION_RAFT_PREFIX: u8 = 0x02;

/// The second byte of a key that holds metadata of a region.
pub const REGION_META_PREFIX: u8 = 0x03;

/// The first byte of every key that holds user data.
pub const DATA_PREFIX: u8 = 0x7a;

/// The byte after `DATA_PREFIX`: the bound above all user data.
pub const DATA_MAX_PREFIX: u8 = 0x7b;

/// Behind the region id in the key of a log entry.
pub const RAFT_LOG_SUFFIX: u8 = 0x01;

/// Behind the region id in the key of the consensus state.
pub const RAFT_STATE_SUFFIX: u8 = 0x02;

/// Behind the region id in the key of the apply state.
pub const APPLY_STATE_SUFFIX: u8 = 0x03;

/// Behind the region id in the key of the region record.
pub const REGION_STATE_SUFFIX: u8 = 0x01;

/// The bytes `first, second`, the eight bytes of `region_id`, then `suffix`.
pub open spec fn spec_region_key(second: u8, region_id: u64, suffix: u8) -> Seq<u8> {
    seq![LOCAL_PREFIX, second] + be_bytes(region_id) + seq![suffix]
}

/// The key of the record of region `region_id` on this store.
pub open spec fn spec_region_state_key(region_id: u64) -> Seq<u8> {
    spec_region_key(REGION_META_PREFIX, region_id, REGION_STATE_SUFFIX)
}

/// The key of the applied and compacted positions of region `region_id`.
pub open spec fn spec_apply_state_key(region_id: u64) -> Seq<u8> {
    spec_region_key(REGION_RAFT_PREFIX, region_id, APPLY_STATE_SUFFIX)
}

/// The key of the persisted consensus state of region `region_id`.
pub open spec fn spec_raft_state_key(region_id: u64) -> Seq<u8> {
    spec_region_key(REGION_RAFT_PREFIX, region_id, RAFT_STATE_SUFFIX)
}

/// The key of the log entry `log_index` of region `region_id`.
pub open spec fn spec_raft_log_key(region_id: u64, log_index: u64) -> Seq<u8> {
    spec_region_key(REGION_RAFT_PREFIX, region_id, RAFT_LOG_SUFFIX) + be_bytes(log_index)
}

/// The lower bound of all region metadata keys.
pub open spec fn spec_region_meta_min_key() -> Seq<u8> {
    seq![LOCAL_PREFIX, REGION_META_PREFIX]
}

/// The upper bound, itself excluded, of all region metadata keys.
pub open spec fn spec_region_meta_max_key() -> Seq<u8> {
    seq![LOCAL_PREFIX, 0x04u8]
}

/// The key under which the user key `key` is stored.
pub open spec fn spec_data_key(key: Seq<u8>) -> Seq<u8> {
    seq![DATA_PREFIX] + key
}

/// The bound above all stored user keys.
pub open spec fn spec_data_max_key() -> Seq<u8> {
    seq![DATA_MAX_PREFIX]
}

/// The stored key at which a region with end key `end_key` ends.
pub open spec fn spec_data_end_key(end_key: Seq<u8>) -> Seq<u8> {
    if end_key.len() == 0 {
        spec_data_max_key()
    } else {
        spec_data_key(end_key)
    }
}

fn region_key(second: u8, region_id: u64, suffix: u8) -> (k: Vec<u8>)
    ensures
        k@ == spec_region_key(second, region_id, suffix),
{
    let mut k: Vec<u8> = Vec::new();
    k.push(LOCAL_PREFIX);
    k.push(second);
    encode_u64_into(&mut k, region_id);
    k.push(suffix);
    assert(k@ =~= spec_region_key(second, region_id, suffix));
    k
}

/// The key of the record of region `region_id`.
pub fn region_state_key(region_id: u64) -> (k: Vec<u8>)
    ensures
        k@ == spec_region_state_key(region_id),
{
    region_key(REGION_META_PREFIX, region_id, REGION_STATE_SUFFIX)
}

/// The key of the apply state of region `region_id`.
pub fn apply_state_key(region_id: u64) -> (k: Vec<u8>)
    ensures
        k@ == spec_apply_state_key(region_id),
{
    region_key(REGION_RAFT_PREFIX, region_id, APPLY_STATE_SUFFIX)
}

/// The key of the consensus state of region `region_id`.
pub fn raft_state_key(region_id: u64) -> (k: Vec<u8>)
    ensures
        k@ == spec_raft_state_key(region_id),
{
    region_key(REGION_RAFT_PREFIX, region_id, RAFT_STATE_SUFFIX)
}

/// The key of the log entry at `log_index` of region `region_id`.
pub fn raft_log_key(region_id: u64, log_index: u64) -> (k: Vec<u8>)
    ensures
        k@ == spec_raft_log_key(region_id, log_index),
{
    let mut k = region_key(REGION_RAFT_PREFIX, region_id, RAFT_LOG_SUFFIX);
    encode_u64_into(&mut k, log_index);
    k
}

/// The least key that a region record can have.
pub fn region_meta_min_key() -> (k: Vec<u8>)
    ensures
        k@ == spec_region_meta_min_key(),
{
    let mut k: Vec<u8> = Vec::new();
    k.push(LOCAL_PREFIX);
    k.push(REGION_META_PREFIX);
    assert(k@ =~= spec_region_meta_min_key());
    k
}

/// The bound above the keys of all region records.
pub fn region_meta_max_key() -> (k: Vec<u8>)
    ensures
        k@ == spec_region_meta_max_key(),
{
    let mut k: Vec<u8> = Vec::new();
    k.push(LOCAL_PREFIX);
    k.push(0x04u8);
    assert(k@ =~= spec_region_meta_max_key());
    k
}

/// Reads a region metadata key back into the region's id and the suffix.
/// `None` for bytes that are no such key.
pub fn decode_region_meta_key(key: &[u8]) -> (r: Option<(u64, u8)>)
    ensures
        r matches Some((region_id, suffix)) ==> key@ == spec_region_key(
            REGION_META_PREFIX,
            region_id,
            suffix,
        ),
        r is None ==> forall|region_id: u64, suffix: u8|
            key@ != #[trigger] spec_region_key(REGION_META_PREFIX, region_id, suffix),
{
    if key.len() != 11 || key[0] != LOCAL_PREFIX || key[1] != REGION_META_PREFIX {
        proof {
            assert forall|region_id: u64, suffix: u8|
                key@ != #[trigger] spec_region_key(REGION_META_PREFIX, region_id, suffix) by {
                let k = spec_region_key(REGION_META_PREFIX, region_id, suffix);
                assert(k.len() == 11);
                assert(k[0] == LOCAL_PREFIX && k[1] == REGION_META_PREFIX);
            }
        }
        return None;
    }
    let region_id = decode_u64_at(key, 2);
    let suffix = key[10];
    proof {
        crate::util::codec::number::lemma_be_bytes_of_value(key@.subrange(2, 10));
        assert(key@ =~= spec_region_key(REGION_META_PREFIX, region_id, suffix));
    }
    Some((region_id, suffix))
}

/// The key under which the user key `key` is stored.
pub fn data_key(key: &[u8]) -> (k: Vec<u8>)
    ensures
        k@ == spec_data_key(key@),
{
    let mut k: Vec<u8> = Vec::new();
    k.push(DATA_PREFIX);
    let mut i: usize = 0;
    while i < key.len()
        invariant
            i <= key@.len(),
            k@ == seq![DATA_PREFIX] + key@.subrange(0, i as int),
        decreases key@.len() - i,
    {
        k.push(key[i]);
        i += 1;
        assert(k@ =~= seq![DATA_PREFIX] + key@.subrange(0, i as int));
    }
    assert(k@ =~= spec_data_key(key@));
    k
}

/// The user key that is stored under `key`; `None` if `key` holds no user
/// data.
pub fn origin_key(key: &[u8]) -> (r: Option<Vec<u8>>)
    ensures
        r matches Some(k) ==> key@ == spec_data_key(k@),
        r is None ==> (key@.len() == 0 || key@[0] != DATA_PREFIX),
{
    if key.len() == 0 || key[0] != DATA_PREFIX {
        return None;
    }
    let mut k: Vec<u8> = Vec::new();
    let mut i: usize = 1;
    while i < key.len()
        invariant
            1 <= i <= key@.len(),
            k@ == key@.subrange(1, i as int),
        decreases key@.len() - i,
    {
        k.push(key[i]);
        i += 1;
        assert(k@ =~= key@.subrange(1, i as int));
    }
    assert(key@ =~= spec_data_key(k@));
    Some(k)
}

/// The stored key at which a region with end key `end_key` ends.
pub fn data_end_key(end_key: &[u8]) -> (k: Vec<u8>)
    ensures
        k@ == spec_data_end_key(end_key@),
{
    if end_key.len() == 0 {
        let mut k: Vec<u8> = Vec::new();
        k.push(DATA_MAX_PREFIX);
        assert(k@ =~= spec_data_max_key());
        k
    } else {
        data_key(end_key)
    }
}

/// The stored key at which `region` starts.
pub fn enc_start_key(region: &Region) -> (k: Vec<u8>)
    ensures
        k@ == spec_data_key(region@.start_key),
{
    data_key(region.start_key.as_slice())
}

/// The stored key at which `region` ends.
pub fn enc_end_key(region: &Region) -> (k: Vec<u8>)
    ensures
        k@ == spec_data_end_key(region@.end_key),
{
    data_end_key(region.end_key.as_slice())
}

/// Stored user keys sort as the user keys do.
pub proof fn lemma_data_key_order(a: Seq<u8>, b: Seq<u8>)
    ensures
        lex_lt(spec_data_key(a), spec_data_key(b)) == lex_lt(a, b),
        (spec_data_key(a) == spec_data_key(b)) == (a == b),
        lex_le(spec_data_key(a), spec_data_key(b)) == lex_le(a, b),
{
    lemma_lex_common_prefix(seq![DATA_PREFIX], a, b);
}

/// Every stored user key lies below the bound above all user data.
pub proof fn lemma_data_key_below_max(a: Seq<u8>)
    ensures
        lex_lt(spec_data_key(a), spec_data_max_key()),
{
    let k = spec_data_key(a);
    assert(k[0] == DATA_PREFIX);
    assert(spec_data_max_key()[0] == DATA_MAX_PREFIX);
}

/// Every region record lies inside the range that a scan for all regions
/// covers, and no stored user key or consensus key does.
pub proof fn lemma_region_meta_range(region_id: u64, suffix: u8, user_key: Seq<u8>)
    ensures
        lex_le(
            spec_region_meta_min_key(),
            spec_region_key(REGION_META_PREFIX, region_id, suffix),
        ),
        lex_lt(
            spec_region_key(REGION_META_PREFIX, region_id, suffix),
            spec_region_meta_max_key(),
        ),
        lex_lt(spec_region_meta_max_key(), spec_data_key(user_key)),
        lex_lt(
            spec_region_key(REGION_RAFT_PREFIX, region_id, suffix),
            spec_region_meta_min_key(),
        ),
{
    let k = spec_region_key(REGION_META_PREFIX, region_id, suffix);
    let lo = spec_region_meta_min_key();
    let hi = spec_region_meta_max_key();
    assert(k.len() == 11 && k[0] == LOCAL_PREFIX && k[1] == REGION_META_PREFIX);
    // below the upper bound: equal first byte, smaller second byte
    assert(k.drop_first()[0] == REGION_META_PREFIX);
    assert(hi.drop_first()[0] == 0x04u8);
    assert(lex_lt(k.drop_first(), hi.drop_first()));
    // at or above the lower bound: the lower bound is a prefix
    assert(lo.drop_first().drop_first() =~= Seq::<u8>::empty());
    assert(k.drop_first().drop_first().len() == 9);
    assert(lo.drop_first()[0] == REGION_META_PREFIX);
    assert(lex_lt(lo.drop_first().drop_first(), k.drop_first().drop_first()));
    assert(lex_lt(lo.drop_first(), k.drop_first()));
    assert(lex_lt(lo, k));
    let d = spec_data_key(user_key);
    assert(d[0] == DATA_PREFIX && hi[0] == LOCAL_PREFIX);
    let r = spec_region_key(REGION_RAFT_PREFIX, region_id, suffix);
    assert(r.len() == 11 && r[0] == LOCAL_PREFIX && r[1] == REGION_RAFT_PREFIX);
    assert(r.drop_first()[0] == REGION_RAFT_PREFIX);
    assert(lex_lt(r.drop_first(), lo.drop_first()));
}

} // verus!
