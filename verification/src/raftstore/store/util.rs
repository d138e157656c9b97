//! Questions about regions, peers and epochs that several parts ask.

use crate::proto::metapb::{Peer, Region, RegionEpoch, RegionView};
use crate::proto::raft_cmdpb::{spec_uuid_from_bytes, RaftCmdRequest};
use crate::raftstore::errors::{Error, ErrorKind};
use crate::util::codec::order::{bytes_le, bytes_lt, lex_le, lex_lt, to_vec};
use vstd::prelude::*;

verus! {

/// The place of the first peer of `peers` on store `store_id`, or the
/// length of `peers` if the store has none.
pub open spec fn peer_position(peers: Seq<Peer>, store_id: u64) -> int
    decreases peers.len(),
{
    if peers.len() == 0 {
        0
    } else if peers[0].store_id == store_id {
        0
    } else {
        1 + peer_position(peers.drop_first(), store_id)
    }
}

/// Whether `peers` has a peer on store `store_id`.
pub open spec fn has_peer_on_store(peers: Seq<Peer>, store_id: u64) -> bool {
    exists|i: int| 0 <= i < peers.len() && #[trigger] peers[i].store_id == store_id
}

/// What `peer_position` is: no peer before it is on the store, and the peer
/// at it is, if it is a place of `peers` at all.
pub proof fn lemma_peer_position(peers: Seq<Peer>, store_id: u64)
    ensures
        0 <= peer_position(peers, store_id) <= peers.len(),
        forall|i: int|
            0 <= i < peer_position(peers, store_id) ==> (#[trigger] peers[i]).store_id != store_id,
        peer_position(peers, store_id) < peers.len() ==> peers[peer_position(
            peers,
            store_id,
        )].store_id == store_id,
        has_peer_on_store(peers, store_id) <==> peer_position(peers, store_id) < peers.len(),
    decreases peers.len(),
{
    if peers.len() > 0 && peers[0].store_id != store_id {
        let rest = peers.drop_first();
        lemma_peer_position(rest, store_id);
        assert forall|i: int| 0 <= i < peer_position(peers, store_id) implies (
        #[trigger] peers[i]).store_id != store_id by {
            if i > 0 {
                assert(peers[i] == rest[i - 1]);
            }
        }
        if has_peer_on_store(peers, store_id) {
            let i = choose|i: int| 0 <= i < peers.len() && #[trigger] peers[i].store_id == store_id;
            assert(rest[i - 1].store_id == store_id);
        }
        if peer_position(rest, store_id) < rest.len() {
            assert(peers[peer_position(rest, store_id) + 1] == rest[peer_position(
                rest,
                store_id,
            )]);
        }
    } else if peers.len() > 0 {
        assert(peers[0].store_id == store_id);
    }
}

/// The first peer of the region on store `store_id`, if any.
pub open spec fn spec_find_peer(peers: Seq<Peer>, store_id: u64) -> Option<Peer> {
    if peer_position(peers, store_id) < peers.len() {
        Some(peers[peer_position(peers, store_id)])
    } else {
        None
    }
}

/// The place of the first peer of `peers` on store `store_id`.
fn find_peer_index(peers: &Vec<Peer>, store_id: u64) -> (p: usize)
    ensures
        p == peer_position(peers@, store_id),
        p <= peers@.len(),
{
    let mut p: usize = 0;
    assert(peers@.skip(0) =~= peers@);
    while p < peers.len() && peers[p].store_id != store_id
        invariant
            p <= peers@.len(),
            peer_position(peers@, store_id) == p + peer_position(
                peers@.skip(p as int),
                store_id,
            ),
        decreases peers@.len() - p,
    {
        assert(peers@.skip(p as int)[0] == peers@[p as int]);
        assert(peers@.skip(p as int).drop_first() =~= peers@.skip(p + 1));
        p += 1;
    }
    proof {
        if p < peers.len() {
            assert(peers@.skip(p as int)[0] == peers@[p as int]);
        }
    }
    p
}

/// The first peer of `region` on store `store_id`, if any.
pub fn find_peer(region: &Region, store_id: u64) -> (r: Option<Peer>)
    ensures
        r == spec_find_peer(region@.peers, store_id),
        r is Some <==> has_peer_on_store(region@.peers, store_id),
{
    proof {
        lemma_peer_position(region@.peers, store_id);
    }
    let p = find_peer_index(&region.peers, store_id);
    if p < region.peers.len() {
        Some(region.peers[p])
    } else {
        None
    }
}

/// Takes the first peer on store `store_id` out of `region` and returns
/// it; leaves `region` as it is if the store has none.
pub fn remove_peer(region: &mut Region, store_id: u64) -> (r: Option<Peer>)
    ensures
        r == spec_find_peer(old(region)@.peers, store_id),
        r is Some ==> final(region)@ == (RegionView {
            peers: old(region)@.peers.remove(peer_position(old(region)@.peers, store_id)),
            ..old(region)@
        }),
        r is None ==> final(region)@ == old(region)@,
{
    let p = find_peer_index(&region.peers, store_id);
    if p < region.peers.len() {
        let peer = region.peers.remove(p);
        Some(peer)
    } else {
        None
    }
}

/// A new peer with the given ids.
pub fn new_peer(store_id: u64, peer_id: u64) -> (p: Peer)
    ensures
        p == (Peer { id: peer_id, store_id }),
{
    Peer { id: peer_id, store_id }
}

/// Whether `epoch` is older than `check_epoch` in either counter.
pub open spec fn spec_is_epoch_stale(epoch: RegionEpoch, check_epoch: RegionEpoch) -> bool {
    epoch.version < check_epoch.version || epoch.conf_ver < check_epoch.conf_ver
}

/// Whether `epoch` is older than `check_epoch` in either counter.
pub fn is_epoch_stale(epoch: &RegionEpoch, check_epoch: &RegionEpoch) -> (r: bool)
    ensures
        r == spec_is_epoch_stale(*epoch, *check_epoch),
{
    epoch.version < check_epoch.version || epoch.conf_ver < check_epoch.conf_ver
}

/// Whether the user key `key` lies in `[start_key, end_key)`, where an empty
/// `end_key` stands for no upper bound.
pub open spec fn key_in_range(key: Seq<u8>, start_key: Seq<u8>, end_key: Seq<u8>) -> bool {
    lex_le(start_key, key) && (end_key.len() == 0 || lex_lt(key, end_key))
}

/// Whether the user key `key` lies in the region.
pub open spec fn key_in_region(key: Seq<u8>, region: RegionView) -> bool {
    key_in_range(key, region.start_key, region.end_key)
}

/// Checks that `key` lies in `region`.
pub fn check_key_in_region(key: &[u8], region: &Region) -> (r: Result<(), Error>)
    ensures
        r is Ok <==> key_in_region(key@, region@),
        r matches Err(e) ==> e@ == (ErrorKind::KeyNotInRegion { key: key@, region_id: region.id }),
{
    let end_key = region.end_key.as_slice();
    let start_key = region.start_key.as_slice();
    if bytes_le(start_key, key) && (end_key.len() == 0 || bytes_lt(key, end_key)) {
        Ok(())
    } else {
        Err(Error::KeyNotInRegion { key: to_vec(key), region_id: region.id })
    }
}

/// Reads a uuid from its bytes with `uuid::Uuid::from_slice` and hands it
/// out as a number with `Uuid::as_u128`. Trusted: `from_slice` fails on any
/// length but sixteen, and `as_u128` reads the sixteen bytes as one
/// big-endian number.
#[verifier::external_body]
fn uuid_from_slice(b: &[u8]) -> (r: Option<u128>)
    ensures
        r == spec_uuid_from_bytes(b@),
{
    match uuid::Uuid::from_slice(b) {
        Ok(u) => Some(u.as_u128()),
        Err(_) => None,
    }
}

/// Makes a fresh random uuid with `uuid::Uuid::new_v4` and hands out its
/// bytes. Trusted: a uuid has sixteen bytes. Which bytes they are is
/// chance.
#[verifier::external_body]
fn new_uuid_bytes() -> (r: Vec<u8>)
    ensures
        r@.len() == 16,
{
    uuid::Uuid::new_v4().as_bytes().to_vec()
}

/// The uuid of the command, if its header holds one.
pub fn get_uuid_from_req(cmd: &RaftCmdRequest) -> (r: Option<u128>)
    ensures
        r == cmd.spec_uuid(),
{
    uuid_from_slice(cmd.header.uuid.as_slice())
}

/// The bytes of a fresh uuid, for a command that the store itself proposes.
pub fn fresh_uuid() -> (r: Vec<u8>)
    ensures
        spec_uuid_from_bytes(r@) is Some,
{
    new_uuid_bytes()
}

} // verus!
