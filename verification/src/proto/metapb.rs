//! Cluster metadata: regions, their peers and their epochs.

use crate::util::codec::order::to_vec;
use vstd::prelude::*;

verus! {

/// How often a region has changed: `version` rises on split or merge,
/// `conf_ver` on a change of membership.
#[derive(Clone, Copy, Debug, PartialEq, Eq, Structural)]
pub struct RegionEpoch {
    pub conf_ver: u64,
    pub version: u64,
}

/// One replica of a region on one store.
#[derive(Clone, Copy, Debug, PartialEq, Eq, Structural)]
pub struct Peer {
    pub id: u64,
    pub store_id: u64,
}

/// A node that hosts peers.
#[derive(Clone, Copy, Debug, PartialEq, Eq, Structural)]
pub struct Store {
    pub id: u64,
}

/// A contiguous key range `[start_key, end_key)` replicated by one Raft
/// group. An empty `end_key` stands for "no upper bound". A region without
/// peers is a placeholder that waits for its first snapshot.
#[derive(Debug, PartialEq, Eq)]
pub struct Region {
    pub id: u64,
    pub start_key: Vec<u8>,
    pub end_key: Vec<u8>,
    pub region_epoch: RegionEpoch,
    pub peers: Vec<Peer>,
}

/// A region as a mathematical value.
pub struct RegionView {
    pub id: u64,
    pub start_key: Seq<u8>,
    pub end_key: Seq<u8>,
    pub region_epoch: RegionEpoch,
    pub peers: Seq<Peer>,
}

impl View for Region {
    type V = RegionView;

    open spec fn view(&self) -> RegionView {
        RegionView {
            id: self.id,
            start_key: self.start_key@,
            end_key: self.end_key@,
            region_epoch: self.region_epoch,
            peers: self.peers@,
        }
    }
}

/// A copy of a list of peers.
pub fn clone_peers(peers: &Vec<Peer>) -> (r: Vec<Peer>)
    ensures
        r@ == peers@,
{
    let mut r: Vec<Peer> = Vec::new();
    let mut i: usize = 0;
    while i < peers.len()
        invariant
            i <= peers@.len(),
            r@ == peers@.subrange(0, i as int),
        decreases peers@.len() - i,
    {
        r.push(peers[i]);
        i += 1;
        assert(r@ =~= peers@.subrange(0, i as int));
    }
    assert(r@ =~= peers@);
    r
}

impl Region {
    /// A region that knows only its id: the placeholder a store keeps for a
    /// peer whose data has not arrived yet.
    pub fn new(id: u64) -> (r: Region)
        ensures
            r@ == (RegionView {
                id,
                start_key: Seq::<u8>::empty(),
                end_key: Seq::<u8>::empty(),
                region_epoch: RegionEpoch { conf_ver: 0, version: 0 },
                peers: Seq::<Peer>::empty(),
            }),
    {
        Region {
            id,
            start_key: Vec::new(),
            end_key: Vec::new(),
            region_epoch: RegionEpoch { conf_ver: 0, version: 0 },
            peers: Vec::new(),
        }
    }
}

impl Clone for Region {
    fn clone(&self) -> (r: Region)
        ensures
            r@ == self@,
    {
        Region {
            id: self.id,
            start_key: to_vec(self.start_key.as_slice()),
            end_key: to_vec(self.end_key.as_slice()),
            region_epoch: self.region_epoch,
            peers: clone_peers(&self.peers),
        }
    }
}

} // verus!
