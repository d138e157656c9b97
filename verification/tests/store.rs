use tikv::proto::metapb::{Peer as MetaPeer, Region, RegionEpoch, Store as MetaStore};
use tikv::proto::raft_cmdpb::{
    AdminRequest, CfName, CmdBody, RaftCmdRequest, RaftRequestHeader, Request, ResponseBody,
    StatusRequest, StatusResponse,
};
use tikv::proto::raft_serverpb::{
    HardState, PeerState, RaftApplyState, RaftLocalState, RaftMessage, RaftTruncatedState,
    RegionLocalState,
};
use tikv::proto::raftpb::{
    ConfChangeType, Entry, EntryData, Message, MessageType, Progress, ProgressState,
    SnapshotStatus,
};
use tikv::raftstore::errors::{Error, Reason};
use tikv::raftstore::store::config::Config;
use tikv::raftstore::store::engine::{Snapshot, WriteOp};
use tikv::raftstore::store::keys::{data_key, region_state_key};
use tikv::raftstore::store::peer::{RaftStatus, StateRole};
use tikv::raftstore::store::peer_storage::{LogEntry, SnapState, SnapshotMeta};
use tikv::raftstore::store::propose::ProposeOutcome;
use tikv::raftstore::store::ready::{RaftReport, Ready};
use tikv::raftstore::store::store::Store;
use tikv::raftstore::store::store_msg::MessageOutcome;
use tikv::raftstore::store::store_tick::{
    new_compact_log_request, PersistedRegion, SnapFile, SnapKey,
};
use tikv::raftstore::store::task::{StoreStats, Task};
use tikv::raftstore::store::util::get_uuid_from_req;

fn config() -> Config {
    Config {
        raft_base_tick_interval: 100,
        raft_heartbeat_ticks: 3,
        raft_election_timeout_ticks: 15,
        raft_max_size_per_msg: 1024 * 1024,
        raft_max_inflight_msgs: 256,
        raft_log_gc_tick_interval: 5000,
        raft_log_gc_threshold: 50,
        raft_log_gc_limit: 100000,
        split_region_check_tick_interval: 10000,
        region_max_size: 80 * 1024 * 1024,
        region_split_size: 64 * 1024 * 1024,
        region_check_size_diff: 8 * 1024 * 1024,
        pd_heartbeat_tick_interval: 5000,
        pd_store_heartbeat_tick_interval: 10000,
        snap_mgr_gc_tick_interval: 60000,
        snap_gc_timeout: 600,
        notify_capacity: 40960,
        messages_per_tick: 4096,
        capacity: 1000,
    }
}

fn new_store(id: u64) -> Store<u32> {
    Store::new(MetaStore { id }, config()).unwrap()
}

fn region(id: u64, start: &[u8], end: &[u8], stores: &[u64]) -> Region {
    Region {
        id,
        start_key: start.to_vec(),
        end_key: end.to_vec(),
        region_epoch: RegionEpoch { conf_ver: 1, version: 1 },
        peers: stores.iter().map(|s| MetaPeer { id: id * 100 + s, store_id: *s }).collect(),
    }
}

fn persisted(region: Region, state: PeerState) -> PersistedRegion {
    PersistedRegion {
        key: region_state_key(region.id),
        local_state: RegionLocalState { state, region },
        raft_state: RaftLocalState {
            hard_state: HardState { term: 5, vote: 0, commit: 5 },
            last_index: 5,
        },
        apply_state: RaftApplyState {
            applied_index: 5,
            truncated_state: RaftTruncatedState { index: 5, term: 5 },
        },
    }
}

fn store_with(regions: Vec<Region>) -> Store<u32> {
    let mut store = new_store(1);
    for r in regions {
        store.prepare_region(persisted(r, PeerState::Normal)).unwrap();
    }
    store
}

fn make_leader(store: &mut Store<u32>, region_id: u64, progress: Vec<Progress>) {
    let i = store.peer_index(region_id).unwrap();
    let id = store.region_peers[i].peer_id();
    store.region_peers[i].set_raft_status(RaftStatus {
        term: 6,
        leader_id: id,
        role: StateRole::Leader,
        pending_conf: false,
        progress,
    });
}

fn uuid_bytes(n: u128) -> Vec<u8> {
    n.to_be_bytes().to_vec()
}

fn request(region_id: u64, peer_id: u64, uuid: u128, body: CmdBody) -> RaftCmdRequest {
    RaftCmdRequest {
        header: RaftRequestHeader {
            region_id,
            peer: MetaPeer { id: peer_id, store_id: 1 },
            region_epoch: Some(RegionEpoch { conf_ver: 1, version: 1 }),
            uuid: uuid_bytes(uuid),
        },
        body,
    }
}

fn ready_with(commit: u64, committed: Vec<Entry>) -> Ready {
    Ready {
        hs: Some(HardState { term: 6, vote: 0, commit }),
        entries: vec![LogEntry { index: commit, term: 6, data: vec![] }],
        snapshot: None,
        committed_entries: committed,
        messages: vec![],
    }
}

fn ranges(store: &Store<u32>) -> Vec<(Vec<u8>, u64)> {
    (0..store.region_ranges.len())
        .map(|i| (store.region_ranges.key_at(i).clone(), *store.region_ranges.value_at(i)))
        .collect()
}

#[test]
fn test_store_new_validates_config() {
    assert!(Store::<u32>::new(MetaStore { id: 1 }, config()).is_ok());
    for bad in vec![
        Config { raft_heartbeat_ticks: 0, ..config() },
        Config { raft_election_timeout_ticks: 3, ..config() },
        Config { raft_log_gc_threshold: 0, ..config() },
        Config { raft_log_gc_limit: 0, ..config() },
        Config { region_split_size: 81 * 1024 * 1024, ..config() },
    ] {
        assert_eq!(bad.validate(), Err(Error::Other { reason: Reason::InvalidConfig }));
        assert!(Store::<u32>::new(MetaStore { id: 1 }, bad).is_err());
    }
    let store = new_store(7);
    assert_eq!(store.store_id(), 7);
    assert_eq!(store.config(), &config());
    assert!(store.peer_cache().is_empty());
}

#[test]
fn test_prepare_regions() {
    let mut store = new_store(1);
    assert_eq!(
        store.prepare_region(persisted(region(1, b"a", b"m", &[1, 2, 3]), PeerState::Normal)),
        Ok(vec![])
    );
    // a snapshot that was being applied is applied again
    assert_eq!(
        store.prepare_region(persisted(region(2, b"m", b"", &[1, 2]), PeerState::Applying)),
        Ok(vec![Task::SnapApply { region_id: 2 }])
    );
    assert!(store.get_peer(2).unwrap().is_applying_snap());
    // a region of one peer stands for election
    assert_eq!(
        store.prepare_region(persisted(region(3, b"", b"a", &[1]), PeerState::Normal)),
        Ok(vec![Task::Campaign { region_id: 3 }])
    );
    // a region that was destroyed is passed over
    assert_eq!(
        store.prepare_region(persisted(region(4, b"c", b"d", &[1]), PeerState::Tombstone)),
        Ok(vec![])
    );
    assert!(store.get_peer(4).is_none());
    assert_eq!(store.region_peers.len(), 3);
    assert_eq!(
        ranges(&store),
        vec![(b"za".to_vec(), 3), (b"zm".to_vec(), 1), (vec![b'z' + 1], 2)]
    );

    let refused = |store: &mut Store<u32>, rec: PersistedRegion, reason: Reason| {
        assert_eq!(store.prepare_region(rec), Err(Error::Other { reason }));
        assert_eq!(store.region_peers.len(), 3);
        assert_eq!(store.region_ranges.len(), 3);
    };
    refused(&mut store, persisted(region(5, b"k", b"p", &[1]), PeerState::Normal), Reason::RegionRejected);
    refused(&mut store, persisted(region(5, b"b", b"c", &[1]), PeerState::Normal), Reason::RegionRejected);
    refused(&mut store, persisted(region(5, b"x", b"x", &[1]), PeerState::Normal), Reason::RegionRejected);
    refused(&mut store, persisted(region(1, b"x", b"y", &[1]), PeerState::Normal), Reason::DuplicatedRegion);
    refused(&mut store, persisted(region(5, b"x", b"y", &[2]), PeerState::Normal), Reason::NoPeerOnStore);
    let mut wrong_key = persisted(region(5, b"x", b"y", &[1]), PeerState::Normal);
    wrong_key.key = region_state_key(6);
    refused(&mut store, wrong_key, Reason::InvalidMetaKey);
    let mut out_of_order = persisted(region(5, b"x", b"y", &[1]), PeerState::Normal);
    out_of_order.apply_state.applied_index = 9;
    refused(&mut store, out_of_order, Reason::IndexOutOfRange);

    assert!(store.overlaps_other(&region(9, b"l", b"n", &[1])));
    assert!(store.overlaps_other(&region(9, b"", b"", &[1])));
    assert!(!store.overlaps_other(&region(1, b"a", b"m", &[1])));
    assert!(store.overlaps_other(&region(1, b"a", b"n", &[1])));
}

#[test]
fn test_duplicated_region_is_refused() {
    let mut store = store_with(vec![region(1, b"a", b"m", &[1])]);
    let snap = Snapshot::new();
    // a placeholder for region 2
    let msg = RaftMessage {
        region_id: 2,
        from_peer: MetaPeer { id: 202, store_id: 2 },
        to_peer: MetaPeer { id: 201, store_id: 1 },
        message: None,
        region_epoch: Some(RegionEpoch { conf_ver: 1, version: 1 }),
        is_tombstone: false,
    };
    assert!(matches!(
        store.on_raft_message(msg, &None, &snap),
        Ok(MessageOutcome::Step { created: true, .. })
    ));
    assert_eq!(
        store.prepare_region(persisted(region(2, b"m", b"z", &[1]), PeerState::Normal)),
        Err(Error::Other { reason: Reason::DuplicatedRegion })
    );
}

#[test]
fn test_split_creates_new_peer() {
    let mut store = store_with(vec![region(1, b"", b"", &[1, 2, 3])]);
    make_leader(&mut store, 1, vec![]);
    let mut snap = Snapshot::new();
    let split = request(
        1,
        101,
        1,
        CmdBody::Admin(AdminRequest::Split {
            split_key: Some(b"f".to_vec()),
            new_region_id: 2,
            new_peer_ids: vec![11, 12, 13],
        }),
    );
    let entries = vec![Entry { index: 6, term: 6, data: EntryData::Normal(split), compact_term: None }];
    let out = store.on_raft_ready(1, &mut snap, &ready_with(6, entries)).unwrap().unwrap();
    assert!(out.destroyed.is_none());
    assert_eq!(out.ready.refused, None);
    assert_eq!(out.ready.result.exec_results.len(), 1);

    let left = Region {
        end_key: b"f".to_vec(),
        region_epoch: RegionEpoch { conf_ver: 1, version: 2 },
        ..region(1, b"", b"", &[1, 2, 3])
    };
    let right = Region {
        id: 2,
        start_key: b"f".to_vec(),
        end_key: vec![],
        region_epoch: RegionEpoch { conf_ver: 1, version: 2 },
        peers: vec![
            MetaPeer { id: 11, store_id: 1 },
            MetaPeer { id: 12, store_id: 2 },
            MetaPeer { id: 13, store_id: 3 },
        ],
    };
    assert_eq!(
        out.tasks,
        vec![
            Task::Campaign { region_id: 2 },
            Task::PdHeartbeat { region: left.clone(), peer: MetaPeer { id: 101, store_id: 1 } },
            Task::PdHeartbeat { region: right.clone(), peer: MetaPeer { id: 11, store_id: 1 } },
            Task::PdReportSplit { left: left.clone(), right: right.clone() },
        ]
    );
    assert_eq!(store.region_peers.len(), 2);
    assert_eq!(store.get_peer(1).unwrap().region(), &left);
    let new_peer = store.get_peer(2).unwrap();
    assert_eq!(new_peer.region(), &right);
    assert_eq!(new_peer.peer_id(), 11);
    assert_eq!(new_peer.size_diff_hint, config().region_check_size_diff);
    assert_eq!(new_peer.get_store().applied_index(), 5);
    assert_eq!(ranges(&store), vec![(b"zf".to_vec(), 1), (vec![b'z' + 1], 2)]);
    // no key belongs to both halves
    for key in [&b""[..], b"e", b"f", b"g", b"zz"] {
        let in_left = tikv::raftstore::store::util::check_key_in_region(key, &left).is_ok();
        let in_right = tikv::raftstore::store::util::check_key_in_region(key, &right).is_ok();
        assert!(in_left != in_right);
    }
    // the new region takes part in the cache
    assert_eq!(store.peer_cache().get(&12), Some(&MetaPeer { id: 12, store_id: 2 }));
}

#[test]
fn test_follower_split_and_unrecorded_region() {
    let mut store = store_with(vec![region(1, b"a", b"m", &[1, 2])]);
    let mut snap = Snapshot::new();
    let split = request(
        1,
        101,
        1,
        CmdBody::Admin(AdminRequest::Split {
            split_key: Some(b"f".to_vec()),
            new_region_id: 2,
            new_peer_ids: vec![11, 12],
        }),
    );
    let entries = vec![Entry { index: 6, term: 6, data: EntryData::Normal(split), compact_term: None }];
    let out = store.on_raft_ready(1, &mut snap, &ready_with(6, entries)).unwrap().unwrap();
    // a follower neither campaigns nor reports
    assert_eq!(out.tasks, vec![]);
    assert_eq!(ranges(&store), vec![(b"zf".to_vec(), 1), (b"zm".to_vec(), 2)]);

    // the store has no peer of region 9
    assert!(store.on_raft_ready(9, &mut snap, &ready_with(6, vec![])).unwrap().is_none());

    // commands are applied only to a region whose range the store has recorded
    let msg = RaftMessage {
        region_id: 3,
        from_peer: MetaPeer { id: 302, store_id: 2 },
        to_peer: MetaPeer { id: 301, store_id: 1 },
        message: None,
        region_epoch: Some(RegionEpoch { conf_ver: 1, version: 1 }),
        is_tombstone: false,
    };
    assert!(store.on_raft_message(msg, &None, &snap).is_ok());
    let put = request(
        3,
        301,
        2,
        CmdBody::Requests(vec![Request::Put { cf: None, key: b"x".to_vec(), value: vec![] }]),
    );
    let rd = Ready {
        hs: Some(HardState { term: 1, vote: 0, commit: 1 }),
        entries: vec![LogEntry { index: 1, term: 1, data: vec![] }],
        snapshot: None,
        committed_entries: vec![Entry {
            index: 1,
            term: 1,
            data: EntryData::Normal(put),
            compact_term: None,
        }],
        messages: vec![],
    };
    assert_eq!(
        store.on_raft_ready(3, &mut snap, &rd).err(),
        Some(Error::Other { reason: Reason::RegionNotRecorded })
    );
}

#[test]
fn test_snapshot_initializes_placeholder() {
    let mut store = store_with(vec![region(1, b"a", b"m", &[1, 2])]);
    let mut snap = Snapshot::new();
    let vote = |region_id: u64, snapshot_region: Option<Region>| RaftMessage {
        region_id,
        from_peer: MetaPeer { id: 902, store_id: 2 },
        to_peer: MetaPeer { id: 901, store_id: 1 },
        message: Some(Message {
            msg_type: MessageType::MsgSnapshot,
            from: 902,
            to: 901,
            snapshot_region,
            payload: vec![],
        }),
        region_epoch: Some(RegionEpoch { conf_ver: 1, version: 1 }),
        is_tombstone: false,
    };
    // a snapshot for a range that overlaps region 1 is dropped
    assert!(matches!(
        store.on_raft_message(vote(9, Some(region(9, b"k", b"p", &[1, 2]))), &None, &snap),
        Ok(MessageOutcome::Overlapped)
    ));
    assert!(store.pending_raft_groups.is_empty());
    // one for a free range is stepped
    assert!(matches!(
        store.on_raft_message(vote(9, Some(region(9, b"m", b"p", &[1, 2]))), &None, &snap),
        Ok(MessageOutcome::Step { created: false, .. })
    ));
    assert_eq!(store.pending_raft_groups, vec![9]);
    assert_eq!(store.take_pending(), vec![9]);
    assert!(store.take_pending().is_empty());

    let rd = |r: Region| Ready {
        hs: Some(HardState { term: 6, vote: 0, commit: 20 }),
        entries: vec![],
        snapshot: Some(SnapshotMeta { index: 20, term: 6, region: r }),
        committed_entries: vec![],
        messages: vec![],
    };
    // the store refuses a ready whose snapshot overlaps another region
    assert_eq!(
        store.on_raft_ready(9, &mut snap, &rd(region(9, b"k", b"p", &[1, 2]))).err(),
        Some(Error::Other { reason: Reason::RegionRejected })
    );
    assert_eq!(
        store.on_raft_ready(9, &mut snap, &rd(region(8, b"m", b"p", &[1, 2]))).err(),
        Some(Error::Other { reason: Reason::RegionRejected })
    );
    let out = store.on_raft_ready(9, &mut snap, &rd(region(9, b"m", b"p", &[1, 2]))).unwrap().unwrap();
    assert_eq!(out.tasks, vec![Task::SnapApply { region_id: 9 }]);
    assert_eq!(ranges(&store), vec![(b"zm".to_vec(), 1), (b"zp".to_vec(), 9)]);
    assert!(store.get_peer(9).unwrap().is_applying_snap());
    // the worker reports back
    assert_eq!(
        store.on_snap_apply_res(1, true),
        Err(Error::Other { reason: Reason::NotApplyingSnapshot })
    );
    assert_eq!(store.on_snap_apply_res(7, true), Err(Error::RegionNotFound { region_id: 7 }));
    assert_eq!(
        store.on_snap_apply_res(9, false),
        Err(Error::Other { reason: Reason::SnapshotApplyFailed })
    );
    assert_eq!(store.on_snap_apply_res(9, true), Ok(()));
    assert_eq!(store.get_peer(9).unwrap().get_store().snap_state, SnapState::Relax);
    // a later snapshot moves the record
    let out = store.on_raft_ready(9, &mut snap, &{
        let mut r = rd(region(9, b"n", b"q", &[1, 2]));
        r.hs = Some(HardState { term: 6, vote: 0, commit: 30 });
        r.snapshot = Some(SnapshotMeta { index: 30, term: 6, region: region(9, b"n", b"q", &[1, 2]) });
        r
    });
    assert!(out.is_ok());
    assert_eq!(ranges(&store), vec![(b"zm".to_vec(), 1), (b"zq".to_vec(), 9)]);
}

#[test]
fn test_remove_self_destroys_peer() {
    let mut store = store_with(vec![region(1, b"a", b"m", &[1, 2, 3]), region(2, b"m", b"z", &[1])]);
    make_leader(&mut store, 1, vec![]);
    let mut snap = Snapshot::new();
    snap.put_cf(CfName::Default, data_key(b"b"), b"v".to_vec());
    snap.put_cf(CfName::Default, data_key(b"n"), b"v".to_vec());
    let waiting = request(
        1,
        101,
        7,
        CmdBody::Requests(vec![Request::Put { cf: None, key: b"b".to_vec(), value: vec![] }]),
    );
    match store.propose_raft_command(&waiting, 70).unwrap() {
        ProposeOutcome::Normal { cmd, err_resp } => {
            assert!(store.on_proposed(1, cmd, false, None, err_resp).is_none());
        }
        other => panic!("unexpected outcome {:?}", other),
    }
    let remove = request(
        1,
        101,
        1,
        CmdBody::Admin(AdminRequest::ChangePeer {
            change_type: ConfChangeType::RemoveNode,
            peer: MetaPeer { id: 101, store_id: 1 },
        }),
    );
    let entries =
        vec![Entry { index: 6, term: 7, data: EntryData::ConfChange(remove), compact_term: None }];
    let out = store.on_raft_ready(1, &mut snap, &ready_with(6, entries)).unwrap().unwrap();
    let mut after = region(1, b"a", b"m", &[2, 3]);
    after.region_epoch.conf_ver = 2;
    assert_eq!(
        out.tasks,
        vec![Task::PdHeartbeat { region: after, peer: MetaPeer { id: 101, store_id: 1 } }]
    );
    let destroyed = out.destroyed.unwrap();
    assert_eq!(destroyed.notifications.len(), 1);
    assert_eq!(destroyed.notifications[0].cb, 70);
    assert_eq!(
        destroyed.notifications[0].resp.header.error,
        Some(Error::RegionNotFound { region_id: 1 })
    );
    assert_eq!(destroyed.write_batch.len(), 2);
    assert!(store.get_peer(1).is_none());
    assert_eq!(ranges(&store), vec![(b"zz".to_vec(), 2)]);
}

fn vote_from(store_id: u64, epoch: RegionEpoch, msg_type: MessageType) -> RaftMessage {
    RaftMessage {
        region_id: 1,
        from_peer: MetaPeer { id: 100 + store_id, store_id },
        to_peer: MetaPeer { id: 101, store_id: 1 },
        message: Some(Message {
            msg_type,
            from: 100 + store_id,
            to: 101,
            snapshot_region: None,
            payload: vec![],
        }),
        region_epoch: Some(epoch),
        is_tombstone: false,
    }
}

#[test]
fn test_stale_vote_gets_tombstone_hint() {
    // the leader added 4 and removed 2 while 2 was isolated
    let mut current = region(1, b"a", b"m", &[1, 3, 4]);
    current.region_epoch.conf_ver = 3;
    let mut leader = store_with(vec![current.clone()]);
    let snap = Snapshot::new();
    let old = RegionEpoch { conf_ver: 1, version: 1 };

    // the stale vote of 2 is answered with a hint
    let hint = match leader.on_raft_message(vote_from(2, old, MessageType::MsgRequestVote), &None, &snap) {
        Ok(MessageOutcome::Stale { reply: Some(hint) }) => hint,
        _ => panic!("expected a reply"),
    };
    assert_eq!(
        hint,
        RaftMessage {
            region_id: 1,
            from_peer: MetaPeer { id: 101, store_id: 1 },
            to_peer: MetaPeer { id: 102, store_id: 2 },
            message: None,
            region_epoch: Some(current.region_epoch),
            is_tombstone: true,
        }
    );
    // any other stale message of 2 is ignored
    assert!(matches!(
        leader.on_raft_message(vote_from(2, old, MessageType::MsgOther), &None, &snap),
        Ok(MessageOutcome::Stale { reply: None })
    ));
    // a stale vote of a peer that is still in the region is not stale
    assert!(matches!(
        leader.on_raft_message(vote_from(3, old, MessageType::MsgRequestVote), &None, &snap),
        Ok(MessageOutcome::Step { created: false, .. })
    ));
    assert_eq!(leader.peer_cache().get(&103), Some(&MetaPeer { id: 103, store_id: 3 }));
    // a message for another store, or without epoch, is ignored
    let mut elsewhere = vote_from(2, old, MessageType::MsgOther);
    elsewhere.to_peer.store_id = 5;
    assert!(matches!(leader.on_raft_message(elsewhere, &None, &snap), Ok(MessageOutcome::Invalid)));
    let mut no_epoch = vote_from(2, old, MessageType::MsgOther);
    no_epoch.region_epoch = None;
    assert!(matches!(leader.on_raft_message(no_epoch, &None, &snap), Ok(MessageOutcome::Invalid)));

    // the hint causes 2 to destroy itself
    let mut isolated: Store<u32> = Store::new(MetaStore { id: 2 }, config()).unwrap();
    isolated
        .prepare_region(persisted(region(1, b"a", b"m", &[1, 2, 3]), PeerState::Normal))
        .unwrap();
    match isolated.on_raft_message(hint, &None, &snap) {
        Ok(MessageOutcome::Gc { destroyed: Some(d) }) => {
            assert_eq!(d.write_batch.len(), 1);
        }
        _ => panic!("expected the peer to be destroyed"),
    }
    assert!(isolated.get_peer(1).is_none());
    assert!(isolated.region_ranges.is_empty());
}

#[test]
fn test_messages_to_a_destroyed_peer() {
    let mut store = new_store(1);
    let snap = Snapshot::new();
    let mut gone = region(1, b"a", b"m", &[3, 4]);
    gone.region_epoch.conf_ver = 3;
    let tombstone = Some(RegionLocalState { state: PeerState::Tombstone, region: gone.clone() });
    let old = RegionEpoch { conf_ver: 1, version: 1 };
    assert!(matches!(
        store.on_raft_message(vote_from(2, old, MessageType::MsgRequestVote), &tombstone, &snap),
        Ok(MessageOutcome::Stale { reply: Some(_) })
    ));
    // a vote from a store of the region is not answered
    assert!(matches!(
        store.on_raft_message(vote_from(3, old, MessageType::MsgRequestVote), &tombstone, &snap),
        Ok(MessageOutcome::Stale { reply: None })
    ));
    // a message of the tombstone's own time is an error
    assert_eq!(
        store.on_raft_message(vote_from(2, gone.region_epoch, MessageType::MsgOther), &tombstone, &snap).err(),
        Some(Error::Other { reason: Reason::TombstoneConflict })
    );
    assert!(store.region_peers.is_empty());
    // a later membership brings the peer back as a placeholder
    let later = RegionEpoch { conf_ver: 4, version: 1 };
    assert!(matches!(
        store.on_raft_message(vote_from(2, later, MessageType::MsgOther), &tombstone, &snap),
        Ok(MessageOutcome::Step { created: true, .. })
    ));
    assert!(!store.get_peer(1).unwrap().is_initialized());
    // a tombstone message to a peer that is not older changes nothing
    let mut hint = vote_from(2, later, MessageType::MsgOther);
    hint.is_tombstone = true;
    hint.region_epoch = Some(RegionEpoch { conf_ver: 0, version: 0 });
    assert!(matches!(
        store.on_raft_message(hint, &None, &snap),
        Ok(MessageOutcome::Gc { destroyed: None })
    ));
    assert!(store.get_peer(1).is_some());
}

#[test]
fn test_propose_raft_command() {
    let mut store = store_with(vec![region(1, b"a", b"m", &[1, 2])]);
    let put = |region_id, peer_id, uuid| {
        request(
            region_id,
            peer_id,
            uuid,
            CmdBody::Requests(vec![Request::Put { cf: None, key: b"b".to_vec(), value: vec![] }]),
        )
    };
    let respond = |outcome: Result<ProposeOutcome<u32>, Error>| match outcome {
        Ok(ProposeOutcome::Respond { notification }) => notification,
        other => panic!("unexpected outcome {:?}", other),
    };
    let mut no_uuid = put(1, 101, 1);
    no_uuid.header.uuid = vec![1, 2, 3];
    let n = respond(store.propose_raft_command(&no_uuid, 1));
    assert_eq!(n.cb, 1);
    assert_eq!(n.resp.header.error, Some(Error::Other { reason: Reason::MissingUuid }));
    assert_eq!(n.resp.header.uuid, None);

    let n = respond(store.propose_raft_command(&put(9, 101, 2), 2));
    assert_eq!(n.resp.header.error, Some(Error::RegionNotFound { region_id: 9 }));
    assert_eq!(n.resp.header.uuid, Some(2));

    {
        let i = store.peer_index(1).unwrap();
        store.region_peers[i].raft_group.leader_id = 102;
    }
    let n = respond(store.propose_raft_command(&put(1, 101, 3), 3));
    assert_eq!(
        n.resp.header.error,
        Some(Error::NotLeader { region_id: 1, leader: Some(MetaPeer { id: 102, store_id: 2 }) })
    );
    assert_eq!(n.resp.header.current_term, 5);

    make_leader(&mut store, 1, vec![]);
    let n = respond(store.propose_raft_command(&put(1, 999, 4), 4));
    assert_eq!(n.resp.header.error, Some(Error::Other { reason: Reason::MismatchPeerId }));
    assert!(store.pending_raft_groups.is_empty());

    match store.propose_raft_command(&put(1, 101, 5), 5).unwrap() {
        ProposeOutcome::Normal { cmd, err_resp } => {
            assert_eq!((cmd.uuid, cmd.term, cmd.cb), (5, 6, 5));
            assert_eq!(err_resp.header.uuid, Some(5));
            assert_eq!(err_resp.header.current_term, 6);
            assert!(store.on_proposed(1, cmd, false, None, err_resp).is_none());
        }
        other => panic!("unexpected outcome {:?}", other),
    }
    assert_eq!(store.pending_raft_groups, vec![1]);
    assert!(store.get_peer(1).unwrap().pending_cmds.contains(&5));
    let n = respond(store.propose_raft_command(&put(1, 101, 5), 6));
    assert_eq!(n.resp.header.error, Some(Error::Other { reason: Reason::DuplicatedUuid }));

    // an answer for a region that is gone
    let n = store
        .on_proposed(
            9,
            tikv::raftstore::store::pending::PendingCmd { uuid: 8, term: 6, cb: 8 },
            false,
            None,
            tikv::raftstore::store::cmd_resp::new_response(),
        )
        .unwrap();
    assert_eq!(n.resp.header.error, Some(Error::RegionNotFound { region_id: 9 }));
}

#[test]
fn test_status_commands() {
    let mut store = store_with(vec![region(1, b"a", b"m", &[1, 2])]);
    make_leader(&mut store, 1, vec![]);
    let status = |region_id, s| request(region_id, 101, 1, CmdBody::Status(s));
    let resp = store.execute_status_command(&status(1, StatusRequest::RegionLeader)).unwrap();
    assert_eq!(
        resp.body,
        ResponseBody::Status(StatusResponse::RegionLeader {
            leader: Some(MetaPeer { id: 101, store_id: 1 })
        })
    );
    assert_eq!(resp.header.current_term, 6);
    let resp = store.execute_status_command(&status(1, StatusRequest::RegionDetail)).unwrap();
    assert_eq!(
        resp.body,
        ResponseBody::Status(StatusResponse::RegionDetail {
            region: region(1, b"a", b"m", &[1, 2]),
            leader: Some(MetaPeer { id: 101, store_id: 1 }),
        })
    );
    assert_eq!(
        store.execute_status_command(&status(9, StatusRequest::RegionLeader)),
        Err(Error::RegionNotFound { region_id: 9 })
    );
    assert_eq!(
        store.execute_status_command(&status(1, StatusRequest::InvalidStatus)),
        Err(Error::Other { reason: Reason::InvalidStatus })
    );
    // a placeholder does not know its region
    let snap = Snapshot::new();
    let mut msg = vote_from(2, RegionEpoch { conf_ver: 1, version: 1 }, MessageType::MsgOther);
    msg.region_id = 5;
    assert!(store.on_raft_message(msg, &None, &snap).is_ok());
    assert_eq!(
        store.execute_status_command(&status(5, StatusRequest::RegionDetail)),
        Err(Error::RegionNotInitialized { region_id: 5 })
    );
    assert!(store.execute_status_command(&status(5, StatusRequest::RegionLeader)).is_ok());
    // the store answers a status command itself
    match store.propose_raft_command(&status(9, StatusRequest::RegionDetail), 3).unwrap() {
        ProposeOutcome::Respond { notification } => {
            assert_eq!(notification.resp.header.error, Some(Error::RegionNotFound { region_id: 9 }));
            assert_eq!(notification.resp.header.uuid, Some(1));
        }
        other => panic!("unexpected outcome {:?}", other),
    }
}

#[test]
fn test_ticks() {
    let mut store = store_with(vec![
        region(1, b"a", b"m", &[1, 2]),
        region(2, b"m", b"p", &[1, 2]),
        region(3, b"p", b"z", &[1, 2]),
    ]);
    store.prepare_region(persisted(region(4, b"z", b"", &[1, 2]), PeerState::Applying)).unwrap();
    // a peer that applies a snapshot is not ticked
    assert_eq!(
        store.on_raft_base_tick(),
        vec![
            Task::RaftTick { region_id: 1 },
            Task::RaftTick { region_id: 2 },
            Task::RaftTick { region_id: 3 },
        ]
    );
    assert_eq!(store.pending_raft_groups, vec![1, 2, 3]);
    store.on_raft_base_tick();
    assert_eq!(store.pending_raft_groups, vec![1, 2, 3]);

    assert!(store.on_pd_heartbeat_tick().is_empty());
    assert!(store.on_raft_gc_log_tick().is_empty());
    make_leader(
        &mut store,
        1,
        vec![
            Progress { id: 101, matched: 200, state: ProgressState::Replicate },
            Progress { id: 102, matched: 57, state: ProgressState::Replicate },
        ],
    );
    make_leader(
        &mut store,
        3,
        vec![
            Progress { id: 301, matched: 200, state: ProgressState::Replicate },
            Progress { id: 302, matched: 56, state: ProgressState::Replicate },
        ],
    );
    assert_eq!(
        store.on_pd_heartbeat_tick(),
        vec![
            Task::PdHeartbeat {
                region: region(1, b"a", b"m", &[1, 2]),
                peer: MetaPeer { id: 101, store_id: 1 },
            },
            Task::PdHeartbeat {
                region: region(3, b"p", b"z", &[1, 2]),
                peer: MetaPeer { id: 301, store_id: 1 },
            },
        ]
    );
    // the first entry of the log is 6: a follower at 57 is past the threshold of 50, one at 56 is not
    let tasks = store.on_raft_gc_log_tick();
    assert_eq!(tasks.len(), 1);
    match &tasks[0] {
        Task::Propose { request } => {
            assert_eq!(request.header.region_id, 1);
            assert_eq!(request.header.peer, MetaPeer { id: 101, store_id: 1 });
            assert_eq!(request.body, CmdBody::Admin(AdminRequest::CompactLog { compact_index: 57 }));
            assert!(get_uuid_from_req(request).is_some());
        }
        other => panic!("unexpected task {:?}", other),
    }
    let request = new_compact_log_request(3, MetaPeer { id: 301, store_id: 1 }, 9);
    assert_eq!(request.header.region_epoch, None);
    assert_eq!(request.body, CmdBody::Admin(AdminRequest::CompactLog { compact_index: 9 }));
    assert_eq!(request.header.uuid.len(), 16);

    // split checks
    {
        let i = store.peer_index(1).unwrap();
        store.region_peers[i].size_diff_hint = config().region_check_size_diff;
        let i = store.peer_index(2).unwrap();
        store.region_peers[i].size_diff_hint = config().region_check_size_diff;
        let i = store.peer_index(3).unwrap();
        store.region_peers[i].size_diff_hint = config().region_check_size_diff - 1;
    }
    assert!(store.on_split_region_check_tick(true).is_empty());
    assert_eq!(
        store.on_split_region_check_tick(false),
        vec![Task::SplitCheck {
            region_id: 1,
            epoch: RegionEpoch { conf_ver: 1, version: 1 },
            start_key: b"a".to_vec(),
            end_key: b"m".to_vec(),
        }]
    );
    assert_eq!(store.get_peer(1).unwrap().size_diff_hint, 0);
    assert_eq!(store.get_peer(2).unwrap().size_diff_hint, config().region_check_size_diff);
    assert!(store.on_split_region_check_tick(false).is_empty());

    let epoch = RegionEpoch { conf_ver: 1, version: 1 };
    assert_eq!(
        store.on_split_check_result(1, epoch, &b"zf".to_vec()),
        Some(Task::PdAskSplit {
            region: region(1, b"a", b"m", &[1, 2]),
            split_key: b"f".to_vec(),
            peer: MetaPeer { id: 101, store_id: 1 },
        })
    );
    assert_eq!(store.on_split_check_result(1, epoch, &vec![]), None);
    assert_eq!(store.on_split_check_result(1, epoch, &b"f".to_vec()), None);
    assert_eq!(store.on_split_check_result(2, epoch, &b"zn".to_vec()), None);
    assert_eq!(store.on_split_check_result(9, epoch, &b"zn".to_vec()), None);
    assert_eq!(
        store.on_split_check_result(1, RegionEpoch { conf_ver: 1, version: 2 }, &b"zf".to_vec()),
        None
    );
}

#[test]
fn test_log_gc_by_limit() {
    let mut store: Store<u32> =
        Store::new(MetaStore { id: 1 }, Config { raft_log_gc_limit: 10, ..config() }).unwrap();
    let mut rec = persisted(region(1, b"a", b"m", &[1, 2]), PeerState::Normal);
    rec.raft_state = RaftLocalState { hard_state: HardState { term: 5, vote: 0, commit: 16 }, last_index: 20 };
    rec.apply_state.applied_index = 16;
    store.prepare_region(rec).unwrap();
    make_leader(&mut store, 1, vec![Progress { id: 102, matched: 7, state: ProgressState::Probe }]);
    // ten applied entries past the first: compact up to what was applied
    let tasks = store.on_raft_gc_log_tick();
    assert_eq!(tasks.len(), 1);
    match &tasks[0] {
        Task::Propose { request } => {
            assert_eq!(request.body, CmdBody::Admin(AdminRequest::CompactLog { compact_index: 16 }));
        }
        other => panic!("unexpected task {:?}", other),
    }
}

#[test]
fn test_store_heartbeat_stats() {
    let store = store_with(vec![region(1, b"a", b"m", &[1, 2])]);
    let stats = |task: Task| match task {
        Task::PdStoreHeartbeat { stats } => stats,
        other => panic!("unexpected task {:?}", other),
    };
    // the configured capacity caps the disk's
    assert_eq!(
        stats(store.store_heartbeat_pd(5000, 4000, 300, 2, 1)),
        StoreStats {
            store_id: 1,
            capacity: 1000,
            available: 700,
            region_count: 1,
            sending_snap_count: 2,
            receiving_snap_count: 1,
        }
    );
    // what the disk has free caps what is available
    assert_eq!(stats(store.store_heartbeat_pd(800, 100, 300, 0, 0)).capacity, 800);
    assert_eq!(stats(store.store_heartbeat_pd(800, 100, 300, 0, 0)).available, 100);
    // nothing is available once the engine uses the capacity
    assert_eq!(stats(store.store_heartbeat_pd(5000, 4000, 1000, 0, 0)).available, 0);
    assert_eq!(stats(store.store_heartbeat_pd(5000, 4000, 2000, 0, 0)).available, 0);
    assert_eq!(
        stats(store.store_heartbeat_pd(1, 1, 0, usize::MAX, 7)).sending_snap_count,
        u32::MAX
    );
}

#[test]
fn test_snap_gc() {
    let mut store = new_store(1);
    let mut rec = persisted(region(1, b"a", b"m", &[1, 2]), PeerState::Normal);
    rec.raft_state = RaftLocalState { hard_state: HardState { term: 7, vote: 0, commit: 30 }, last_index: 30 };
    rec.apply_state =
        RaftApplyState { applied_index: 30, truncated_state: RaftTruncatedState { index: 20, term: 7 } };
    store.prepare_region(rec).unwrap();
    let file = |region_id, term, idx, is_sending, registered, elapsed_secs| SnapFile {
        key: SnapKey { region_id, term, idx },
        is_sending,
        registered,
        elapsed_secs,
    };
    let files = vec![
        // sent: compacted past
        file(1, 7, 19, true, false, Some(1)),
        file(1, 6, 25, true, false, Some(1)),
        // sent: neither compacted nor old
        file(1, 7, 20, true, false, Some(600)),
        // sent: older than the timeout
        file(1, 7, 20, true, false, Some(601)),
        // sent: of unknown age
        file(1, 7, 25, true, false, None),
        // pinned by a transfer
        file(1, 7, 19, true, true, Some(10000)),
        // received: applied
        file(1, 7, 19, false, false, None),
        file(1, 7, 20, false, false, None),
        // received: not applied yet
        file(1, 7, 21, false, false, Some(10000)),
        file(1, 8, 19, false, false, None),
        // of a region that is gone
        file(2, 9, 99, true, false, None),
        file(2, 9, 99, false, false, None),
        file(2, 9, 99, false, true, None),
    ];
    let garbage = store.handle_snap_mgr_gc(&files);
    assert_eq!(
        garbage,
        vec![files[0], files[1], files[3], files[6], files[7], files[10], files[11]]
    );
    // a received snapshot that is being applied stays
    let i = store.peer_index(1).unwrap();
    store.region_peers[i].store.set_snap_state(SnapState::Applying);
    let garbage = store.handle_snap_mgr_gc(&files);
    assert_eq!(garbage, vec![files[0], files[1], files[3], files[6], files[10], files[11]]);
    assert!(store.handle_snap_mgr_gc(&vec![]).is_empty());
}

#[test]
fn test_snapshot_reports() {
    let mut store = store_with(vec![region(1, b"a", b"m", &[1, 2])]);
    assert_eq!(store.on_report_snapshot(1, 102, SnapshotStatus::Finish), None);
    store.insert_peer_cache(MetaPeer { id: 102, store_id: 2 });
    assert_eq!(
        store.on_report_snapshot(1, 102, SnapshotStatus::Failure),
        Some(RaftReport::Snapshot { to_peer_id: 102, status: SnapshotStatus::Failure })
    );
    assert_eq!(store.on_report_snapshot(9, 102, SnapshotStatus::Finish), None);
    assert_eq!(store.on_unreachable(1, 5), Some(RaftReport::Unreachable { to_peer_id: 5 }));
    assert_eq!(store.on_unreachable(9, 5), None);

    // a generated snapshot matters only to a peer that waits for it
    store.on_snap_gen_res(1, true);
    assert_eq!(store.get_peer(1).unwrap().get_store().snap_state, SnapState::Relax);
    let i = store.peer_index(1).unwrap();
    store.region_peers[i].store.set_snap_state(SnapState::Generating);
    store.on_snap_gen_res(9, true);
    store.on_snap_gen_res(1, false);
    assert_eq!(store.get_peer(1).unwrap().get_store().snap_state, SnapState::Failed);
    let i = store.peer_index(1).unwrap();
    store.region_peers[i].store.set_snap_state(SnapState::Generating);
    store.on_snap_gen_res(1, true);
    assert_eq!(store.get_peer(1).unwrap().get_store().snap_state, SnapState::Snap);
}

fn split_entry(index: u64, new_region_id: u64, new_peer_ids: Vec<u64>) -> Vec<Entry> {
    let split = request(
        1,
        101,
        1,
        CmdBody::Admin(AdminRequest::Split {
            split_key: Some(b"f".to_vec()),
            new_region_id,
            new_peer_ids,
        }),
    );
    vec![Entry { index, term: 6, data: EntryData::Normal(split), compact_term: None }]
}

#[test]
fn test_split_onto_held_region_is_refused() {
    let mut store = store_with(vec![region(1, b"a", b"m", &[1, 2]), region(2, b"m", b"z", &[1, 2])]);
    make_leader(&mut store, 1, vec![]);
    let mut snap = Snapshot::new();
    let out = store
        .on_raft_ready(1, &mut snap, &ready_with(6, split_entry(6, 2, vec![11, 12])))
        .unwrap()
        .unwrap();
    assert_eq!(out.refused, Some(Error::Other { reason: Reason::DuplicatedRegion }));
    // the peer applied the split; the store made nothing for the right half
    assert_eq!(out.ready.result.exec_results.len(), 1);
    assert_eq!(out.tasks, vec![]);
    assert!(out.destroyed.is_none());
    assert_eq!(store.region_peers.len(), 2);
    assert_eq!(store.get_peer(1).unwrap().region().end_key, b"f".to_vec());
    assert_eq!(store.get_peer(2).unwrap().region(), &region(2, b"m", b"z", &[1, 2]));
    assert_eq!(ranges(&store), vec![(b"zf".to_vec(), 1), (b"zz".to_vec(), 2)]);

    // the right half may not have the id of the left either
    let mut store = store_with(vec![region(1, b"a", b"m", &[1, 2])]);
    let out = store
        .on_raft_ready(1, &mut snap, &ready_with(6, split_entry(6, 1, vec![11, 12])))
        .unwrap()
        .unwrap();
    assert_eq!(out.refused, Some(Error::Other { reason: Reason::DuplicatedRegion }));
    assert_eq!(store.region_peers.len(), 1);
    assert_eq!(ranges(&store), vec![(b"zf".to_vec(), 1)]);
}

#[test]
fn test_split_without_valid_peer_is_refused() {
    let mut store = store_with(vec![region(1, b"a", b"m", &[1, 2])]);
    let mut snap = Snapshot::new();
    let out = store
        .on_raft_ready(1, &mut snap, &ready_with(6, split_entry(6, 2, vec![0, 12])))
        .unwrap()
        .unwrap();
    assert_eq!(out.refused, Some(Error::Other { reason: Reason::InvalidPeerId }));
    assert_eq!(out.tasks, vec![]);
    assert!(store.get_peer(2).is_none());
    assert_eq!(ranges(&store), vec![(b"zf".to_vec(), 1)]);
}

#[test]
fn test_split_takes_the_place_of_a_placeholder() {
    let mut store = store_with(vec![region(1, b"a", b"m", &[1, 2])]);
    let mut snap = Snapshot::new();
    // the store has heard of region 2 before the split reached it
    let msg = RaftMessage {
        region_id: 2,
        from_peer: MetaPeer { id: 12, store_id: 2 },
        to_peer: MetaPeer { id: 11, store_id: 1 },
        message: None,
        region_epoch: Some(RegionEpoch { conf_ver: 1, version: 2 }),
        is_tombstone: false,
    };
    assert!(matches!(
        store.on_raft_message(msg, &None, &snap),
        Ok(MessageOutcome::Step { created: true, .. })
    ));
    assert!(!store.get_peer(2).unwrap().is_initialized());
    let out = store
        .on_raft_ready(1, &mut snap, &ready_with(6, split_entry(6, 2, vec![11, 12])))
        .unwrap()
        .unwrap();
    assert_eq!(out.refused, None);
    assert_eq!(store.region_peers.len(), 2);
    assert!(store.get_peer(2).unwrap().is_initialized());
    assert_eq!(store.get_peer(2).unwrap().region().start_key, b"f".to_vec());
    assert_eq!(ranges(&store), vec![(b"zf".to_vec(), 1), (b"zm".to_vec(), 2)]);
}

#[test]
fn test_destroying_a_peer_leaves_a_tombstone() {
    let mut store = store_with(vec![region(1, b"a", b"m", &[1, 2, 3])]);
    make_leader(&mut store, 1, vec![]);
    let mut snap = Snapshot::new();
    snap.put_cf(CfName::Default, data_key(b"b"), b"v".to_vec());
    snap.put_cf(CfName::Default, data_key(b"c"), b"v".to_vec());
    snap.put_cf(CfName::Default, data_key(b"m"), b"v".to_vec());
    let waiting = request(
        1,
        101,
        7,
        CmdBody::Requests(vec![Request::Put { cf: None, key: b"b".to_vec(), value: vec![] }]),
    );
    match store.propose_raft_command(&waiting, 70).unwrap() {
        ProposeOutcome::Normal { cmd, err_resp } => {
            assert!(store.on_proposed(1, cmd, false, None, err_resp).is_none());
        }
        other => panic!("unexpected outcome {:?}", other),
    }
    let mut hint = vote_from(2, RegionEpoch { conf_ver: 3, version: 1 }, MessageType::MsgOther);
    hint.is_tombstone = true;
    let destroyed = match store.on_raft_message(hint, &None, &snap) {
        Ok(MessageOutcome::Gc { destroyed: Some(d) }) => d,
        _ => panic!("expected the peer to be destroyed"),
    };
    // the keys of the region go, the region stays on record as destroyed
    assert_eq!(
        destroyed.write_batch.ops,
        vec![
            WriteOp::Delete { cf: CfName::Default, key: data_key(b"b") },
            WriteOp::Delete { cf: CfName::Default, key: data_key(b"c") },
            WriteOp::PutRegionState {
                key: region_state_key(1),
                state: RegionLocalState {
                    state: PeerState::Tombstone,
                    region: region(1, b"a", b"m", &[1, 2, 3]),
                },
            },
        ]
    );
    assert_eq!(destroyed.notifications.len(), 1);
    assert_eq!(destroyed.notifications[0].cb, 70);
    assert_eq!(
        destroyed.notifications[0].resp.header.error,
        Some(Error::RegionNotFound { region_id: 1 })
    );
    assert_eq!(destroyed.notifications[0].resp.header.uuid, Some(7));
    assert!(store.get_peer(1).is_none());
    assert!(store.region_ranges.is_empty());
}
