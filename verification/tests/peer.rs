use std::collections::HashMap;
use tikv::proto::metapb::{Peer as MetaPeer, Region, RegionEpoch};
use tikv::proto::raft_cmdpb::{
    AdminRequest, AdminResponse, CfName, CmdBody, RaftCmdRequest, RaftRequestHeader, Request,
    Response, ResponseBody,
};
use tikv::proto::raft_serverpb::{
    HardState, PeerState, RaftApplyState, RaftLocalState, RaftTruncatedState, RegionLocalState,
};
use tikv::proto::raftpb::{
    ConfChangeType, Entry, EntryData, Message, MessageType, Progress, ProgressState,
    SnapshotStatus,
};
use tikv::raftstore::errors::{Error, Reason};
use tikv::raftstore::store::engine::{Snapshot, WriteBatch, WriteOp};
use tikv::raftstore::store::keys::{apply_state_key, data_key, raft_state_key, region_state_key};
use tikv::raftstore::store::peer::{
    ExecResult, Peer, PeerCache, RaftStatus, StateRole, TRANSFER_LEADER_ALLOW_LOG_LAG,
};
use tikv::raftstore::store::peer_storage::{
    LogEntry, PeerStorage, SnapState, SnapshotMeta, RAFT_INIT_LOG_INDEX, RAFT_INIT_LOG_TERM,
};
use tikv::raftstore::store::pending::{PendingCmd, PendingCmdQueue};
use tikv::raftstore::store::propose::ProposeOutcome;
use tikv::raftstore::store::ready::{send_failure_reports, RaftReport, Ready};
use tikv::raftstore::store::util::{
    check_key_in_region, find_peer, fresh_uuid, get_uuid_from_req, is_epoch_stale, remove_peer,
};

fn new_region() -> Region {
    Region {
        id: 1,
        start_key: b"a".to_vec(),
        end_key: b"m".to_vec(),
        region_epoch: RegionEpoch { conf_ver: 1, version: 1 },
        peers: vec![
            MetaPeer { id: 1, store_id: 1 },
            MetaPeer { id: 2, store_id: 2 },
            MetaPeer { id: 3, store_id: 3 },
        ],
    }
}

fn new_peer() -> Peer<u32> {
    let (peer, campaign) = Peer::create(1, PeerStorage::fresh(new_region())).unwrap();
    assert!(!campaign);
    peer
}

// a peer whose log is committed up to `commit`
fn peer_with_log(commit: u64) -> Peer<u32> {
    let mut peer = new_peer();
    peer.store.raft_state.hard_state.commit = commit;
    peer.store.raft_state.last_index = commit;
    peer
}

fn uuid_bytes(n: u128) -> Vec<u8> {
    n.to_be_bytes().to_vec()
}

fn header(uuid: u128, epoch: Option<RegionEpoch>) -> RaftRequestHeader {
    RaftRequestHeader {
        region_id: 1,
        peer: MetaPeer { id: 1, store_id: 1 },
        region_epoch: epoch,
        uuid: uuid_bytes(uuid),
    }
}

fn current() -> Option<RegionEpoch> {
    Some(RegionEpoch { conf_ver: 1, version: 1 })
}

fn put_cmd(uuid: u128, key: &[u8], value: &[u8]) -> RaftCmdRequest {
    RaftCmdRequest {
        header: header(uuid, current()),
        body: CmdBody::Requests(vec![Request::Put {
            cf: None,
            key: key.to_vec(),
            value: value.to_vec(),
        }]),
    }
}

fn admin_cmd(uuid: u128, admin: AdminRequest) -> RaftCmdRequest {
    RaftCmdRequest { header: header(uuid, current()), body: CmdBody::Admin(admin) }
}

fn entry(index: u64, term: u64, data: EntryData) -> Entry {
    Entry { index, term, data, compact_term: None }
}

fn leader(progress: Vec<Progress>) -> RaftStatus {
    RaftStatus { term: 6, leader_id: 1, role: StateRole::Leader, pending_conf: false, progress }
}

fn progress(id: u64, matched: u64, state: ProgressState) -> Progress {
    Progress { id, matched, state }
}

#[test]
fn test_peer_create_and_replicate() {
    let peer = new_peer();
    assert_eq!(peer.peer_id(), 1);
    assert_eq!(peer.peer, MetaPeer { id: 1, store_id: 1 });
    assert_eq!(peer.region_id, 1);
    assert!(peer.is_initialized());
    assert!(!peer.is_leader());
    assert!(!peer.is_applying_snap());
    assert_eq!(peer.term(), RAFT_INIT_LOG_TERM);
    assert_eq!(peer.get_store().applied_index(), RAFT_INIT_LOG_INDEX);
    assert_eq!(peer.get_store().first_index(), RAFT_INIT_LOG_INDEX + 1);
    assert_eq!(peer.region(), &new_region());

    // no peer on the store
    let r: Result<(Peer<u32>, bool), Error> = Peer::create(9, PeerStorage::fresh(new_region()));
    assert_eq!(r.err(), Some(Error::Other { reason: Reason::NoPeerOnStore }));
    // a region of one peer stands for election at once
    let mut single = new_region();
    single.peers.truncate(1);
    let (_, campaign): (Peer<u32>, bool) = Peer::create(1, PeerStorage::fresh(single)).unwrap();
    assert!(campaign);

    let (placeholder, campaign): (Peer<u32>, bool) = Peer::replicate(1, 7, 70).unwrap();
    assert!(!campaign);
    assert!(!placeholder.is_initialized());
    assert_eq!(placeholder.region_id, 7);
    assert_eq!(placeholder.peer_id(), 70);
    assert_eq!(placeholder.get_store().applied_index(), 0);
    let r: Result<(Peer<u32>, bool), Error> = Peer::replicate(1, 7, 0);
    assert_eq!(r.err(), Some(Error::Other { reason: Reason::InvalidPeerId }));
}

#[test]
fn test_peer_storage_keeps_positions_in_order() {
    let raft = RaftLocalState { hard_state: HardState { term: 1, vote: 0, commit: 8 }, last_index: 9 };
    let apply = RaftApplyState {
        applied_index: 7,
        truncated_state: RaftTruncatedState { index: 6, term: 1 },
    };
    assert!(PeerStorage::new(new_region(), raft, apply).is_ok());
    let backwards = RaftApplyState { applied_index: 9, ..apply };
    assert_eq!(
        PeerStorage::new(new_region(), raft, backwards).err(),
        Some(Error::Other { reason: Reason::IndexOutOfRange })
    );
    let compacted_too_far = RaftApplyState {
        truncated_state: RaftTruncatedState { index: 8, term: 1 },
        ..apply
    };
    assert!(PeerStorage::new(new_region(), raft, compacted_too_far).is_err());

    let storage = PeerStorage::new(new_region(), raft, apply).unwrap();
    let mut state = apply;
    assert!(storage.compact(&mut state, 7, Some(3)).is_ok());
    assert_eq!(state.truncated_state, RaftTruncatedState { index: 6, term: 3 });
    assert_eq!(
        storage.compact(&mut state, 8, Some(3)),
        Err(Error::Other { reason: Reason::CompactIndexTooLarge })
    );
    assert_eq!(
        storage.compact(&mut state, 7, None),
        Err(Error::Other { reason: Reason::CompactTermUnknown })
    );
    assert_eq!(
        storage.compact(&mut state, 6, Some(3)),
        Err(Error::Other { reason: Reason::CompactIndexTooLarge })
    );
}

#[test]
fn test_region_util() {
    let mut region = new_region();
    assert_eq!(find_peer(&region, 2), Some(MetaPeer { id: 2, store_id: 2 }));
    assert_eq!(find_peer(&region, 9), None);
    assert!(check_key_in_region(b"a", &region).is_ok());
    assert!(check_key_in_region(b"lzzz", &region).is_ok());
    assert_eq!(
        check_key_in_region(b"m", &region),
        Err(Error::KeyNotInRegion { key: b"m".to_vec(), region_id: 1 })
    );
    assert!(check_key_in_region(b"", &region).is_err());
    assert_eq!(remove_peer(&mut region, 2), Some(MetaPeer { id: 2, store_id: 2 }));
    assert_eq!(region.peers, vec![MetaPeer { id: 1, store_id: 1 }, MetaPeer { id: 3, store_id: 3 }]);
    assert_eq!(remove_peer(&mut region, 2), None);
    region.end_key = vec![];
    assert!(check_key_in_region(b"zzzz", &region).is_ok());
    let old = RegionEpoch { conf_ver: 1, version: 2 };
    let new = RegionEpoch { conf_ver: 2, version: 2 };
    assert!(is_epoch_stale(&old, &new));
    assert!(!is_epoch_stale(&new, &old));
    assert!(!is_epoch_stale(&new, &new));
}

#[test]
fn test_uuid_from_request() {
    let mut cmd = put_cmd(0x0102030405060708090a0b0c0d0e0f10, b"b", b"v");
    assert_eq!(get_uuid_from_req(&cmd), Some(0x0102030405060708090a0b0c0d0e0f10));
    cmd.header.uuid = vec![0u8; 15];
    assert_eq!(get_uuid_from_req(&cmd), None);
    cmd.header.uuid = vec![];
    assert_eq!(get_uuid_from_req(&cmd), None);
    cmd.header.uuid = vec![0xff; 16];
    assert_eq!(get_uuid_from_req(&cmd), Some(u128::MAX));
    let fresh = fresh_uuid();
    assert_eq!(fresh.len(), 16);
    // a random uuid says so in its version
    assert_eq!(fresh[6] >> 4, 4);
    assert_ne!(fresh, fresh_uuid());
}

#[test]
fn test_check_epoch() {
    let mut peer = new_peer();
    peer.store.region.region_epoch = RegionEpoch { conf_ver: 2, version: 3 };
    let latest = RegionEpoch { conf_ver: 2, version: 3 };
    let with = |uuid: u128, epoch: Option<RegionEpoch>, body: CmdBody| RaftCmdRequest {
        header: header(uuid, epoch),
        body,
    };
    let put = || CmdBody::Requests(vec![Request::Put { cf: None, key: b"b".to_vec(), value: vec![] }]);
    // a data command must be current in the version only
    assert!(peer.check_epoch(&with(1, Some(RegionEpoch { conf_ver: 0, version: 3 }), put())).is_ok());
    assert!(peer.check_epoch(&with(1, Some(RegionEpoch { conf_ver: 0, version: 4 }), put())).is_ok());
    assert_eq!(
        peer.check_epoch(&with(1, Some(RegionEpoch { conf_ver: 2, version: 2 }), put())),
        Err(Error::StaleEpoch { latest })
    );
    assert_eq!(
        peer.check_epoch(&with(1, None, put())),
        Err(Error::Other { reason: Reason::MissingEpoch })
    );
    // a change of membership in the membership count only
    let change = || CmdBody::Admin(AdminRequest::ChangePeer {
        change_type: ConfChangeType::AddNode,
        peer: MetaPeer { id: 4, store_id: 4 },
    });
    assert!(peer.check_epoch(&with(1, Some(RegionEpoch { conf_ver: 2, version: 0 }), change())).is_ok());
    assert_eq!(
        peer.check_epoch(&with(1, Some(RegionEpoch { conf_ver: 1, version: 3 }), change())),
        Err(Error::StaleEpoch { latest })
    );
    // a split in the version
    let split = || CmdBody::Admin(AdminRequest::Split {
        split_key: Some(b"f".to_vec()),
        new_region_id: 2,
        new_peer_ids: vec![],
    });
    assert!(peer.check_epoch(&with(1, Some(RegionEpoch { conf_ver: 0, version: 3 }), split())).is_ok());
    assert!(peer.check_epoch(&with(1, Some(RegionEpoch { conf_ver: 2, version: 2 }), split())).is_err());
    // a transfer of leadership in both
    let transfer =
        || CmdBody::Admin(AdminRequest::TransferLeader { peer: MetaPeer { id: 2, store_id: 2 } });
    assert!(peer.check_epoch(&with(1, Some(latest), transfer())).is_ok());
    assert!(peer.check_epoch(&with(1, Some(RegionEpoch { conf_ver: 1, version: 3 }), transfer())).is_err());
    assert!(peer.check_epoch(&with(1, Some(RegionEpoch { conf_ver: 2, version: 2 }), transfer())).is_err());
    // a compaction in none
    let compact = || CmdBody::Admin(AdminRequest::CompactLog { compact_index: 1 });
    assert!(peer.check_epoch(&with(1, None, compact())).is_ok());
    assert!(peer.check_epoch(&with(1, None, CmdBody::Admin(AdminRequest::InvalidAdmin))).is_ok());
}

#[test]
fn test_exec_split() {
    let mut peer = new_peer();
    peer.size_diff_hint = 77;
    let mut cache: PeerCache = HashMap::new();
    let mut wb = WriteBatch::new();
    let (resp, result) = peer
        .exec_split(&mut cache, &mut wb, &Some(b"f".to_vec()), 2, &vec![11, 12, 13])
        .unwrap();
    let left = Region {
        end_key: b"f".to_vec(),
        region_epoch: RegionEpoch { conf_ver: 1, version: 2 },
        ..new_region()
    };
    let right = Region {
        id: 2,
        start_key: b"f".to_vec(),
        end_key: b"m".to_vec(),
        region_epoch: RegionEpoch { conf_ver: 1, version: 2 },
        peers: vec![
            MetaPeer { id: 11, store_id: 1 },
            MetaPeer { id: 12, store_id: 2 },
            MetaPeer { id: 13, store_id: 3 },
        ],
    };
    assert_eq!(
        resp,
        ResponseBody::Admin(AdminResponse::Split { left: left.clone(), right: right.clone() })
    );
    assert_eq!(result, Some(ExecResult::SplitRegion { left: left.clone(), right: right.clone() }));
    assert_eq!(peer.size_diff_hint, 0);
    assert_eq!(cache.get(&12), Some(&MetaPeer { id: 12, store_id: 2 }));
    assert_eq!(cache.len(), 3);
    assert_eq!(wb.len(), 4);
    assert_eq!(
        wb.ops[0],
        WriteOp::PutRegionState {
            key: region_state_key(1),
            state: RegionLocalState { state: PeerState::Normal, region: left },
        }
    );
    assert_eq!(
        wb.ops[1],
        WriteOp::PutRegionState {
            key: region_state_key(2),
            state: RegionLocalState { state: PeerState::Normal, region: right },
        }
    );
    assert_eq!(
        wb.ops[2],
        WriteOp::PutRaftState {
            key: raft_state_key(2),
            state: RaftLocalState {
                hard_state: HardState { term: 5, vote: 0, commit: 5 },
                last_index: 5,
            },
        }
    );
    assert_eq!(
        wb.ops[3],
        WriteOp::PutApplyState {
            key: apply_state_key(2),
            state: RaftApplyState {
                applied_index: 5,
                truncated_state: RaftTruncatedState { index: 5, term: 5 },
            },
        }
    );
    // the region of the peer changes only when the entry is applied
    assert_eq!(peer.region(), &new_region());
}

#[test]
fn test_exec_split_failures() {
    let mut cache: PeerCache = HashMap::new();
    let ids = vec![11, 12, 13];
    let cases: Vec<(Option<Vec<u8>>, Vec<u64>, Error)> = vec![
        (None, ids.clone(), Error::Other { reason: Reason::MissingSplitKey }),
        (Some(b"a".to_vec()), ids.clone(), Error::Other { reason: Reason::InvalidSplitKey }),
        (Some(b"".to_vec()), ids.clone(), Error::Other { reason: Reason::InvalidSplitKey }),
        (Some(b"0".to_vec()), ids.clone(), Error::Other { reason: Reason::InvalidSplitKey }),
        (Some(b"m".to_vec()), ids.clone(), Error::KeyNotInRegion { key: b"m".to_vec(), region_id: 1 }),
        (Some(b"z".to_vec()), ids.clone(), Error::KeyNotInRegion { key: b"z".to_vec(), region_id: 1 }),
        (Some(b"f".to_vec()), vec![11, 12], Error::Other { reason: Reason::InvalidPeerIdCount }),
        (Some(b"f".to_vec()), vec![11, 12, 13, 14], Error::Other {
            reason: Reason::InvalidPeerIdCount,
        }),
    ];
    for (key, ids, err) in cases {
        let mut peer = new_peer();
        let mut wb = WriteBatch::new();
        assert_eq!(peer.exec_split(&mut cache, &mut wb, &key, 2, &ids), Err(err));
        assert_eq!(wb.len(), 0);
        assert!(cache.is_empty());
    }
    let mut peer = new_peer();
    peer.store.region.region_epoch.version = u64::MAX;
    let mut wb = WriteBatch::new();
    assert_eq!(
        peer.exec_split(&mut cache, &mut wb, &Some(b"f".to_vec()), 2, &ids),
        Err(Error::Other { reason: Reason::EpochOverflow })
    );
}

#[test]
fn test_exec_change_peer() {
    let mut peer = new_peer();
    let mut cache: PeerCache = HashMap::new();
    let mut wb = WriteBatch::new();
    let added = MetaPeer { id: 4, store_id: 4 };
    let (resp, result) =
        peer.exec_change_peer(&mut cache, &mut wb, ConfChangeType::AddNode, &added).unwrap();
    let mut region = new_region();
    region.region_epoch.conf_ver = 2;
    region.peers.push(added);
    assert_eq!(resp, ResponseBody::Admin(AdminResponse::ChangePeer { region: region.clone() }));
    assert_eq!(
        result,
        Some(ExecResult::ChangePeer {
            change_type: ConfChangeType::AddNode,
            peer: added,
            region: region.clone(),
        })
    );
    assert_eq!(cache.get(&4), Some(&added));
    assert_eq!(
        wb.ops,
        vec![WriteOp::PutRegionState {
            key: region_state_key(1),
            state: RegionLocalState { state: PeerState::Normal, region },
        }]
    );

    // a store has one peer of a region at most
    let mut wb = WriteBatch::new();
    assert_eq!(
        peer.exec_change_peer(
            &mut cache,
            &mut wb,
            ConfChangeType::AddNode,
            &MetaPeer { id: 9, store_id: 2 }
        ),
        Err(Error::Other { reason: Reason::DuplicatedPeer })
    );
    assert_eq!(
        peer.exec_change_peer(
            &mut cache,
            &mut wb,
            ConfChangeType::RemoveNode,
            &MetaPeer { id: 9, store_id: 9 }
        ),
        Err(Error::Other { reason: Reason::MissingPeer })
    );
    assert_eq!(wb.len(), 0);
    assert!(!peer.pending_remove);

    // removing another peer
    cache.insert(2, MetaPeer { id: 2, store_id: 2 });
    let (_, result) = peer
        .exec_change_peer(
            &mut cache,
            &mut wb,
            ConfChangeType::RemoveNode,
            &MetaPeer { id: 2, store_id: 2 },
        )
        .unwrap();
    assert!(!peer.pending_remove);
    assert!(cache.get(&2).is_none());
    match result {
        Some(ExecResult::ChangePeer { region, .. }) => {
            assert_eq!(region.region_epoch.conf_ver, 2);
            assert_eq!(
                region.peers,
                vec![MetaPeer { id: 1, store_id: 1 }, MetaPeer { id: 3, store_id: 3 }]
            );
        }
        other => panic!("unexpected result {:?}", other),
    }
    // removing the peer itself
    peer.exec_change_peer(
        &mut cache,
        &mut wb,
        ConfChangeType::RemoveNode,
        &MetaPeer { id: 1, store_id: 1 },
    )
    .unwrap();
    assert!(peer.pending_remove);

    let mut peer = new_peer();
    peer.store.region.region_epoch.conf_ver = u64::MAX;
    assert_eq!(
        peer.exec_change_peer(&mut cache, &mut wb, ConfChangeType::AddNode, &added),
        Err(Error::Other { reason: Reason::EpochOverflow })
    );
}

#[test]
fn test_exec_data_commands() {
    let mut peer = new_peer();
    let mut snap = Snapshot::new();
    snap.put_cf(CfName::Default, data_key(b"b"), b"vb".to_vec());
    snap.put_cf(CfName::Default, data_key(b"d"), b"vd".to_vec());
    snap.put_cf(CfName::Lock, data_key(b"b"), b"lock".to_vec());
    let mut wb = WriteBatch::new();

    assert_eq!(
        peer.exec_request(&snap, &mut wb, &Request::Get { cf: None, key: b"b".to_vec() }),
        Ok(Response::Get { value: Some(b"vb".to_vec()) })
    );
    assert_eq!(
        peer.exec_request(
            &snap,
            &mut wb,
            &Request::Get { cf: Some(CfName::Lock), key: b"b".to_vec() }
        ),
        Ok(Response::Get { value: Some(b"lock".to_vec()) })
    );
    assert_eq!(
        peer.exec_request(&snap, &mut wb, &Request::Get { cf: None, key: b"c".to_vec() }),
        Ok(Response::Get { value: None })
    );
    assert_eq!(
        peer.exec_request(&snap, &mut wb, &Request::Seek { key: b"c".to_vec() }),
        Ok(Response::Seek { pair: Some((b"d".to_vec(), b"vd".to_vec())) })
    );
    assert_eq!(
        peer.exec_request(&snap, &mut wb, &Request::Seek { key: b"e".to_vec() }),
        Ok(Response::Seek { pair: None })
    );
    assert_eq!(
        peer.exec_request(&snap, &mut wb, &Request::Get { cf: None, key: b"x".to_vec() }),
        Err(Error::KeyNotInRegion { key: b"x".to_vec(), region_id: 1 })
    );
    assert_eq!(peer.exec_request(&snap, &mut wb, &Request::Snap), Ok(Response::Snap {
        region: new_region()
    }));
    assert_eq!(
        peer.exec_request(&snap, &mut wb, &Request::Invalid),
        Err(Error::Other { reason: Reason::InvalidCmdType })
    );
    assert_eq!(wb.len(), 0);

    // a put grows the size hint by the stored key and the value
    assert_eq!(
        peer.exec_request(
            &snap,
            &mut wb,
            &Request::Put { cf: None, key: b"key".to_vec(), value: b"value".to_vec() }
        ),
        Ok(Response::Put)
    );
    assert_eq!(peer.size_diff_hint, 4 + 5);
    assert_eq!(
        wb.ops,
        vec![WriteOp::Put { cf: CfName::Default, key: b"zkey".to_vec(), value: b"value".to_vec() }]
    );
    // a delete shrinks it by the stored key, down to zero
    assert_eq!(
        peer.exec_request(&snap, &mut wb, &Request::Delete { cf: None, key: b"key".to_vec() }),
        Ok(Response::Delete)
    );
    assert_eq!(peer.size_diff_hint, 5);
    peer.exec_request(&snap, &mut wb, &Request::Delete { cf: None, key: b"key12".to_vec() }).unwrap();
    assert_eq!(peer.size_diff_hint, 0);
    assert_eq!(wb.ops[2], WriteOp::Delete { cf: CfName::Default, key: b"zkey12".to_vec() });
    peer.size_diff_hint = u64::MAX - 3;
    peer.exec_request(
        &snap,
        &mut wb,
        &Request::Put { cf: None, key: b"k".to_vec(), value: b"vvvv".to_vec() },
    )
    .unwrap();
    assert_eq!(peer.size_diff_hint, u64::MAX);
    // the snapshot does not see the batch
    assert_eq!(
        peer.exec_request(&snap, &mut wb, &Request::Get { cf: None, key: b"key".to_vec() }),
        Ok(Response::Get { value: None })
    );
}

#[test]
fn test_write_command_keeps_writes_before_failure() {
    let mut peer = new_peer();
    let snap = Snapshot::new();
    let mut wb = WriteBatch::new();
    let requests = vec![
        Request::Put { cf: None, key: b"b".to_vec(), value: b"1".to_vec() },
        Request::Put { cf: None, key: b"z".to_vec(), value: b"2".to_vec() },
        Request::Put { cf: None, key: b"c".to_vec(), value: b"3".to_vec() },
    ];
    assert_eq!(
        peer.exec_write_cmd(&snap, &mut wb, &requests),
        Err(Error::KeyNotInRegion { key: b"z".to_vec(), region_id: 1 })
    );
    assert_eq!(wb.len(), 1);
    assert_eq!(peer.size_diff_hint, 3);
}

#[test]
fn test_apply_entries_in_order() {
    let mut peer = peer_with_log(9);
    let mut cache: PeerCache = HashMap::new();
    let mut snap = Snapshot::new();
    let entries = vec![
        entry(6, 6, EntryData::Empty),
        entry(7, 6, EntryData::Normal(put_cmd(1, b"b", b"vb"))),
        entry(
            8,
            6,
            EntryData::Normal(RaftCmdRequest {
                header: header(2, current()),
                body: CmdBody::Requests(vec![Request::Get { cf: None, key: b"b".to_vec() }]),
            }),
        ),
    ];
    let done = peer.handle_raft_commit_entries(&mut cache, &mut snap, &entries);
    assert_eq!(done.refused, None);
    assert!(done.exec_results.is_empty());
    assert!(done.notifications.is_empty());
    assert_eq!(done.conf_changes, Vec::<bool>::new());
    assert_eq!(peer.get_store().applied_index(), 8);
    assert_eq!(done.write_batches.len(), 3);
    let state = |applied_index| WriteOp::PutApplyState {
        key: apply_state_key(1),
        state: RaftApplyState {
            applied_index,
            truncated_state: RaftTruncatedState { index: 5, term: 5 },
        },
    };
    assert_eq!(done.write_batches[0].ops, vec![state(6)]);
    assert_eq!(
        done.write_batches[1].ops,
        vec![
            WriteOp::Put { cf: CfName::Default, key: b"zb".to_vec(), value: b"vb".to_vec() },
            state(7),
        ]
    );
    assert_eq!(done.write_batches[2].ops, vec![state(8)]);
    // each entry meets the engine as the entries before it left it
    assert_eq!(snap.get_value(b"zb"), Some(b"vb".to_vec()));

    // an entry at or before the applied index is refused, and so is one past the commit index
    let done = peer.handle_raft_commit_entries(
        &mut cache,
        &mut snap,
        &vec![entry(9, 6, EntryData::Empty), entry(9, 6, EntryData::Empty)],
    );
    assert_eq!(done.refused, Some(Error::Other { reason: Reason::AppliedIndexMovedBackwards }));
    assert_eq!(done.write_batches.len(), 1);
    assert_eq!(peer.get_store().applied_index(), 9);
    let done =
        peer.handle_raft_commit_entries(&mut cache, &mut snap, &vec![entry(10, 6, EntryData::Empty)]);
    assert_eq!(done.refused, Some(Error::Other { reason: Reason::IndexOutOfRange }));
    let done =
        peer.handle_raft_commit_entries(&mut cache, &mut snap, &vec![entry(0, 6, EntryData::Empty)]);
    assert_eq!(done.refused, Some(Error::Other { reason: Reason::AppliedIndexMovedBackwards }));
    assert_eq!(peer.get_store().applied_index(), 9);
    peer.store.raft_state.hard_state.commit = 20;
    peer.store.raft_state.last_index = 20;
    let mut no_uuid = put_cmd(1, b"b", b"v");
    no_uuid.header.uuid = vec![];
    for (data, reason) in vec![
        (EntryData::Malformed, Reason::MalformedEntry),
        (EntryData::Normal(no_uuid), Reason::MissingUuid),
    ] {
        let done = peer.handle_raft_commit_entries(&mut cache, &mut snap, &vec![entry(10, 6, data)]);
        assert_eq!(done.refused, Some(Error::Other { reason }));
    }
    assert_eq!(peer.get_store().applied_index(), 9);
}

#[test]
fn test_command_that_fails_still_moves_applied_index() {
    let mut peer = peer_with_log(9);
    let mut cache: PeerCache = HashMap::new();
    let snap = Snapshot::new();
    assert!(peer.on_proposed(PendingCmd { uuid: 1, term: 6, cb: 100 }, false, None, blank()).is_none());
    let applied = peer
        .handle_raft_entry(
            &mut cache,
            &snap,
            &entry(6, 6, EntryData::Normal(put_cmd(1, b"zzz", b"v"))),
        )
        .unwrap();
    assert_eq!(applied.exec_result, None);
    assert_eq!(peer.get_store().applied_index(), 6);
    assert_eq!(applied.write_batch.len(), 1);
    assert_eq!(applied.notifications.len(), 1);
    assert_eq!(applied.notifications[0].cb, 100);
    assert_eq!(
        applied.notifications[0].resp.header.error,
        Some(Error::KeyNotInRegion { key: b"zzz".to_vec(), region_id: 1 })
    );
    assert_eq!(applied.notifications[0].resp.header.uuid, Some(1));
    assert_eq!(applied.notifications[0].resp.header.current_term, RAFT_INIT_LOG_TERM);
    // a transfer of leadership must never reach the log
    let applied = peer
        .handle_raft_entry(
            &mut cache,
            &snap,
            &entry(
                7,
                6,
                EntryData::Normal(admin_cmd(
                    2,
                    AdminRequest::TransferLeader { peer: MetaPeer { id: 2, store_id: 2 } },
                )),
            ),
        )
        .unwrap();
    assert_eq!(applied.exec_result, None);
    assert_eq!(peer.get_store().applied_index(), 7);
}

fn blank() -> tikv::proto::raft_cmdpb::RaftCmdResponse {
    tikv::raftstore::store::cmd_resp::new_response()
}

#[test]
fn test_callbacks_are_called_once() {
    let mut peer = peer_with_log(20);
    peer.set_raft_status(RaftStatus {
        term: 7,
        leader_id: 2,
        role: StateRole::Follower,
        pending_conf: false,
        progress: vec![],
    });
    let mut cache: PeerCache = HashMap::new();
    let snap = Snapshot::new();
    for (uuid, term) in vec![(1u128, 6u64), (2, 6), (3, 6), (4, 7), (5, 8)] {
        assert!(peer
            .on_proposed(PendingCmd { uuid, term, cb: uuid as u32 }, false, None, blank())
            .is_none());
    }
    assert!(peer.pending_cmds.contains(&1));
    assert!(!peer.pending_cmds.contains(&9));

    // the entry of command 3 supersedes commands 1 and 2
    let applied = peer
        .handle_raft_entry(&mut cache, &snap, &entry(6, 6, EntryData::Normal(put_cmd(3, b"b", b"v"))))
        .unwrap();
    let called: Vec<u32> = applied.notifications.iter().map(|n| n.cb).collect();
    assert_eq!(called, vec![1, 2, 3]);
    for n in &applied.notifications[..2] {
        assert_eq!(
            n.resp.header.error,
            Some(Error::NotLeader { region_id: 1, leader: Some(MetaPeer { id: 2, store_id: 2 }) })
        );
        assert_eq!(n.resp.header.current_term, 7);
    }
    assert_eq!(applied.notifications[0].resp.header.uuid, Some(1));
    assert_eq!(applied.notifications[2].resp.header.error, None);
    assert_eq!(applied.notifications[2].resp.header.uuid, Some(3));
    assert_eq!(applied.notifications[2].resp.body, ResponseBody::Responses(vec![Response::Put]));
    // looking the leader up put it into the cache
    assert_eq!(cache.get(&2), Some(&MetaPeer { id: 2, store_id: 2 }));
    assert!(!peer.pending_cmds.contains(&1));
    assert!(!peer.pending_cmds.contains(&3));
    assert!(peer.pending_cmds.contains(&4));

    // an entry of a command that does not wait calls nobody, but supersedes what its term allows
    let applied = peer
        .handle_raft_entry(&mut cache, &snap, &entry(7, 7, EntryData::Normal(put_cmd(99, b"b", b"v"))))
        .unwrap();
    let called: Vec<u32> = applied.notifications.iter().map(|n| n.cb).collect();
    assert_eq!(called, vec![4]);
    assert!(peer.pending_cmds.contains(&5));
    assert_eq!(peer.pending_cmds.normals.len(), 1);

    // a change of membership waits in a place of its own
    let change = AdminRequest::ChangePeer {
        change_type: ConfChangeType::AddNode,
        peer: MetaPeer { id: 4, store_id: 4 },
    };
    assert!(peer.on_proposed(PendingCmd { uuid: 50, term: 7, cb: 50 }, true, None, blank()).is_none());
    let applied = peer
        .handle_raft_entry(
            &mut cache,
            &snap,
            &entry(8, 7, EntryData::ConfChange(admin_cmd(50, change))),
        )
        .unwrap();
    assert_eq!(applied.conf_change, Some(true));
    let called: Vec<u32> = applied.notifications.iter().map(|n| n.cb).collect();
    assert_eq!(called, vec![50]);
    assert!(peer.pending_cmds.conf_change.is_none());
    assert_eq!(peer.region().peers.len(), 4);
    assert_eq!(peer.region().region_epoch.conf_ver, 2);
    assert!(peer.pending_cmds.contains(&5));
    // a stale change is aborted for the consensus layer
    let stale = RaftCmdRequest {
        header: header(51, current()),
        body: CmdBody::Admin(AdminRequest::ChangePeer {
            change_type: ConfChangeType::AddNode,
            peer: MetaPeer { id: 5, store_id: 5 },
        }),
    };
    let applied =
        peer.handle_raft_entry(&mut cache, &snap, &entry(9, 7, EntryData::ConfChange(stale))).unwrap();
    assert_eq!(applied.conf_change, Some(false));
    assert_eq!(applied.exec_result, None);
    assert_eq!(peer.get_store().applied_index(), 9);
}

#[test]
fn test_removed_peer_answers_region_not_found() {
    let mut peer = peer_with_log(20);
    let mut cache: PeerCache = HashMap::new();
    let mut snap = Snapshot::new();
    assert!(peer.on_proposed(PendingCmd { uuid: 2, term: 6, cb: 2 }, false, None, blank()).is_none());
    let remove = AdminRequest::ChangePeer {
        change_type: ConfChangeType::RemoveNode,
        peer: MetaPeer { id: 1, store_id: 1 },
    };
    let entries = vec![
        entry(6, 6, EntryData::ConfChange(admin_cmd(1, remove))),
        entry(7, 6, EntryData::Normal(put_cmd(2, b"b", b"v"))),
    ];
    let done = peer.handle_raft_commit_entries(&mut cache, &mut snap, &entries);
    assert_eq!(done.refused, None);
    assert!(peer.pending_remove);
    assert_eq!(done.exec_results.len(), 1);
    assert_eq!(done.conf_changes, vec![true]);
    // the entry behind the removal has no effect
    assert_eq!(done.write_batches[1].len(), 0);
    assert_eq!(peer.get_store().applied_index(), 6);
    assert_eq!(snap.get_value(b"zb"), None);
    assert_eq!(done.notifications.len(), 1);
    assert_eq!(done.notifications[0].cb, 2);
    assert_eq!(done.notifications[0].resp.header.error, Some(Error::RegionNotFound { region_id: 1 }));
}

#[test]
fn test_compact_log() {
    let mut peer = peer_with_log(20);
    let mut cache: PeerCache = HashMap::new();
    let mut snap = Snapshot::new();
    let empties: Vec<Entry> = (6..=10).map(|i| entry(i, 6, EntryData::Empty)).collect();
    assert_eq!(peer.handle_raft_commit_entries(&mut cache, &mut snap, &empties).refused, None);
    // nothing to do where the log is already cut that far
    let noop = Entry {
        compact_term: Some(6),
        ..entry(11, 6, EntryData::Normal(admin_cmd(1, AdminRequest::CompactLog { compact_index: 6 })))
    };
    let applied = peer.handle_raft_entry(&mut cache, &snap, &noop).unwrap();
    assert_eq!(applied.exec_result, None);
    assert_eq!(peer.get_store().truncated_index(), 5);
    let compact = Entry {
        compact_term: Some(6),
        ..entry(12, 6, EntryData::Normal(admin_cmd(2, AdminRequest::CompactLog { compact_index: 9 })))
    };
    let applied = peer.handle_raft_entry(&mut cache, &snap, &compact).unwrap();
    assert_eq!(
        applied.exec_result,
        Some(ExecResult::CompactLog { state: RaftTruncatedState { index: 8, term: 6 } })
    );
    assert_eq!(peer.get_store().truncated_index(), 8);
    assert_eq!(peer.get_store().truncated_term(), 6);
    assert_eq!(peer.get_store().first_index(), 9);
    assert_eq!(peer.get_store().applied_index(), 12);
    // never past what was applied
    let too_far = Entry {
        compact_term: Some(6),
        ..entry(13, 6, EntryData::Normal(admin_cmd(3, AdminRequest::CompactLog { compact_index: 14 })))
    };
    let applied = peer.handle_raft_entry(&mut cache, &snap, &too_far).unwrap();
    assert_eq!(applied.exec_result, None);
    assert_eq!(peer.get_store().truncated_index(), 8);
    assert_eq!(peer.get_store().applied_index(), 13);
}

#[test]
fn test_transfer_leader_allowed() {
    let mut peer = peer_with_log(30);
    let target = MetaPeer { id: 2, store_id: 2 };
    peer.set_raft_status(leader(vec![
        progress(1, 30, ProgressState::Replicate),
        progress(2, 30 - TRANSFER_LEADER_ALLOW_LOG_LAG, ProgressState::Replicate),
        progress(3, 1, ProgressState::Probe),
    ]));
    assert!(peer.is_transfer_leader_allowed(&target));
    // one entry further behind is too far
    peer.set_raft_status(leader(vec![
        progress(1, 30, ProgressState::Replicate),
        progress(2, 30 - TRANSFER_LEADER_ALLOW_LOG_LAG - 1, ProgressState::Replicate),
    ]));
    assert!(!peer.is_transfer_leader_allowed(&target));
    // not while any peer is being sent a snapshot
    peer.set_raft_status(leader(vec![
        progress(1, 30, ProgressState::Replicate),
        progress(2, 30, ProgressState::Replicate),
        progress(3, 0, ProgressState::Snapshot),
    ]));
    assert!(!peer.is_transfer_leader_allowed(&target));
    // not to a peer that the leader has no record of
    peer.set_raft_status(leader(vec![progress(1, 30, ProgressState::Replicate)]));
    assert!(!peer.is_transfer_leader_allowed(&target));
    // a target ahead of the log is fine
    peer.set_raft_status(leader(vec![progress(2, 40, ProgressState::Probe)]));
    assert!(peer.is_transfer_leader_allowed(&target));
}

#[test]
fn test_propose() {
    let mut peer = peer_with_log(30);
    peer.set_raft_status(leader(vec![
        progress(1, 30, ProgressState::Replicate),
        progress(2, 25, ProgressState::Replicate),
    ]));
    let mut cache: PeerCache = HashMap::new();
    let cmd = |uuid: u128| PendingCmd { uuid, term: 6, cb: uuid as u32 };

    match peer.propose(&mut cache, cmd(1), &put_cmd(1, b"b", b"v"), blank()).unwrap() {
        ProposeOutcome::Normal { cmd, err_resp } => {
            assert!(peer.on_proposed(cmd, false, None, err_resp).is_none());
        }
        other => panic!("unexpected outcome {:?}", other),
    }
    assert!(peer.pending_cmds.contains(&1));
    // the same uuid again
    match peer.propose(&mut cache, cmd(1), &put_cmd(1, b"b", b"v"), blank()).unwrap() {
        ProposeOutcome::Respond { notification } => {
            assert_eq!(notification.cb, 1);
            assert_eq!(
                notification.resp.header.error,
                Some(Error::Other { reason: Reason::DuplicatedUuid })
            );
        }
        other => panic!("unexpected outcome {:?}", other),
    }
    // a stale command
    let mut stale = put_cmd(2, b"b", b"v");
    stale.header.region_epoch = Some(RegionEpoch { conf_ver: 1, version: 0 });
    match peer.propose(&mut cache, cmd(2), &stale, blank()).unwrap() {
        ProposeOutcome::Respond { notification } => {
            assert_eq!(
                notification.resp.header.error,
                Some(Error::StaleEpoch { latest: RegionEpoch { conf_ver: 1, version: 1 } })
            );
        }
        other => panic!("unexpected outcome {:?}", other),
    }
    // an equal epoch is accepted
    // a proposal that the consensus layer refuses is answered with its error
    match peer.propose(&mut cache, cmd(3), &put_cmd(3, b"b", b"v"), blank()).unwrap() {
        ProposeOutcome::Normal { cmd, err_resp } => {
            let n = peer
                .on_proposed(cmd, false, Some(Error::Other { reason: Reason::ProposalDropped }), err_resp)
                .unwrap();
            assert_eq!(n.cb, 3);
            assert_eq!(n.resp.header.error, Some(Error::Other { reason: Reason::ProposalDropped }));
        }
        other => panic!("unexpected outcome {:?}", other),
    }
    assert!(!peer.pending_cmds.contains(&3));

    // a transfer of leadership is answered at once
    let transfer = admin_cmd(4, AdminRequest::TransferLeader { peer: MetaPeer { id: 2, store_id: 2 } });
    match peer.propose(&mut cache, cmd(4), &transfer, blank()).unwrap() {
        ProposeOutcome::TransferLeader { transferee, notification } => {
            assert_eq!(transferee, Some(2));
            assert_eq!(notification.resp.header.error, None);
            assert_eq!(notification.resp.body, ResponseBody::Admin(AdminResponse::TransferLeader));
        }
        other => panic!("unexpected outcome {:?}", other),
    }
    let transfer = admin_cmd(5, AdminRequest::TransferLeader { peer: MetaPeer { id: 3, store_id: 3 } });
    match peer.propose(&mut cache, cmd(5), &transfer, blank()).unwrap() {
        ProposeOutcome::TransferLeader { transferee, .. } => assert_eq!(transferee, None),
        other => panic!("unexpected outcome {:?}", other),
    }
    assert!(!peer.pending_cmds.contains(&4));

    // one change of membership at a time
    let change = |uuid: u128| {
        admin_cmd(uuid, AdminRequest::ChangePeer {
            change_type: ConfChangeType::AddNode,
            peer: MetaPeer { id: 4, store_id: 4 },
        })
    };
    match peer.propose(&mut cache, cmd(6), &change(6), blank()).unwrap() {
        ProposeOutcome::ConfChange { change_type, node_id, cmd, err_resp, stale } => {
            assert_eq!(change_type, ConfChangeType::AddNode);
            assert_eq!(node_id, 4);
            assert!(stale.is_none());
            assert!(peer.on_proposed(cmd, true, None, err_resp).is_none());
        }
        other => panic!("unexpected outcome {:?}", other),
    }
    assert!(peer.pending_cmds.contains(&6));
    // a change that still waits from before is told that leadership may have changed
    match peer.propose(&mut cache, cmd(7), &change(7), blank()).unwrap() {
        ProposeOutcome::ConfChange { stale, .. } => {
            let stale = stale.unwrap();
            assert_eq!(stale.cb, 6);
            assert_eq!(
                stale.resp.header.error,
                Some(Error::NotLeader { region_id: 1, leader: Some(MetaPeer { id: 1, store_id: 1 }) })
            );
        }
        other => panic!("unexpected outcome {:?}", other),
    }
    assert!(!peer.pending_cmds.contains(&6));
    peer.raft_group.pending_conf = true;
    assert_eq!(
        peer.propose(&mut cache, cmd(8), &change(8), blank()).err(),
        Some(Error::Other { reason: Reason::PendingConfChange })
    );
}

#[test]
fn test_pending_cmd_queue() {
    let mut queue: PendingCmdQueue<&str> = PendingCmdQueue::new();
    queue.append_normal(PendingCmd { uuid: 1, term: 2, cb: "a" });
    queue.append_normal(PendingCmd { uuid: 2, term: 3, cb: "b" });
    queue.set_conf_change(PendingCmd { uuid: 3, term: 3, cb: "c" });
    assert!(queue.contains(&1) && queue.contains(&2) && queue.contains(&3));
    assert!(queue.pop_normal(1).is_none());
    assert_eq!(queue.normals.len(), 2);
    let head = queue.pop_normal(2).unwrap();
    assert_eq!((head.uuid, head.term, head.cb), (1, 2, "a"));
    assert!(!queue.contains(&1));
    assert!(queue.pop_normal(2).is_none());
    assert_eq!(queue.take_conf_change().unwrap().cb, "c");
    assert!(queue.take_conf_change().is_none());
    assert!(!queue.contains(&3));
    assert_eq!(queue.pop_normal(100).unwrap().cb, "b");
    assert!(queue.pop_normal(100).is_none());
}

#[test]
fn test_send_raft_message() {
    let peer = new_peer();
    let mut cache: PeerCache = HashMap::new();
    cache.insert(9, MetaPeer { id: 9, store_id: 9 });
    let msg = |from, to, msg_type| Message {
        msg_type,
        from,
        to,
        snapshot_region: None,
        payload: b"payload".to_vec(),
    };
    let sent = peer.send_raft_message(&mut cache, &msg(1, 9, MessageType::MsgOther)).unwrap();
    assert_eq!(sent.region_id, 1);
    assert_eq!(sent.from_peer, MetaPeer { id: 1, store_id: 1 });
    assert_eq!(sent.to_peer, MetaPeer { id: 9, store_id: 9 });
    assert_eq!(sent.region_epoch, Some(RegionEpoch { conf_ver: 1, version: 1 }));
    assert!(!sent.is_tombstone);
    assert_eq!(sent.message, Some(msg(1, 9, MessageType::MsgOther)));
    assert_eq!(cache.get(&1), Some(&MetaPeer { id: 1, store_id: 1 }));
    assert_eq!(
        peer.send_raft_message(&mut cache, &msg(1, 8, MessageType::MsgOther)),
        Err(Error::Other { reason: Reason::UnknownPeer })
    );
    assert_eq!(
        peer.send_raft_message(&mut cache, &msg(8, 1, MessageType::MsgOther)),
        Err(Error::Other { reason: Reason::UnknownPeer })
    );
    assert_eq!(send_failure_reports(&sent), vec![RaftReport::Unreachable { to_peer_id: 9 }]);
    let snapshot = peer.send_raft_message(&mut cache, &msg(1, 2, MessageType::MsgSnapshot)).unwrap();
    assert_eq!(
        send_failure_reports(&snapshot),
        vec![
            RaftReport::Unreachable { to_peer_id: 2 },
            RaftReport::Snapshot { to_peer_id: 2, status: SnapshotStatus::Failure },
        ]
    );
}

fn ready() -> Ready {
    Ready { hs: None, entries: vec![], snapshot: None, committed_entries: vec![], messages: vec![] }
}

#[test]
fn test_handle_raft_ready() {
    let mut peer = new_peer();
    let mut cache: PeerCache = HashMap::new();
    let mut snap = Snapshot::new();
    let rd = Ready {
        hs: Some(HardState { term: 6, vote: 1, commit: 7 }),
        entries: vec![
            LogEntry { index: 6, term: 6, data: b"e6".to_vec() },
            LogEntry { index: 7, term: 6, data: b"e7".to_vec() },
            LogEntry { index: 8, term: 6, data: b"e8".to_vec() },
        ],
        committed_entries: vec![
            entry(6, 6, EntryData::Empty),
            entry(7, 6, EntryData::Normal(put_cmd(1, b"b", b"v"))),
        ],
        messages: vec![Message {
            msg_type: MessageType::MsgOther,
            from: 1,
            to: 2,
            snapshot_region: None,
            payload: vec![],
        }],
        ..ready()
    };
    let out = peer.handle_raft_ready(&mut cache, &mut snap, &rd).unwrap();
    // a follower persists first, then sends
    assert!(!out.send_before_persist);
    assert!(out.keep_hard_state);
    assert_eq!(out.messages.len(), 1);
    assert_eq!(out.messages[0].to_peer, MetaPeer { id: 2, store_id: 2 });
    assert_eq!(out.persist.len(), 4);
    assert_eq!(
        out.persist.ops[0],
        WriteOp::Put {
            cf: CfName::Default,
            key: tikv::raftstore::store::keys::raft_log_key(1, 6),
            value: b"e6".to_vec(),
        }
    );
    assert_eq!(
        out.persist.ops[3],
        WriteOp::PutRaftState {
            key: raft_state_key(1),
            state: RaftLocalState { hard_state: HardState { term: 6, vote: 1, commit: 7 }, last_index: 8 },
        }
    );
    assert_eq!(out.refused, None);
    assert_eq!(out.write_batches.len(), 2);
    assert!(out.result.exec_results.is_empty());
    assert!(out.result.apply_snap_result.is_none());
    let store = peer.get_store();
    assert_eq!(
        (store.truncated_index(), store.applied_index(), store.commit_index(), store.last_index()),
        (5, 7, 7, 8)
    );

    // a leader sends before it persists
    peer.set_raft_status(leader(vec![]));
    let out = peer.handle_raft_ready(&mut cache, &mut snap, &ready()).unwrap();
    assert!(out.send_before_persist);
    assert_eq!(out.persist.len(), 0);

    // positions out of order are refused and change nothing
    let bad = Ready { hs: Some(HardState { term: 6, vote: 1, commit: 99 }), ..ready() };
    assert_eq!(
        peer.handle_raft_ready(&mut cache, &mut snap, &bad).err(),
        Some(Error::Other { reason: Reason::IndexOutOfRange })
    );
    assert_eq!(peer.get_store().commit_index(), 7);
    // a message between unknown peers is refused
    let unknown = Ready {
        messages: vec![Message {
            msg_type: MessageType::MsgOther,
            from: 1,
            to: 42,
            snapshot_region: None,
            payload: vec![],
        }],
        ..ready()
    };
    assert_eq!(
        peer.handle_raft_ready(&mut cache, &mut snap, &unknown).err(),
        Some(Error::Other { reason: Reason::UnknownPeer })
    );
}

#[test]
fn test_handle_raft_ready_with_snapshot() {
    let (mut peer, _): (Peer<u32>, bool) = Peer::replicate(1, 1, 1).unwrap();
    let mut cache: PeerCache = HashMap::new();
    let mut snap = Snapshot::new();
    let rd = Ready {
        hs: Some(HardState { term: 6, vote: 0, commit: 12 }),
        snapshot: Some(SnapshotMeta { index: 12, term: 6, region: new_region() }),
        ..ready()
    };
    let out = peer.handle_raft_ready(&mut cache, &mut snap, &rd).unwrap();
    let change = out.result.apply_snap_result.unwrap();
    assert_eq!(change.prev_region, Region::new(1));
    assert_eq!(change.region, new_region());
    assert!(peer.is_applying_snap());
    assert!(peer.is_initialized());
    assert_eq!(peer.region(), &new_region());
    let store = peer.get_store();
    assert_eq!(
        (store.truncated_index(), store.applied_index(), store.commit_index(), store.last_index()),
        (12, 12, 12, 12)
    );
    assert_eq!(
        out.persist.ops[0],
        WriteOp::PutRegionState {
            key: region_state_key(1),
            state: RegionLocalState { state: PeerState::Applying, region: new_region() },
        }
    );

    // while the snapshot is applied, committed entries and hard state wait
    let rd = Ready {
        hs: Some(HardState { term: 6, vote: 0, commit: 13 }),
        entries: vec![LogEntry { index: 13, term: 6, data: vec![] }],
        committed_entries: vec![entry(13, 6, EntryData::Empty)],
        ..ready()
    };
    let out = peer.handle_raft_ready(&mut cache, &mut snap, &rd).unwrap();
    assert!(!out.keep_hard_state);
    assert!(out.write_batches.is_empty());
    let store = peer.get_store();
    assert_eq!((store.applied_index(), store.commit_index(), store.last_index()), (12, 12, 13));
    assert_eq!(peer.get_store().snap_state, SnapState::Applying);
}

#[test]
fn test_destroy() {
    let mut peer = peer_with_log(9);
    assert!(peer.on_proposed(PendingCmd { uuid: 1, term: 6, cb: 1 }, false, None, blank()).is_none());
    assert!(peer.on_proposed(PendingCmd { uuid: 2, term: 6, cb: 2 }, false, None, blank()).is_none());
    assert!(peer.on_proposed(PendingCmd { uuid: 3, term: 6, cb: 3 }, true, None, blank()).is_none());
    let mut snap = Snapshot::new();
    for key in [&b"0"[..], b"a", b"b", b"lz", b"m", b"n"] {
        snap.put_cf(CfName::Default, data_key(key), b"v".to_vec());
    }
    snap.put_cf(CfName::Default, region_state_key(1), b"state".to_vec());
    let destroyed = peer.destroy(&snap);
    let called: Vec<u32> = destroyed.notifications.iter().map(|n| n.cb).collect();
    assert_eq!(called, vec![1, 2, 3]);
    for n in &destroyed.notifications {
        assert_eq!(n.resp.header.error, Some(Error::RegionNotFound { region_id: 1 }));
        assert_eq!(n.resp.header.uuid, Some(n.cb as u128));
    }
    assert!(!peer.pending_cmds.contains(&1));
    assert_eq!(
        destroyed.write_batch.ops,
        vec![
            WriteOp::Delete { cf: CfName::Default, key: b"za".to_vec() },
            WriteOp::Delete { cf: CfName::Default, key: b"zb".to_vec() },
            WriteOp::Delete { cf: CfName::Default, key: b"zlz".to_vec() },
            WriteOp::PutRegionState {
                key: region_state_key(1),
                state: RegionLocalState { state: PeerState::Tombstone, region: new_region() },
            },
        ]
    );
}
