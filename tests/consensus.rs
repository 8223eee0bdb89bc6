use election::config::{Configuration, Server, NONE_SERVER_ID};
use election::consensus::{
    AppendEntriesRequest, Consensus, InstallSnapshotRequest, Metadata, Outbound, SnapshotMetadata, State,
    VoteRequest,
};
use election::error::ConsensusError;
use election::log::{Entry, EntryType};
use election::peer::Peer;

fn addr(id: u64) -> String {
    format!("[::1]:{}", 9000 + id)
}

fn fresh(id: u64, ids: &[u64]) -> Consensus {
    let peers = ids.iter().filter(|&&p| p != id).map(|&p| Peer::new(p, addr(p))).collect();
    Consensus::new(
        id,
        addr(id),
        peers,
        Metadata { current_term: 0, voted_for: NONE_SERVER_ID, commit_index: 0 },
        SnapshotMetadata { last_included_index: 0, last_included_term: 0 },
        None,
        vec![],
    )
    .unwrap()
}

fn cluster(n: u64) -> Vec<Consensus> {
    let ids: Vec<u64> = (1..=n).collect();
    ids.iter().map(|&i| fresh(i, &ids)).collect()
}

/// Runs an election of `cand` with votes asked of `voters` only.
fn elect(servers: &mut Vec<Consensus>, cand: u64, voters: &[u64]) {
    let req = servers[(cand - 1) as usize].start_election().unwrap();
    for &v in voters {
        let resp = servers[(v - 1) as usize].handle_vote_request(req);
        servers[(cand - 1) as usize].handle_vote_response(v, resp);
    }
}

/// Sends the leader's messages to the reachable peers and hands back their replies.
fn round(servers: &mut Vec<Consensus>, leader: u64, heartbeat: bool, reachable: &[u64]) {
    let out = servers[(leader - 1) as usize].append_entries(heartbeat);
    for o in out {
        if let Outbound::Append { to, request } = o {
            if reachable.contains(&to) {
                let resp = servers[(to - 1) as usize].handle_append_entries(request);
                servers[(leader - 1) as usize].handle_append_response(to, resp);
            }
        }
    }
}

fn entry_at(c: &Consensus, index: u64) -> Entry {
    c.log.entry_at(index).unwrap()
}

#[test]
fn three_servers_replicate_one_entry() {
    let mut s = cluster(3);
    elect(&mut s, 1, &[2, 3]);
    assert_eq!(s[0].state, State::Leader);
    assert_eq!(s[0].current_term, 1);
    assert_eq!(s[0].replicate(EntryType::Normal, b"x".to_vec()), Ok(()));
    round(&mut s, 1, false, &[2, 3]);
    for c in &s {
        let e = entry_at(c, 1);
        assert_eq!((e.index, e.term, e.data.clone()), (1, 1, b"x".to_vec()));
        assert_eq!(c.log.last_index(), 1);
    }
    assert_eq!(s[0].commit_index, 1);
    round(&mut s, 1, true, &[2, 3]);
    assert_eq!(s[1].commit_index, 1);
    assert_eq!(s[2].commit_index, 1);
    let applied = s[1].apply_next().unwrap();
    assert_eq!(applied.data, b"x".to_vec());
    assert_eq!(s[1].last_applied, 1);
    assert!(s[1].apply_next().is_none());
}

#[test]
fn partitioned_leader_steps_down_without_committing() {
    let mut s = cluster(3);
    elect(&mut s, 1, &[2, 3]);
    s[0].replicate(EntryType::Normal, b"x".to_vec()).unwrap();
    round(&mut s, 1, false, &[2, 3]);
    assert_eq!(s[0].commit_index, 1);
    // The leader is cut off: its entry reaches nobody.
    s[0].replicate(EntryType::Normal, b"y".to_vec()).unwrap();
    round(&mut s, 1, false, &[]);
    assert_eq!(s[0].commit_index, 1);
    // A majority-side follower times out and wins term 2.
    elect(&mut s, 2, &[3]);
    assert_eq!(s[1].state, State::Leader);
    assert_eq!(s[1].current_term, 2);
    // The old leader hears of term 2 and steps down.
    round(&mut s, 2, true, &[1, 3]);
    assert_eq!(s[0].state, State::Follower);
    assert_eq!(s[0].current_term, 2);
    assert_eq!(s[0].leader_id, 2);
    assert_eq!(s[0].commit_index, 1);
    // The new leader's entry replaces the uncommitted one.
    s[1].replicate(EntryType::Normal, b"z".to_vec()).unwrap();
    round(&mut s, 2, false, &[1, 3]);
    let e = entry_at(&s[0], 2);
    assert_eq!((e.term, e.data), (2, b"z".to_vec()));
    assert_eq!(s[1].commit_index, 2);
    // A second leader in term 2 is impossible: both voters already voted.
    let req = VoteRequest { term: 2, candidate_id: 1, last_log_index: 9, last_log_term: 9 };
    assert!(!s[2].handle_vote_request(req).vote_granted);
}

#[test]
fn vote_once_per_term_across_restart() {
    let mut c = fresh(3, &[1, 2, 3]);
    let r1 = VoteRequest { term: 4, candidate_id: 1, last_log_index: 0, last_log_term: 0 };
    assert!(c.handle_vote_request(r1).vote_granted);
    let m = c.metadata();
    assert_eq!(m, Metadata { current_term: 4, voted_for: 1, commit_index: 0 });
    let peers = vec![Peer::new(1, addr(1)), Peer::new(2, addr(2))];
    let mut restarted =
        Consensus::new(3, addr(3), peers, m, SnapshotMetadata { last_included_index: 0, last_included_term: 0 }, None, vec![])
            .unwrap();
    let r2 = VoteRequest { term: 4, candidate_id: 2, last_log_index: 5, last_log_term: 4 };
    let resp = restarted.handle_vote_request(r2);
    assert!(!resp.vote_granted);
    assert_eq!(resp.term, 4);
    // The same candidate may ask again.
    assert!(restarted.handle_vote_request(r1).vote_granted);
    // A newer term frees the vote.
    let r3 = VoteRequest { term: 5, candidate_id: 2, last_log_index: 0, last_log_term: 0 };
    assert!(restarted.handle_vote_request(r3).vote_granted);
    assert_eq!(restarted.voted_for, 2);
}

#[test]
fn stale_vote_request_is_refused() {
    let mut c = fresh(1, &[1, 2]);
    c.handle_vote_request(VoteRequest { term: 3, candidate_id: 2, last_log_index: 0, last_log_term: 0 });
    let resp = c.handle_vote_request(VoteRequest { term: 2, candidate_id: 2, last_log_index: 0, last_log_term: 0 });
    assert!(!resp.vote_granted);
    assert_eq!(resp.term, 3);
}

#[test]
fn outdated_log_gets_no_vote() {
    let mut s = cluster(3);
    elect(&mut s, 1, &[2, 3]);
    s[0].replicate(EntryType::Normal, b"x".to_vec()).unwrap();
    round(&mut s, 1, false, &[2]);
    // Server 3 never got the entry: server 2 refuses it, server 1 too.
    let req = s[2].start_election().unwrap();
    assert_eq!(req.term, 2);
    assert!(!s[1].handle_vote_request(req).vote_granted);
    assert!(!s[0].handle_vote_request(req).vote_granted);
    assert_eq!(s[0].state, State::Follower);
}

#[test]
fn replicate_on_follower_names_the_leader() {
    let mut s = cluster(3);
    assert_eq!(
        s[1].replicate(EntryType::Normal, b"x".to_vec()),
        Err(ConsensusError::NotLeader { leader_id: NONE_SERVER_ID })
    );
    elect(&mut s, 1, &[2]);
    round(&mut s, 1, true, &[2]);
    assert_eq!(s[1].replicate(EntryType::Normal, b"x".to_vec()), Err(ConsensusError::NotLeader { leader_id: 1 }));
    assert_eq!(s[1].log.last_index(), 0);
}

fn server(id: u64) -> Server {
    Server { server_id: id, server_addr: addr(id) }
}

#[test]
fn configuration_entry_applies_on_append() {
    let mut s = cluster(3);
    elect(&mut s, 1, &[2, 3]);
    let joint = Configuration { old_servers: vec![server(1), server(2), server(3)], new_servers: vec![server(2), server(3), server(4)] };
    assert_eq!(s[0].replicate(EntryType::Configuration, joint.to_data()), Ok(()));
    assert_eq!(s[0].configuration, joint);
    assert!(s[0].peer_manager.contains(4));
    // A second joint configuration while one is pending is refused.
    let other = Configuration { old_servers: vec![server(1)], new_servers: vec![server(5)] };
    assert_eq!(s[0].replicate(EntryType::Configuration, other.to_data()), Err(ConsensusError::InvalidConfiguration));
    // Neither set populated: refused.
    assert_eq!(
        s[0].replicate(EntryType::Configuration, Configuration::new().to_data()),
        Err(ConsensusError::InvalidConfiguration)
    );
    // Bytes that are no configuration: refused.
    assert_eq!(s[0].replicate(EntryType::Configuration, vec![9]), Err(ConsensusError::InvalidConfiguration));
    assert_eq!(s[0].log.last_index(), 1);
    round(&mut s, 1, false, &[2, 3]);
    assert_eq!(s[1].configuration, joint);
    let cnew = joint.gen_new_configuration();
    assert_eq!(s[0].replicate(EntryType::Configuration, cnew.to_data()), Ok(()));
    assert_eq!(s[0].configuration, cnew);
}

#[test]
fn commit_waits_for_current_term_quorum() {
    let mut s = cluster(3);
    elect(&mut s, 1, &[2, 3]);
    s[0].replicate(EntryType::Normal, b"a".to_vec()).unwrap();
    assert_eq!(s[0].commit_index, 0);
    round(&mut s, 1, false, &[]);
    assert_eq!(s[0].commit_index, 0);
    round(&mut s, 1, false, &[3]);
    assert_eq!(s[0].commit_index, 1);
    assert!(s[0].commit_index <= s[0].log.last_index());
}

#[test]
fn follower_refuses_mismatched_prev() {
    let mut c = fresh(2, &[1, 2]);
    let req = AppendEntriesRequest {
        term: 1,
        leader_id: 1,
        prev_log_index: 3,
        prev_log_term: 1,
        entries: vec![],
        leader_commit: 3,
    };
    let resp = c.handle_append_entries(req);
    assert!(!resp.success);
    assert_eq!(c.commit_index, 0);
    assert_eq!(c.leader_id, 1);
    let stale = AppendEntriesRequest { term: 0, leader_id: 3, prev_log_index: 0, prev_log_term: 0, entries: vec![], leader_commit: 0 };
    let resp = c.handle_append_entries(stale);
    assert!(!resp.success);
    assert_eq!(resp.term, 1);
    assert_eq!(c.leader_id, 1);
}

#[test]
fn leader_backs_off_then_catches_follower_up() {
    let mut s = cluster(3);
    elect(&mut s, 1, &[2, 3]);
    for d in [b"a", b"b", b"c"] {
        s[0].replicate(EntryType::Normal, d.to_vec()).unwrap();
    }
    round(&mut s, 1, false, &[2]);
    assert_eq!(s[0].commit_index, 3);
    // A new leader's cursors start past the lagging follower's log.
    elect(&mut s, 2, &[1]);
    assert_eq!(s[1].state, State::Leader);
    assert_eq!(s[1].current_term, 2);
    for _ in 0..4 {
        round(&mut s, 2, false, &[3]);
    }
    assert_eq!(s[2].log.last_index(), 3);
    assert_eq!(entry_at(&s[2], 3).data, b"c".to_vec());
}

#[test]
fn snapshot_compacts_and_restart_reaches_same_applied() {
    let mut s = cluster(3);
    elect(&mut s, 1, &[2, 3]);
    for i in 0..7u8 {
        s[0].replicate(EntryType::Normal, vec![i]).unwrap();
    }
    round(&mut s, 1, false, &[2, 3]);
    assert_eq!(s[0].commit_index, 7);
    let leader = &mut s[0];
    for _ in 0..6 {
        leader.apply_next().unwrap();
    }
    assert!(leader.needs_snapshot());
    let snap = leader.take_snapshot();
    assert_eq!(snap, SnapshotMetadata { last_included_index: 6, last_included_term: 1 });
    assert_eq!(leader.log.start_index, snap.last_included_index + 1);
    assert_eq!(leader.log.last_index(), 7);
    assert!(!leader.needs_snapshot());
    assert_eq!(leader.apply_next().unwrap().data, vec![6]);
    let applied_before = leader.last_applied;
    // Restart from the persisted metadata, snapshot and retained log.
    let metadata = leader.metadata();
    let entries = leader.log.entries_from(leader.log.start_index);
    let peers = vec![Peer::new(2, addr(2)), Peer::new(3, addr(3))];
    let saved = leader.snapshot_configuration.duplicate();
    let mut back = Consensus::new(1, addr(1), peers, metadata, snap, Some(saved), entries).unwrap();
    assert_eq!(back.configuration, leader.configuration);
    assert_eq!(back.last_applied, 6);
    assert_eq!(back.commit_index, 7);
    assert_eq!(back.state, State::Follower);
    while back.apply_next().is_some() {}
    assert_eq!(back.last_applied, applied_before);
}

#[test]
fn lagging_follower_gets_snapshot() {
    let mut s = cluster(3);
    elect(&mut s, 1, &[2, 3]);
    for i in 0..7u8 {
        s[0].replicate(EntryType::Normal, vec![i]).unwrap();
    }
    round(&mut s, 1, false, &[2]);
    while s[0].apply_next().is_some() {}
    s[0].take_snapshot();
    let out = s[0].append_entries(false);
    let mut sent = false;
    for o in out {
        if let Outbound::InstallSnapshot { to, term, leader_id, snapshot } = o {
            assert_eq!(to, 3);
            let req = InstallSnapshotRequest {
                term,
                leader_id,
                last_included_index: snapshot.last_included_index,
                last_included_term: snapshot.last_included_term,
                configuration: s[0].snapshot_configuration.duplicate(),
                data: vec![],
            };
            let (resp, installed) = s[2].handle_install_snapshot(&req);
            assert!(installed);
            assert_eq!(resp.term, 1);
            sent = true;
        }
    }
    assert!(sent);
    assert_eq!(s[2].log.start_index, 8);
    assert_eq!(s[2].commit_index, 7);
    assert_eq!(s[2].last_applied, 7);
}

#[test]
fn restart_refuses_corrupt_state() {
    let bad = vec![Entry { index: 2, term: 1, entry_type: EntryType::Normal, data: vec![] }];
    let r = Consensus::new(
        1,
        addr(1),
        vec![],
        Metadata { current_term: 1, voted_for: 0, commit_index: 0 },
        SnapshotMetadata { last_included_index: 0, last_included_term: 0 },
        None,
        bad,
    );
    assert_eq!(r.err(), Some(ConsensusError::CorruptPersistedState));
    let r = Consensus::new(
        1,
        addr(1),
        vec![],
        Metadata { current_term: 1, voted_for: 0, commit_index: 5 },
        SnapshotMetadata { last_included_index: 0, last_included_term: 0 },
        None,
        vec![],
    );
    assert_eq!(r.err(), Some(ConsensusError::CorruptPersistedState));
}

#[test]
fn single_server_leads_alone() {
    let mut c = fresh(1, &[1]);
    let req = c.start_election().unwrap();
    assert_eq!(req.term, 1);
    assert_eq!(c.state, State::Leader);
    assert!(c.start_election().is_none());
    c.replicate(EntryType::Normal, b"q".to_vec()).unwrap();
    assert!(c.append_entries(false).is_empty());
}

#[test]
fn differing_committed_entry_is_refused() {
    let mut s = cluster(2);
    elect(&mut s, 1, &[2]);
    s[0].replicate(EntryType::Normal, b"a".to_vec()).unwrap();
    round(&mut s, 1, false, &[2]);
    round(&mut s, 1, true, &[2]);
    assert_eq!(s[1].commit_index, 1);
    let forged = AppendEntriesRequest {
        term: 1,
        leader_id: 1,
        prev_log_index: 0,
        prev_log_term: 0,
        entries: vec![Entry { index: 1, term: 1, entry_type: EntryType::Normal, data: b"b".to_vec() }],
        leader_commit: 1,
    };
    assert!(!s[1].handle_append_entries(forged).success);
    assert_eq!(entry_at(&s[1], 1).data, b"a".to_vec());
}

#[test]
fn restart_rebuilds_configuration_from_log() {
    let joint = Configuration { old_servers: vec![server(1), server(2)], new_servers: vec![server(2), server(3)] };
    let entries = vec![
        Entry { index: 1, term: 1, entry_type: EntryType::Configuration, data: joint.to_data() },
        Entry { index: 2, term: 1, entry_type: EntryType::Normal, data: vec![] },
    ];
    let c = Consensus::new(
        1,
        addr(1),
        vec![Peer::new(2, addr(2))],
        Metadata { current_term: 1, voted_for: 0, commit_index: 2 },
        SnapshotMetadata { last_included_index: 0, last_included_term: 0 },
        None,
        entries,
    )
    .unwrap();
    assert_eq!(c.configuration, joint);
    assert_eq!(c.peer_manager.peers[0].next_index, 3);
    let plain = fresh(1, &[1, 2]);
    assert_eq!(plain.configuration.new_servers, vec![server(1), server(2)]);
    assert!(plain.configuration.old_servers.is_empty());
}

#[test]
fn refused_append_steps_next_index_back() {
    let mut s = cluster(2);
    elect(&mut s, 1, &[2]);
    s[0].replicate(EntryType::Normal, b"a".to_vec()).unwrap();
    round(&mut s, 1, false, &[2]);
    assert_eq!((s[0].peer_manager.peers[0].match_index, s[0].peer_manager.peers[0].next_index), (1, 2));
    // A late refusal from the same term still moves the cursor back.
    let late = election::consensus::AppendEntriesResponse { term: 1, success: false, match_index: 0 };
    s[0].handle_append_response(2, late);
    assert_eq!((s[0].peer_manager.peers[0].match_index, s[0].peer_manager.peers[0].next_index), (1, 1));
    s[0].handle_append_response(2, late);
    assert_eq!(s[0].peer_manager.peers[0].next_index, 1);
}

#[test]
fn new_configuration_waits_for_joint_commit() {
    let mut s = cluster(3);
    elect(&mut s, 1, &[2, 3]);
    let joint = Configuration { old_servers: vec![server(1), server(2), server(3)], new_servers: vec![server(2), server(3), server(4)] };
    s[0].replicate(EntryType::Configuration, joint.to_data()).unwrap();
    let cnew = joint.gen_new_configuration();
    assert_eq!(s[0].replicate(EntryType::Configuration, cnew.to_data()), Err(ConsensusError::InvalidConfiguration));
    round(&mut s, 1, false, &[2, 3]);
    assert_eq!(s[0].commit_index, 1);
    assert_eq!(s[0].replicate(EntryType::Configuration, cnew.to_data()), Ok(()));
    assert_eq!(s[0].configuration_index, 2);
}

#[test]
fn snapshot_keeps_configuration_across_restart() {
    let mut s = cluster(3);
    elect(&mut s, 1, &[2, 3]);
    let joint = Configuration { old_servers: vec![server(1), server(2), server(3)], new_servers: vec![server(2), server(3), server(4)] };
    s[0].replicate(EntryType::Configuration, joint.to_data()).unwrap();
    for i in 0..6u8 {
        s[0].replicate(EntryType::Normal, vec![i]).unwrap();
    }
    round(&mut s, 1, false, &[2, 3]);
    while s[0].apply_next().is_some() {}
    let snap = s[0].take_snapshot();
    assert_eq!(s[0].snapshot_configuration, joint);
    let metadata = s[0].metadata();
    let peers = vec![Peer::new(2, addr(2)), Peer::new(3, addr(3))];
    let back = Consensus::new(1, addr(1), peers, metadata, snap, Some(s[0].snapshot_configuration.duplicate()), vec![]).unwrap();
    assert_eq!(back.configuration, joint);
}
