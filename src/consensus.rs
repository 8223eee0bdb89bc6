//! The consensus core: role, term and vote bookkeeping, replication and
//! commitment, driven by timer firings and inbound messages.
use crate::config::{
    has_id, is_joint, is_quorum_of, valid_configuration, Configuration, NONE_SERVER_ID,
    SNAPSHOT_LOG_LENGTH_THRESHOLD,
};
use crate::error::ConsensusError;
use crate::log::{Entry, EntryType, EntryView, Log};
use crate::peer::{ids_matching, PeerManager};
use vstd::prelude::*;

verus! {

#[derive(Debug, Clone, Copy, PartialEq, Eq, Structural)]
pub enum State {
    Follower,
    Candidate,
    Leader,
}

/// What survives a restart besides the log and the snapshot.
#[derive(Debug, Clone, Copy, PartialEq, Eq, Structural)]
pub struct Metadata {
    pub current_term: u64,
    /// The candidate voted for in `current_term`, or `NONE_SERVER_ID`.
    pub voted_for: u64,
    pub commit_index: u64,
}

/// Boundary of the last snapshot: the last index and term it covers.
#[derive(Debug, Clone, Copy, PartialEq, Eq, Structural)]
pub struct SnapshotMetadata {
    pub last_included_index: u64,
    pub last_included_term: u64,
}

#[derive(Debug, Clone, Copy, PartialEq, Eq, Structural)]
pub struct VoteRequest {
    pub term: u64,
    pub candidate_id: u64,
    pub last_log_index: u64,
    pub last_log_term: u64,
}

#[derive(Debug, Clone, Copy, PartialEq, Eq, Structural)]
pub struct VoteResponse {
    pub term: u64,
    pub vote_granted: bool,
}

#[derive(Debug)]
pub struct AppendEntriesRequest {
    pub term: u64,
    pub leader_id: u64,
    pub prev_log_index: u64,
    pub prev_log_term: u64,
    pub entries: Vec<Entry>,
    pub leader_commit: u64,
}

#[derive(Debug, Clone, Copy, PartialEq, Eq, Structural)]
pub struct AppendEntriesResponse {
    pub term: u64,
    pub success: bool,
    pub match_index: u64,
}

#[derive(Debug)]
pub struct InstallSnapshotRequest {
    pub term: u64,
    pub leader_id: u64,
    pub last_included_index: u64,
    pub last_included_term: u64,
    /// The configuration in effect at the snapshot boundary.
    pub configuration: Configuration,
    pub data: Vec<u8>,
}

#[derive(Debug, Clone, Copy, PartialEq, Eq, Structural)]
pub struct InstallSnapshotResponse {
    pub term: u64,
}

/// A message the leader sends to one peer.
#[derive(Debug)]
pub enum Outbound {
    Append { to: u64, request: AppendEntriesRequest },
    /// The peer needs entries that were compacted away; the snapshot with
    /// this boundary is to be sent instead.
    InstallSnapshot { to: u64, term: u64, leader_id: u64, snapshot: SnapshotMetadata },
}

/// Whether a log ending at (`last_term`, `last_index`) is at least as
/// up to date as one ending at (`my_term`, `my_index`).
pub open spec fn log_up_to_date(last_term: u64, last_index: u64, my_term: u64, my_index: u64) -> bool {
    last_term > my_term || (last_term == my_term && last_index >= my_index)
}

/// Whether a voter with persisted state `m` and log end (`my_term`,
/// `my_index`) grants `req`.
pub open spec fn grants_vote(m: Metadata, my_term: u64, my_index: u64, req: VoteRequest) -> bool {
    &&& req.term >= m.current_term
    &&& req.candidate_id != NONE_SERVER_ID
    &&& (req.term > m.current_term || m.voted_for == NONE_SERVER_ID || m.voted_for == req.candidate_id)
    &&& log_up_to_date(req.last_log_term, req.last_log_index, my_term, my_index)
}

/// The voter's term and vote once it has handled `req`.
pub open spec fn after_vote(m: Metadata, my_term: u64, my_index: u64, req: VoteRequest) -> (u64, u64) {
    if grants_vote(m, my_term, my_index, req) {
        (req.term, req.candidate_id)
    } else if req.term > m.current_term {
        (req.term, NONE_SERVER_ID)
    } else {
        (m.current_term, m.voted_for)
    }
}

/// A vote is granted at most once per term: a voter whose term and vote
/// were persisted after granting `r1`, and read back after a restart, grants
/// no request of the same term to another candidate, whatever its log.
pub proof fn lemma_vote_at_most_once(
    m: Metadata,
    my_term: u64,
    my_index: u64,
    r1: VoteRequest,
    m_after: Metadata,
    my_term2: u64,
    my_index2: u64,
    r2: VoteRequest,
)
    requires
        grants_vote(m, my_term, my_index, r1),
        (m_after.current_term, m_after.voted_for) == after_vote(m, my_term, my_index, r1),
        r2.term == r1.term,
        grants_vote(m_after, my_term2, my_index2, r2),
    ensures
        r2.candidate_id == r1.candidate_id,
{
}

fn same_entry(a: &Entry, b: &Entry) -> (r: bool)
    ensures
        r == (a@ == b@),
{
    if a.index != b.index || a.term != b.term || a.entry_type != b.entry_type || a.data.len() != b.data.len() {
        return false;
    }
    let mut i: usize = 0;
    while i < a.data.len()
        invariant
            i <= a.data@.len(),
            a.data@.len() == b.data@.len(),
            forall|j: int| 0 <= j < i ==> a.data@[j] == b.data@[j],
        decreases a.data@.len() - i,
    {
        if a.data[i] != b.data[i] {
            return false;
        }
        i = i + 1;
    }
    assert(a.data@ =~= b.data@);
    true
}

/// Position of the last configuration entry, if any.
fn latest_configuration(entries: &Vec<Entry>) -> (r: Option<usize>)
    ensures
        r is Some ==> latest_configuration_entry(entries@, r->Some_0 as int),
        r is Some <== exists|k: int| 0 <= k < entries@.len() && #[trigger] entries@[k].entry_type == EntryType::Configuration,
        r is None ==> forall|k: int| #[trigger] latest_configuration_entry(entries@, k) ==> false,
{
    let mut k: usize = entries.len();
    while k > 0
        invariant
            k <= entries@.len(),
            forall|j: int| k <= j < entries@.len() ==> #[trigger] entries@[j].entry_type == EntryType::Normal,
        decreases k,
    {
        if entries[k - 1].entry_type == EntryType::Configuration {
            return Some(k - 1);
        }
        k = k - 1;
    }
    proof {
        assert forall|j: int| #[trigger] latest_configuration_entry(entries@, j) implies false by {
            assert(entries@[j].entry_type == EntryType::Normal);
        }
    }
    None
}

/// The configuration of a fresh cluster: this server and its peers, all in
/// the new set.
pub open spec fn initial_configuration(id: u64, addr: Seq<char>, peers: Seq<crate::peer::Peer>) -> crate::config::ConfigurationView {
    crate::config::ConfigurationView {
        old: Seq::empty(),
        new: seq![(id, addr)] + peers.map_values(|p: crate::peer::Peer| (p.server_id, p.server_addr@)),
    }
}

/// `k` is the position of the last configuration entry of `entries`.
pub open spec fn latest_configuration_entry(entries: Seq<Entry>, k: int) -> bool {
    &&& 0 <= k < entries.len()
    &&& entries[k].entry_type == EntryType::Configuration
    &&& forall|j: int| k < j < entries.len() ==> #[trigger] entries[j].entry_type == EntryType::Normal
}

/// Pushing an element onto a sequence adds it to the sequence's set.
pub proof fn lemma_push_to_set(s: Seq<u64>, x: u64)
    ensures
        s.push(x).to_set() == s.to_set().insert(x),
{
    let t = s.push(x);
    assert forall|y: u64| t.to_set().contains(y) implies s.to_set().insert(x).contains(y) by {
        let k = choose|k: int| 0 <= k < t.len() && t[k] == y;
        if k < s.len() {
            assert(s[k] == y);
        }
    }
    assert forall|y: u64| s.to_set().insert(x).contains(y) implies t.to_set().contains(y) by {
        if y == x {
            assert(t[s.len() as int] == y);
        } else {
            let k = choose|k: int| 0 <= k < s.len() && s[k] == y;
            assert(t[k] == y);
        }
    }
    assert(t.to_set() =~= s.to_set().insert(x));
}

/// A candidate that gathered the votes of a quorum of a valid configuration
/// has a log at least as up to date as one member of any other quorum of it,
/// such as the quorum that holds a committed entry: `ends` gives each voter's
/// (last log term, last log index) and `metas` its persisted state when it
/// voted.
pub proof fn lemma_elected_log_covers_a_holder(
    c: crate::config::ConfigurationView,
    holders: Set<u64>,
    voters: Set<u64>,
    ends: Map<u64, (u64, u64)>,
    metas: Map<u64, Metadata>,
    req: VoteRequest,
) -> (v: u64)
    requires
        valid_configuration(c),
        is_quorum_of(c, holders),
        is_quorum_of(c, voters),
        forall|x: u64| #[trigger] voters.contains(x) ==> ends.contains_key(x) && metas.contains_key(x) && grants_vote(metas[x], ends[x].0, ends[x].1, req),
    ensures
        holders.contains(v),
        voters.contains(v),
        log_up_to_date(req.last_log_term, req.last_log_index, ends[v].0, ends[v].1),
{
    let v = crate::config::lemma_quorums_intersect(c, holders, voters);
    assert(voters.contains(v));
    v
}

/// One server's consensus state.
#[derive(Debug)]
pub struct Consensus {
    pub server_id: u64,
    pub server_addr: String,
    pub current_term: u64,
    pub voted_for: u64,
    pub state: State,
    pub commit_index: u64,
    pub last_applied: u64,
    pub leader_id: u64,
    pub peer_manager: PeerManager,
    pub log: Log,
    pub snapshot: SnapshotMetadata,
    pub configuration: Configuration,
    /// Log index of the entry that set the configuration (the snapshot
    /// boundary, or 0, when no retained entry did).
    pub configuration_index: u64,
    /// The configuration in effect at the snapshot boundary, which a restart
    /// falls back on when no retained entry sets one.
    pub snapshot_configuration: Configuration,
    /// Servers that granted their vote to this candidate in the current term.
    pub votes_granted: Vec<u64>,
}

impl Consensus {
    /// Rebuilds a server from what it persisted: its term, vote and commit
    /// index, its snapshot boundary and the log entries above it. It starts
    /// as a follower with everything up to the snapshot applied; the
    /// configuration is the latest configuration entry of the log, else the
    /// snapshot's configuration, else this server and `peers` in the new set. The
    /// state is refused as corrupt when the entries are not numbered densely
    /// from the snapshot boundary, do not fit, the commit index lies beyond
    /// them, or a configuration entry does not decode.
    pub fn new(
        server_id: u64,
        server_addr: String,
        peers: Vec<crate::peer::Peer>,
        metadata: Metadata,
        snapshot: SnapshotMetadata,
        snapshot_configuration: Option<Configuration>,
        entries: Vec<Entry>,
    ) -> (r: Result<Consensus, ConsensusError>)
        ensures
            r is Err ==> r == Err::<Consensus, ConsensusError>(ConsensusError::CorruptPersistedState),
            r is Ok ==> {
                let c = r->Ok_0;
                &&& c.wf()
                &&& c.server_id == server_id
                &&& c.server_addr@ == server_addr@
                &&& c.state == State::Follower
                &&& c.current_term == metadata.current_term
                &&& c.voted_for == metadata.voted_for
                &&& c.commit_index == if metadata.commit_index > snapshot.last_included_index { metadata.commit_index } else { snapshot.last_included_index }
                &&& c.last_applied == snapshot.last_included_index
                &&& c.snapshot == snapshot
                &&& c.leader_id == NONE_SERVER_ID
                &&& c.log.view_entries() == crate::log::entries_view(entries@)
                &&& c.peer_manager.peers@.len() == peers@.len()
                &&& forall|i: int| 0 <= i < peers@.len() ==> {
                    let p = #[trigger] c.peer_manager.peers@[i];
                    &&& p.server_id == peers@[i].server_id
                    &&& p.server_addr@ == peers@[i].server_addr@
                    &&& p.next_index == snapshot.last_included_index + entries@.len() + 1
                    &&& p.match_index == 0
                }
                &&& (forall|k: int| 0 <= k < entries@.len() ==> #[trigger] entries@[k].entry_type == EntryType::Normal) ==>
                    c.configuration@ == match snapshot_configuration {
                        Some(sc) => sc@,
                        None => initial_configuration(server_id, server_addr@, peers@),
                    }
                &&& c.snapshot_configuration@ == match snapshot_configuration {
                    Some(sc) => sc@,
                    None => initial_configuration(server_id, server_addr@, peers@),
                }
                &&& forall|k: int| #[trigger] latest_configuration_entry(entries@, k) ==> forall|cv: crate::config::ConfigurationView|
                    entries@[k].data@ == #[trigger] crate::config::bincode_server_lists(cv.old, cv.new) ==> c.configuration@ == cv
            },
            r is Ok <== {
                &&& snapshot.last_included_index + 2 + entries@.len() < u64::MAX
                &&& crate::log::dense_from(crate::log::entries_view(entries@), snapshot.last_included_index + 1)
                &&& metadata.commit_index <= snapshot.last_included_index + entries@.len()
                &&& forall|k: int| 0 <= k < entries@.len() && #[trigger] entries@[k].entry_type == EntryType::Configuration
                    ==> exists|o: Seq<(u64, Seq<char>)>, n: Seq<(u64, Seq<char>)>| entries@[k].data@ == #[trigger] crate::config::bincode_server_lists(o, n)
            },
            r is Ok ==> {
                &&& snapshot.last_included_index + 2 + entries@.len() < u64::MAX
                &&& crate::log::dense_from(crate::log::entries_view(entries@), snapshot.last_included_index + 1)
                &&& metadata.commit_index <= snapshot.last_included_index + entries@.len()
            },
    {
        let lii = snapshot.last_included_index;
        if lii >= u64::MAX - 2 || entries.len() as u64 >= u64::MAX - 2 - lii {
            return Err(ConsensusError::CorruptPersistedState);
        }
        let mut log = Log::new(lii + 1);
        let mut latest: Option<usize> = None;
        let mut k: usize = 0;
        let ghost ev = crate::log::entries_view(entries@);
        while k < entries.len()
            invariant
                log.wf(),
                k <= entries@.len(),
                ev == crate::log::entries_view(entries@),
                log.start_index == lii + 1,
                lii == snapshot.last_included_index,
                lii + 2 + entries@.len() < u64::MAX,
                log.view_entries() == ev.subrange(0, k as int),
                log.entries@.len() == k,
                forall|j: int| 0 <= j < k ==> #[trigger] ev[j].index == lii + 1 + j,
                latest is Some ==> latest->Some_0 < k && entries@[latest->Some_0 as int].entry_type == EntryType::Configuration
                    && forall|j: int| latest->Some_0 < j < k ==> #[trigger] entries@[j].entry_type == EntryType::Normal,
                latest is None ==> forall|j: int| 0 <= j < k ==> #[trigger] entries@[j].entry_type == EntryType::Normal,
            decreases entries@.len() - k,
        {
            assert(ev[k as int] == entries@[k as int]@);
            assert(crate::log::dense_from(ev, lii + 1) ==> ev[k as int].index == lii + 1 + k);
            if entries[k].index != log.last_index() + 1 {
                return Err(ConsensusError::CorruptPersistedState);
            }
            if entries[k].entry_type == EntryType::Configuration {
                latest = Some(k);
            }
            log.append_entry(crate::log::copy_entry(&entries[k]));
            assert(ev.subrange(0, k as int + 1) =~= ev.subrange(0, k as int).push(ev[k as int]));
            k = k + 1;
        }
        assert(ev.subrange(0, entries@.len() as int) =~= ev);
        let last = log.last_index();
        let commit = if metadata.commit_index > lii { metadata.commit_index } else { lii };
        if commit > last {
            return Err(ConsensusError::CorruptPersistedState);
        }
        let mut configuration = Configuration::new();
        let mut members: Vec<crate::config::Server> = Vec::new();
        members.push(crate::config::Server { server_id, server_addr: server_addr.clone() });
        let mut j: usize = 0;
        proof {
            assert(crate::config::servers_view(members@) =~= seq![(server_id, server_addr@)] + peers@.subrange(0, 0).map_values(|p: crate::peer::Peer| (p.server_id, p.server_addr@)));
        }
        while j < peers.len()
            invariant
                j <= peers@.len(),
                crate::config::servers_view(members@) == seq![(server_id, server_addr@)] + peers@.subrange(0, j as int).map_values(|p: crate::peer::Peer| (p.server_id, p.server_addr@)),
            decreases peers@.len() - j,
        {
            let s = crate::config::Server { server_id: peers[j].server_id, server_addr: peers[j].server_addr.clone() };
            let ghost prev = members@;
            members.push(s);
            proof {
                assert(crate::config::servers_view(members@) =~= crate::config::servers_view(prev).push(crate::config::server_view(s)));
                assert(peers@.subrange(0, j as int + 1).map_values(|p: crate::peer::Peer| (p.server_id, p.server_addr@)) =~= peers@.subrange(0, j as int).map_values(|p: crate::peer::Peer| (p.server_id, p.server_addr@)).push((peers@[j as int].server_id, peers@[j as int].server_addr@)));
                assert(crate::config::servers_view(members@) =~= seq![(server_id, server_addr@)] + peers@.subrange(0, j as int + 1).map_values(|p: crate::peer::Peer| (p.server_id, p.server_addr@)));
            }
            j = j + 1;
        }
        assert(peers@.subrange(0, peers@.len() as int) =~= peers@);
        configuration.append_new_server(&members);
        assert(configuration@ == initial_configuration(server_id, server_addr@, peers@)) by {
            assert(configuration@.old =~= Seq::<(u64, Seq<char>)>::empty());
            assert(configuration@.new =~= crate::config::servers_view(members@));
        }
        proof {
            if latest is Some {
                let at = latest->Some_0 as int;
                assert(latest_configuration_entry(entries@, at));
                assert forall|k: int| #[trigger] latest_configuration_entry(entries@, k) implies k == at by {
                    if k < at {
                        assert(entries@[at].entry_type == EntryType::Normal);
                    } else if k > at {
                        assert(entries@[k].entry_type == EntryType::Normal);
                    }
                }
                if exists|o: Seq<(u64, Seq<char>)>, n: Seq<(u64, Seq<char>)>| entries@[at].data@ == #[trigger] crate::config::bincode_server_lists(o, n) {
                    let (o, n) = choose|o: Seq<(u64, Seq<char>)>, n: Seq<(u64, Seq<char>)>| entries@[at].data@ == #[trigger] crate::config::bincode_server_lists(o, n);
                    let cv = crate::config::ConfigurationView { old: o, new: n };
                    assert(entries@[at].data@ == crate::config::bincode_server_lists(cv.old, cv.new));
                }
            } else {
                assert forall|k: int| #[trigger] latest_configuration_entry(entries@, k) implies false by {
                    assert(entries@[k].entry_type == EntryType::Normal);
                }
            }
        }
        let mut configuration_index: u64 = 0;
        match snapshot_configuration {
            Some(sc) => {
                configuration = sc;
                configuration_index = lii;
            },
            None => {},
        }
        let base = configuration.duplicate();
        match latest {
            Some(at) => {
                match Configuration::from_data(&entries[at].data) {
                    Ok(c) => {
                        configuration = c;
                        configuration_index = entries[at].index;
                    },
                    Err(_) => {
                        return Err(ConsensusError::CorruptPersistedState);
                    },
                }
            },
            None => {},
        }
        let mut peer_manager = PeerManager::new();
        let ghost given = peers@;
        peer_manager.add_peers(peers, last);
        assert forall|i: int| 0 <= i < given.len() implies {
            let p = #[trigger] peer_manager.peers@[i];
            &&& p.server_id == given[i].server_id
            &&& p.server_addr@ == given[i].server_addr@
            &&& p.next_index == last + 1
            &&& p.match_index == 0
        } by {
            assert(peer_manager.peers@[0 + i] == peer_manager.peers@[i]);
        }
        Ok(Consensus {
            server_id,
            server_addr,
            current_term: metadata.current_term,
            voted_for: metadata.voted_for,
            state: State::Follower,
            commit_index: commit,
            last_applied: lii,
            leader_id: NONE_SERVER_ID,
            peer_manager,
            log,
            snapshot,
            configuration,
            configuration_index,
            snapshot_configuration: base,
            votes_granted: Vec::new(),
        })
    }

    pub open spec fn wf(&self) -> bool {
        &&& self.log.wf()
        &&& self.peer_manager.wf()
        &&& self.log.start_index == self.snapshot.last_included_index + 1
        &&& self.snapshot.last_included_index <= self.last_applied
        &&& self.last_applied <= self.commit_index
        &&& self.commit_index <= self.log.last()
        &&& (self.state == State::Leader ==> self.leader_id == self.server_id)
    }

    pub open spec fn persisted(&self) -> Metadata {
        Metadata { current_term: self.current_term, voted_for: self.voted_for, commit_index: self.commit_index }
    }

    /// Term of the last entry, or of the snapshot boundary when the log is empty.
    pub open spec fn last_log_term(&self) -> u64 {
        if self.log.entries@.len() > 0 {
            self.log.at(self.log.last()).term
        } else {
            self.snapshot.last_included_term
        }
    }

    /// Entries up to the old commit index stay in the log, unchanged, and the
    /// commit index does not go back.
    pub open spec fn keeps_committed(&self, next: &Consensus) -> bool {
        &&& self.commit_index <= next.commit_index
        &&& self.last_applied <= next.last_applied
        &&& next.log.start_index == self.log.start_index
        &&& next.snapshot == self.snapshot
        &&& forall|i: int| self.log.start_index <= i <= self.commit_index ==> next.log.holds(i) && #[trigger] next.log.at(i) == self.log.at(i)
    }

    /// The persisted term and vote, with the commit index.
    pub fn metadata(&self) -> (r: Metadata)
        ensures
            r == self.persisted(),
    {
        Metadata { current_term: self.current_term, voted_for: self.voted_for, commit_index: self.commit_index }
    }

    fn last_log_term_exec(&self) -> (r: u64)
        requires
            self.wf(),
        ensures
            r == self.last_log_term(),
    {
        if self.log.len() > 0 {
            let t = self.log.term_at(self.log.last_index());
            t.unwrap()
        } else {
            self.snapshot.last_included_term
        }
    }

    /// Adopts `term` as a follower; a higher term clears the vote.
    fn step_down(&mut self, term: u64)
        requires
            old(self).wf(),
            term >= old(self).current_term,
        ensures
            final(self).wf(),
            final(self).state == State::Follower,
            final(self).current_term == term,
            final(self).voted_for == if term > old(self).current_term { NONE_SERVER_ID } else { old(self).voted_for },
            final(self).votes_granted@.len() == 0,
            old(self).keeps_committed(final(self)),
            final(self).commit_index == old(self).commit_index,
            final(self).last_applied == old(self).last_applied,
            final(self).log == old(self).log,
            final(self).configuration == old(self).configuration,
            final(self).server_id == old(self).server_id,
            final(self).peer_manager == old(self).peer_manager,
            final(self).leader_id == if term > old(self).current_term || old(self).state == State::Leader { NONE_SERVER_ID } else { old(self).leader_id },
    {
        if term > self.current_term {
            self.current_term = term;
            self.voted_for = NONE_SERVER_ID;
            self.leader_id = NONE_SERVER_ID;
        }
        if self.state == State::Leader {
            self.leader_id = NONE_SERVER_ID;
        }
        self.state = State::Follower;
        self.votes_granted = Vec::new();
    }

    /// Takes the leader role: every peer's next index follows the last entry
    /// and its match index restarts from 0.
    fn become_leader(&mut self)
        requires
            old(self).wf(),
        ensures
            final(self).wf(),
            final(self).state == State::Leader,
            final(self).leader_id == final(self).server_id,
            final(self).current_term == old(self).current_term,
            final(self).voted_for == old(self).voted_for,
            final(self).votes_granted == old(self).votes_granted,
            final(self).configuration == old(self).configuration,
            final(self).server_id == old(self).server_id,
            final(self).log == old(self).log,
            final(self).commit_index == old(self).commit_index,
            final(self).last_applied == old(self).last_applied,
            old(self).keeps_committed(final(self)),
    {
        self.state = State::Leader;
        self.leader_id = self.server_id;
        let last = self.log.last_index();
        self.peer_manager.reset_cursors(last);
    }

    /// The election timer fired: a non-leader becomes candidate for the next
    /// term, votes for itself and asks every server for its vote. A server
    /// that alone is a quorum becomes leader at once. Nothing happens on a
    /// leader, or when the term cannot grow.
    pub fn start_election(&mut self) -> (r: Option<VoteRequest>)
        requires
            old(self).wf(),
        ensures
            final(self).wf(),
            old(self).keeps_committed(final(self)),
            final(self).commit_index == old(self).commit_index,
            final(self).last_applied == old(self).last_applied,
            final(self).log == old(self).log,
            old(self).state == State::Leader || old(self).current_term == u64::MAX ==> r is None && final(self).current_term == old(self).current_term && final(self).voted_for == old(self).voted_for && final(self).state == old(self).state,
            !(old(self).state == State::Leader || old(self).current_term == u64::MAX) ==> {
                &&& r == Some(VoteRequest {
                    term: (old(self).current_term + 1) as u64,
                    candidate_id: old(self).server_id,
                    last_log_index: old(self).log.last() as u64,
                    last_log_term: old(self).last_log_term(),
                })
                &&& final(self).current_term == old(self).current_term + 1
                &&& final(self).voted_for == old(self).server_id
                &&& final(self).votes_granted@ == seq![old(self).server_id]
                &&& final(self).state == if is_quorum_of(old(self).configuration@, set![old(self).server_id]) { State::Leader } else { State::Candidate }
            },
    {
        if self.state == State::Leader || self.current_term == u64::MAX {
            return None;
        }
        self.current_term = self.current_term + 1;
        self.state = State::Candidate;
        self.voted_for = self.server_id;
        self.leader_id = NONE_SERVER_ID;
        let mut votes: Vec<u64> = Vec::new();
        votes.push(self.server_id);
        self.votes_granted = votes;
        let req = VoteRequest {
            term: self.current_term,
            candidate_id: self.server_id,
            last_log_index: self.log.last_index(),
            last_log_term: self.last_log_term_exec(),
        };
        proof {
            assert(self.votes_granted@ == seq![self.server_id]);
            assert forall|x: u64| self.votes_granted@.to_set().contains(x) <==> set![self.server_id].contains(x) by {
                if x == self.server_id {
                    assert(self.votes_granted@[0] == x);
                }
            }
            assert(self.votes_granted@.to_set() =~= set![self.server_id]);
        }
        if self.configuration.is_quorum(&self.votes_granted) {
            self.become_leader();
        }
        Some(req)
    }

    /// Handles a vote request: grants it when its term is current or newer,
    /// this server has not voted for another candidate in that term, and the
    /// candidate's log is at least as up to date as its own.
    pub fn handle_vote_request(&mut self, req: VoteRequest) -> (r: VoteResponse)
        requires
            old(self).wf(),
        ensures
            final(self).wf(),
            old(self).keeps_committed(final(self)),
            final(self).log == old(self).log,
            r.vote_granted == grants_vote(old(self).persisted(), old(self).last_log_term(), old(self).log.last() as u64, req),
            (final(self).current_term, final(self).voted_for) == after_vote(old(self).persisted(), old(self).last_log_term(), old(self).log.last() as u64, req),
            r.term == final(self).current_term,
            req.term > old(self).current_term ==> final(self).state == State::Follower,
            req.term <= old(self).current_term ==> final(self).state == old(self).state,
    {
        if req.term < self.current_term {
            return VoteResponse { term: self.current_term, vote_granted: false };
        }
        let my_term = self.last_log_term_exec();
        let my_index = self.log.last_index();
        if req.term > self.current_term {
            self.step_down(req.term);
        }
        let up_to_date = req.last_log_term > my_term || (req.last_log_term == my_term && req.last_log_index >= my_index);
        let granted = req.candidate_id != NONE_SERVER_ID && (self.voted_for == NONE_SERVER_ID || self.voted_for == req.candidate_id) && up_to_date;
        if granted {
            self.voted_for = req.candidate_id;
        }
        VoteResponse { term: self.current_term, vote_granted: granted }
    }

    /// Handles a reply to this server's vote request from `from`: a newer
    /// term makes it step down; a vote granted in the current term counts
    /// towards its candidacy, and a quorum of votes makes it leader.
    pub fn handle_vote_response(&mut self, from: u64, resp: VoteResponse)
        requires
            old(self).wf(),
        ensures
            final(self).wf(),
            old(self).keeps_committed(final(self)),
            final(self).log == old(self).log,
            final(self).commit_index == old(self).commit_index,
            final(self).current_term == if resp.term > old(self).current_term { resp.term } else { old(self).current_term },
            final(self).voted_for == if resp.term > old(self).current_term { NONE_SERVER_ID } else { old(self).voted_for },
            resp.term > old(self).current_term ==> final(self).state == State::Follower,
            final(self).state == State::Leader && old(self).state != State::Leader ==> {
                &&& old(self).state == State::Candidate
                &&& resp.vote_granted
                &&& resp.term == old(self).current_term
                &&& is_quorum_of(final(self).configuration@, final(self).votes_granted@.to_set())
                &&& final(self).votes_granted@.to_set() == old(self).votes_granted@.to_set().insert(from)
            },
            old(self).state == State::Candidate && resp.vote_granted && resp.term == old(self).current_term
                ==> final(self).votes_granted@.to_set() == old(self).votes_granted@.to_set().insert(from),
            old(self).state == State::Candidate && resp.vote_granted && resp.term == old(self).current_term
                && is_quorum_of(old(self).configuration@, old(self).votes_granted@.to_set().insert(from)) ==> final(self).state == State::Leader,
    {
        if resp.term > self.current_term {
            self.step_down(resp.term);
            return;
        }
        if self.state != State::Candidate || resp.term != self.current_term || !resp.vote_granted {
            return;
        }
        let mut i: usize = 0;
        let mut seen = false;
        while i < self.votes_granted.len()
            invariant
                i <= self.votes_granted.len(),
                seen == exists|k: int| 0 <= k < i && self.votes_granted@[k] == from,
            decreases self.votes_granted.len() - i,
        {
            if self.votes_granted[i] == from {
                seen = true;
            }
            i = i + 1;
        }
        let ghost before = self.votes_granted@;
        if !seen {
            self.votes_granted.push(from);
        }
        proof {
            assert(self.votes_granted@.to_set() =~= before.to_set().insert(from)) by {
                if seen {
                    let k = choose|k: int| 0 <= k < before.len() && before[k] == from;
                    assert(before.to_set().contains(from));
                } else {
                    assert(self.votes_granted@ == before.push(from));
                    assert forall|x: u64| self.votes_granted@.to_set().contains(x) implies before.to_set().insert(from).contains(x) by {
                        let k = choose|k: int| 0 <= k < self.votes_granted@.len() && self.votes_granted@[k] == x;
                        if k < before.len() {
                            assert(before[k] == x);
                        }
                    }
                    assert forall|x: u64| before.to_set().insert(from).contains(x) implies self.votes_granted@.to_set().contains(x) by {
                        if x == from {
                            assert(self.votes_granted@[before.len() as int] == x);
                        } else {
                            let k = choose|k: int| 0 <= k < before.len() && before[k] == x;
                            assert(self.votes_granted@[k] == x);
                        }
                    }
                }
            }
        }
        if self.configuration.is_quorum(&self.votes_granted) {
            self.become_leader();
        }
    }

    /// Installs `c` as the configuration; servers of `c` that are neither
    /// this server nor known peers become peers.
    fn apply_configuration(&mut self, c: Configuration)
        requires
            old(self).wf(),
        ensures
            final(self).wf(),
            final(self).configuration@ == c@,
            old(self).keeps_committed(final(self)),
            final(self).log == old(self).log,
            final(self).commit_index == old(self).commit_index,
            final(self).last_applied == old(self).last_applied,
            final(self).current_term == old(self).current_term,
            final(self).voted_for == old(self).voted_for,
            final(self).state == old(self).state,
            final(self).leader_id == old(self).leader_id,
            final(self).server_id == old(self).server_id,
            final(self).votes_granted == old(self).votes_granted,
    {
        let last = self.log.last_index();
        let mut i: usize = 0;
        while i < c.old_servers.len()
            invariant
                self.wf(),
                i <= c.old_servers.len(),
                last == self.log.last(),
                old(self).keeps_committed(self),
                self.log == old(self).log,
                self.commit_index == old(self).commit_index,
                self.last_applied == old(self).last_applied,
                self.current_term == old(self).current_term,
                self.voted_for == old(self).voted_for,
                self.state == old(self).state,
                self.leader_id == old(self).leader_id,
                self.server_id == old(self).server_id,
                self.configuration == old(self).configuration,
                self.votes_granted == old(self).votes_granted,
            decreases c.old_servers.len() - i,
        {
            let id = c.old_servers[i].server_id;
            if id != self.server_id && !self.peer_manager.contains(id) {
                let mut v: Vec<crate::peer::Peer> = Vec::new();
                v.push(crate::peer::Peer::new(id, c.old_servers[i].server_addr.clone()));
                self.peer_manager.add_peers(v, last);
            }
            i = i + 1;
        }
        let mut j: usize = 0;
        while j < c.new_servers.len()
            invariant
                self.wf(),
                j <= c.new_servers.len(),
                last == self.log.last(),
                old(self).keeps_committed(self),
                self.log == old(self).log,
                self.commit_index == old(self).commit_index,
                self.last_applied == old(self).last_applied,
                self.current_term == old(self).current_term,
                self.voted_for == old(self).voted_for,
                self.state == old(self).state,
                self.leader_id == old(self).leader_id,
                self.server_id == old(self).server_id,
                self.configuration == old(self).configuration,
                self.votes_granted == old(self).votes_granted,
            decreases c.new_servers.len() - j,
        {
            let id = c.new_servers[j].server_id;
            if id != self.server_id && !self.peer_manager.contains(id) {
                let mut v: Vec<crate::peer::Peer> = Vec::new();
                v.push(crate::peer::Peer::new(id, c.new_servers[j].server_addr.clone()));
                self.peer_manager.add_peers(v, last);
            }
            j = j + 1;
        }
        self.configuration = c;
    }

    /// Appends a client entry under the current term (leader only). A
    /// configuration entry takes effect at once, before it commits; it is
    /// refused when its bytes do not decode, when both of its sets are
    /// empty, or while a joint configuration is in effect and either the new
    /// one is joint too or the joint entry has not committed yet.
    /// The caller then sends `append_entries(false)` to the peers.
    pub fn replicate(&mut self, entry_type: EntryType, data: Vec<u8>) -> (r: Result<(), ConsensusError>)
        requires
            old(self).wf(),
            old(self).log.last() + 2 < u64::MAX,
        ensures
            final(self).wf(),
            old(self).keeps_committed(final(self)),
            final(self).commit_index == old(self).commit_index,
            final(self).current_term == old(self).current_term,
            final(self).voted_for == old(self).voted_for,
            final(self).state == old(self).state,
            old(self).state != State::Leader ==> r == Err::<(), ConsensusError>(ConsensusError::NotLeader { leader_id: old(self).leader_id }),
            old(self).state == State::Leader && entry_type == EntryType::Normal ==> r is Ok,
            old(self).state == State::Leader && entry_type == EntryType::Configuration ==> forall|c: crate::config::ConfigurationView|
                data@ == #[trigger] crate::config::bincode_server_lists(c.old, c.new) ==> (r is Ok <==> (valid_configuration(c) && !(is_joint(old(self).configuration@)
                    && (is_joint(c) || old(self).configuration_index > old(self).commit_index)))),
            r is Ok ==> final(self).log.view_entries() == old(self).log.view_entries().push(EntryView {
                index: (old(self).log.last() + 1) as u64,
                term: old(self).current_term,
                entry_type,
                data: data@,
            }),
            r is Ok && entry_type == EntryType::Configuration ==> final(self).configuration_index == old(self).log.last() + 1
                && forall|c: crate::config::ConfigurationView|
                data@ == #[trigger] crate::config::bincode_server_lists(c.old, c.new) ==> final(self).configuration@ == c,
            r is Ok && entry_type == EntryType::Normal ==> final(self).configuration_index == old(self).configuration_index,
            r is Ok && entry_type == EntryType::Normal ==> final(self).configuration == old(self).configuration,
            r is Err ==> final(self).log == old(self).log && final(self).configuration == old(self).configuration,
            r is Err && old(self).state == State::Leader ==> r == Err::<(), ConsensusError>(ConsensusError::InvalidConfiguration),
    {
        if self.state != State::Leader {
            return Err(ConsensusError::NotLeader { leader_id: self.leader_id });
        }
        let index = self.log.last_index() + 1;
        if entry_type == EntryType::Configuration {
            let c = match Configuration::from_data(&data) {
                Ok(c) => c,
                Err(_) => {
                    return Err(ConsensusError::InvalidConfiguration);
                },
            };
            if c.old_servers.len() == 0 && c.new_servers.len() == 0 {
                return Err(ConsensusError::InvalidConfiguration);
            }
            if self.configuration.is_configuration_old_new() && (c.is_configuration_old_new()
                || self.configuration_index > self.commit_index) {
                return Err(ConsensusError::InvalidConfiguration);
            }
            self.log.append_entry(Entry { index, term: self.current_term, entry_type, data });
            self.apply_configuration(c);
            self.configuration_index = index;
        } else {
            self.log.append_entry(Entry { index, term: self.current_term, entry_type, data });
        }
        Ok(())
    }

    /// Term of the entry at `index`, where `index` is the snapshot boundary
    /// or a retained entry.
    pub open spec fn term_of(&self, index: int) -> u64 {
        if index == self.snapshot.last_included_index {
            self.snapshot.last_included_term
        } else {
            self.log.at(index).term
        }
    }

    /// Where the leader resumes sending to a peer whose next index is
    /// `next_index`: that index, held within one past the last entry.
    pub open spec fn send_from(&self, next_index: u64) -> int {
        if next_index > self.log.last() + 1 { self.log.last() + 1 } else { next_index as int }
    }

    /// `o` is the message the leader owes to peer `p`.
    pub open spec fn owes(&self, p: crate::peer::Peer, heartbeat: bool, o: Outbound) -> bool {
        if p.next_index <= self.snapshot.last_included_index {
            o == Outbound::InstallSnapshot { to: p.server_id, term: self.current_term, leader_id: self.server_id, snapshot: self.snapshot }
        } else {
            match o {
                Outbound::Append { to, request } => {
                    let from = self.send_from(p.next_index);
                    &&& to == p.server_id
                    &&& request.term == self.current_term
                    &&& request.leader_id == self.server_id
                    &&& request.prev_log_index == from - 1
                    &&& request.prev_log_term == self.term_of(from - 1)
                    &&& request.leader_commit == self.commit_index
                    &&& crate::log::entries_view(request.entries@) == if heartbeat {
                        Seq::<EntryView>::empty()
                    } else {
                        self.log.view_entries().subrange(from - self.log.start_index, self.log.entries@.len() as int)
                    }
                },
                _ => false,
            }
        }
    }

    /// The leader's messages to every peer, in the peers' order: the entries
    /// from each peer's next index (none for a heartbeat) after the entry
    /// that precedes them, or a snapshot where those entries were compacted
    /// away. A server that is not leader sends nothing.
    pub fn append_entries(&self, heartbeat: bool) -> (r: Vec<Outbound>)
        requires
            self.wf(),
        ensures
            self.state != State::Leader ==> r@.len() == 0,
            self.state == State::Leader ==> r@.len() == self.peer_manager.peers@.len() && forall|i: int|
                0 <= i < r@.len() ==> self.owes(self.peer_manager.peers@[i], heartbeat, #[trigger] r@[i]),
    {
        let mut r: Vec<Outbound> = Vec::new();
        if self.state != State::Leader {
            return r;
        }
        let last = self.log.last_index();
        let mut i: usize = 0;
        while i < self.peer_manager.peers.len()
            invariant
                self.wf(),
                self.state == State::Leader,
                last == self.log.last(),
                i <= self.peer_manager.peers@.len(),
                r@.len() == i,
                forall|k: int| 0 <= k < i ==> self.owes(self.peer_manager.peers@[k], heartbeat, #[trigger] r@[k]),
            decreases self.peer_manager.peers@.len() - i,
        {
            let p = &self.peer_manager.peers[i];
            let o = if p.next_index <= self.snapshot.last_included_index {
                Outbound::InstallSnapshot { to: p.server_id, term: self.current_term, leader_id: self.server_id, snapshot: self.snapshot }
            } else {
                let from = if p.next_index > last + 1 { last + 1 } else { p.next_index };
                let prev = from - 1;
                let prev_term = if prev == self.snapshot.last_included_index {
                    self.snapshot.last_included_term
                } else {
                    self.log.term_at(prev).unwrap()
                };
                let entries = if heartbeat { Vec::new() } else { self.log.entries_from(from) };
                proof {
                    if heartbeat {
                        assert(crate::log::entries_view(entries@) =~= Seq::<EntryView>::empty());
                    }
                }
                Outbound::Append {
                    to: p.server_id,
                    request: AppendEntriesRequest {
                        term: self.current_term,
                        leader_id: self.server_id,
                        prev_log_index: prev,
                        prev_log_term: prev_term,
                        entries,
                        leader_commit: self.commit_index,
                    },
                }
            };
            let ghost prev_r = r@;
            proof {
                assert(self.owes(self.peer_manager.peers@[i as int], heartbeat, o));
            }
            r.push(o);
            proof {
                assert forall|k: int| 0 <= k < i + 1 implies self.owes(self.peer_manager.peers@[k], heartbeat, #[trigger] r@[k]) by {
                    if k < i {
                        assert(r@[k] == prev_r[k]);
                    }
                }
            }
            i = i + 1;
        }
        r
    }

    /// Whether this server's log agrees with `req` on the entry that
    /// precedes the new ones.
    pub open spec fn prev_matches(&self, prev_index: u64, prev_term: u64) -> bool {
        if prev_index == self.snapshot.last_included_index {
            prev_term == self.snapshot.last_included_term
        } else {
            self.log.holds(prev_index as int) && self.log.at(prev_index as int).term == prev_term
        }
    }

    /// Whether an append request is taken: its term is current or newer,
    /// the log agrees on the preceding entry, the entries are numbered from
    /// it, their indices fit, and every retained entry they differ from lies
    /// above the commit index.
    pub open spec fn append_accepted(&self, req: &AppendEntriesRequest) -> bool {
        let prev = req.prev_log_index as int;
        let len = req.entries@.len();
        &&& req.term >= self.current_term
        &&& self.prev_matches(req.prev_log_index, req.prev_log_term)
        &&& forall|k: int| 0 <= k < len ==> #[trigger] req.entries@[k].index == prev + 1 + k
        &&& (len == 0 || prev + len + 1 < u64::MAX)
        &&& forall|k: int| 0 <= k < len && self.log.holds(prev + 1 + k) && self.log.at(prev + 1 + k) != #[trigger] req.entries@[k]@
            ==> prev + 1 + k > self.commit_index
    }

    /// Handles a leader's append request. A stale term is refused with no
    /// change. Otherwise this server follows the sender in its term. When
    /// the request is taken (`append_accepted`), the entries are stored at
    /// their indices, a differing tail being dropped first, and the commit
    /// index moves up to the leader's, within the entries received. A
    /// configuration entry takes effect as it is appended.
    pub fn handle_append_entries(&mut self, req: AppendEntriesRequest) -> (r: AppendEntriesResponse)
        requires
            old(self).wf(),
        ensures
            final(self).wf(),
            old(self).keeps_committed(final(self)),
            r.term == final(self).current_term,
            final(self).voted_for == if req.term > old(self).current_term { NONE_SERVER_ID } else { old(self).voted_for },
            r.success <==> old(self).append_accepted(&req),
            req.term < old(self).current_term ==> {
                &&& final(self).current_term == old(self).current_term
                &&& final(self).state == old(self).state
                &&& final(self).log == old(self).log
            },
            req.term >= old(self).current_term ==> {
                &&& final(self).current_term == req.term
                &&& final(self).state == State::Follower
                &&& final(self).leader_id == req.leader_id
            },
            !old(self).prev_matches(req.prev_log_index, req.prev_log_term) ==> final(self).log == old(self).log,
            r.success ==> {
                &&& r.match_index == req.prev_log_index + req.entries@.len()
                &&& final(self).log.last() >= r.match_index
                &&& forall|j: int| old(self).log.start_index <= j <= req.prev_log_index ==> final(self).log.holds(j)
                    && #[trigger] final(self).log.at(j) == old(self).log.at(j)
                &&& forall|k: int| 0 <= k < req.entries@.len() ==> final(self).log.holds(req.prev_log_index + 1 + k)
                    && #[trigger] final(self).log.at(req.prev_log_index + 1 + k) == req.entries@[k]@
                &&& final(self).commit_index == if req.leader_commit > old(self).commit_index {
                    if req.leader_commit < r.match_index { req.leader_commit } else if r.match_index > old(self).commit_index { r.match_index } else { old(self).commit_index }
                } else {
                    old(self).commit_index
                }
            },
            !r.success ==> final(self).commit_index == old(self).commit_index,
            !r.success ==> final(self).configuration == old(self).configuration,
            r.success && (forall|k: int| 0 <= k < req.entries@.len() ==> #[trigger] req.entries@[k].entry_type == EntryType::Normal)
                ==> final(self).configuration == old(self).configuration,
            r.success ==> forall|k: int| #[trigger] latest_configuration_entry(req.entries@, k) ==> forall|cv: crate::config::ConfigurationView|
                req.entries@[k].data@ == #[trigger] crate::config::bincode_server_lists(cv.old, cv.new) && valid_configuration(cv)
                ==> final(self).configuration@ == cv && final(self).configuration_index == req.entries@[k].index,
    {
        if req.term < self.current_term {
            return AppendEntriesResponse { term: self.current_term, success: false, match_index: 0 };
        }
        self.step_down(req.term);
        self.leader_id = req.leader_id;
        let prev = req.prev_log_index;
        let ok = if prev == self.snapshot.last_included_index {
            req.prev_log_term == self.snapshot.last_included_term
        } else {
            match self.log.term_at(prev) {
                Some(t) => t == req.prev_log_term,
                None => false,
            }
        };
        if !ok {
            return AppendEntriesResponse { term: self.current_term, success: false, match_index: 0 };
        }
        let ghost o = old(self).log;
        let ghost oc = old(self).commit_index;
        let mut truncated: Ghost<bool> = Ghost(false);
        let mut index: u64 = prev;
        let mut i: usize = 0;
        while i < req.entries.len()
            invariant
                self.wf(),
                old(self).keeps_committed(self),
                o == old(self).log,
                oc == old(self).commit_index,
                self.commit_index == old(self).commit_index,
                self.current_term == req.term,
                self.voted_for == if req.term > old(self).current_term { NONE_SERVER_ID } else { old(self).voted_for },
                self.state == State::Follower,
                self.leader_id == req.leader_id,
                self.configuration == old(self).configuration,
                old(self).prev_matches(prev, req.prev_log_term),
                req.term >= old(self).current_term,
                prev == req.prev_log_index,
                i <= req.entries@.len(),
                index == prev + i,
                self.snapshot.last_included_index <= prev,
                index <= self.log.last(),
                self.log.start_index == o.start_index,
                forall|j: int| o.start_index <= j <= prev ==> self.log.holds(j) && #[trigger] self.log.at(j) == o.at(j),
                forall|k: int| 0 <= k < i ==> self.log.holds(prev + 1 + k) && #[trigger] self.log.at(prev + 1 + k) == req.entries@[k]@,
                forall|k: int| 0 <= k < i ==> #[trigger] req.entries@[k].index == prev + 1 + k,
                forall|k: int| 0 <= k < i && o.holds(prev + 1 + k) && o.at(prev + 1 + k) != #[trigger] req.entries@[k]@ ==> prev + 1 + k > oc,
                i > 0 ==> index + 1 < u64::MAX,
                !truncated@ ==> self.log.last() == (if o.last() > index { o.last() } else { index as int }),
                !truncated@ ==> forall|j: int| index < j <= o.last() ==> #[trigger] self.log.at(j) == o.at(j),
                truncated@ ==> self.log.last() == index,
            decreases req.entries@.len() - i,
        {
            let ghost before = *self;
            let idx = index + 1;
            if idx >= u64::MAX - 1 || req.entries[i].index != idx {
                return AppendEntriesResponse { term: self.current_term, success: false, match_index: 0 };
            }
            let e = crate::log::copy_entry(&req.entries[i]);
            let present = self.log.entry_at(idx);
            let differs = match &present {
                Some(p) => !same_entry(p, &e),
                None => true,
            };
            proof {
                if present is Some {
                    assert(!truncated@);
                    assert(self.log.at(idx as int) == o.at(idx as int));
                    assert(o.holds(idx as int));
                }
            }
            if differs {
                if present.is_some() {
                    if idx <= self.commit_index {
                        assert(o.holds(prev + 1 + i) && o.at(prev + 1 + i) != req.entries@[i as int]@);
                        return AppendEntriesResponse { term: self.current_term, success: false, match_index: 0 };
                    }
                    self.log.truncate_from(idx);
                    truncated = Ghost(true);
                }
                self.log.append_entry(e);
                proof {
                    assert forall|j: int| before.log.start_index <= j < idx implies self.log.holds(j) && #[trigger] self.log.at(j) == before.log.at(j) by {
                        assert(self.log.view_entries()[j - self.log.start_index] == before.log.view_entries()[j - before.log.start_index]);
                    }
                    assert(self.log.at(idx as int) == req.entries@[i as int]@);
                    if !truncated@ {
                        assert(!o.holds(idx as int));
                    }
                }
            }
            index = idx;
            i = i + 1;
        }
        if req.leader_commit > self.commit_index {
            let target = if req.leader_commit < index { req.leader_commit } else { index };
            if target > self.commit_index {
                self.commit_index = target;
            }
        }
        match latest_configuration(&req.entries) {
            Some(k) => {
                match Configuration::from_data(&req.entries[k].data) {
                    Ok(c) => {
                        if c.old_servers.len() > 0 || c.new_servers.len() > 0 {
                            self.apply_configuration(c);
                            self.configuration_index = req.entries[k].index;
                        }
                    },
                    Err(_) => {},
                }
            },
            None => {},
        }
        AppendEntriesResponse { term: self.current_term, success: true, match_index: index }
    }

    /// Index `n` may be committed by the leader: it holds an entry of the
    /// current term, and a quorum (itself and the peers whose match index
    /// reaches `n`) holds it.
    pub open spec fn commit_candidate(&self, n: int) -> bool {
        &&& self.log.holds(n)
        &&& self.log.at(n).term == self.current_term
        &&& is_quorum_of(self.configuration@, ids_matching(self.peer_manager.peers@, n as u64).insert(self.server_id))
    }

    /// The leader moves its commit index to the highest entry of its current
    /// term that a quorum (itself and the peers whose match index reaches it)
    /// holds; entries of earlier terms commit only along with such an entry.
    fn advance_commit_index(&mut self)
        requires
            old(self).wf(),
            old(self).state == State::Leader,
        ensures
            final(self).wf(),
            old(self).keeps_committed(final(self)),
            final(self).log == old(self).log,
            final(self).state == old(self).state,
            final(self).current_term == old(self).current_term,
            final(self).voted_for == old(self).voted_for,
            final(self).last_applied == old(self).last_applied,
            final(self).configuration == old(self).configuration,
            final(self).peer_manager == old(self).peer_manager,
            final(self).server_id == old(self).server_id,
            final(self).commit_index != old(self).commit_index ==> final(self).commit_candidate(final(self).commit_index as int),
            forall|n: int| final(self).commit_index < n ==> !#[trigger] final(self).commit_candidate(n),
    {
        let mut n: u64 = self.log.last_index();
        while n > self.commit_index
            invariant
                self.wf(),
                self.state == State::Leader,
                old(self).state == State::Leader,
                n <= self.log.last(),
                self.commit_index == old(self).commit_index,
                self.log == old(self).log,
                self.current_term == old(self).current_term,
                self.voted_for == old(self).voted_for,
                self.last_applied == old(self).last_applied,
                self.configuration == old(self).configuration,
                self.peer_manager == old(self).peer_manager,
                self.server_id == old(self).server_id,
                self.snapshot == old(self).snapshot,
                self.votes_granted == old(self).votes_granted,
                self.leader_id == old(self).leader_id,
                forall|m: int| n < m ==> !#[trigger] self.commit_candidate(m),
            decreases n,
        {
            let t = self.log.term_at(n);
            if t == Some(self.current_term) {
                let mut ids = self.peer_manager.matching_ids(n);
                let ghost before = ids@;
                ids.push(self.server_id);
                proof {
                    lemma_push_to_set(before, self.server_id);
                }
                if self.configuration.is_quorum(&ids) {
                    let ghost pre = *self;
                    self.commit_index = n;
                    assert forall|m: int| self.commit_index < m implies !#[trigger] self.commit_candidate(m) by {
                        assert(pre.commit_candidate(m) == self.commit_candidate(m));
                    }
                    return;
                }
                assert(!self.commit_candidate(n as int));
            } else {
                assert(!self.commit_candidate(n as int));
            }
            n = n - 1;
        }
    }

    /// Handles a peer's reply to an append request. A newer term makes this
    /// server step down. For the leader in the reply's term, success moves
    /// the peer's match index up (never past the last entry) and may advance
    /// the commit index; a refusal steps the peer's next index back.
    pub fn handle_append_response(&mut self, from: u64, resp: AppendEntriesResponse)
        requires
            old(self).wf(),
        ensures
            final(self).wf(),
            old(self).keeps_committed(final(self)),
            final(self).log == old(self).log,
            final(self).current_term == if resp.term > old(self).current_term { resp.term } else { old(self).current_term },
            resp.term > old(self).current_term ==> final(self).state == State::Follower && final(self).commit_index == old(self).commit_index,
            final(self).voted_for == if resp.term > old(self).current_term { NONE_SERVER_ID } else { old(self).voted_for },
            resp.term <= old(self).current_term ==> final(self).state == old(self).state,
            final(self).configuration == old(self).configuration,
            final(self).server_id == old(self).server_id,
            final(self).peer_manager.peers@.len() == old(self).peer_manager.peers@.len(),
            !(old(self).state == State::Leader && resp.term == old(self).current_term) ==> {
                &&& final(self).commit_index == old(self).commit_index
                &&& resp.term <= old(self).current_term ==> final(self).peer_manager == old(self).peer_manager
            },
            old(self).state == State::Leader && resp.term == old(self).current_term && resp.success ==> {
                let m = if resp.match_index > old(self).log.last() { old(self).log.last() as u64 } else { resp.match_index };
                &&& forall|i: int| 0 <= i < final(self).peer_manager.peers@.len() ==> {
                    let p = #[trigger] final(self).peer_manager.peers@[i];
                    let q = old(self).peer_manager.peers@[i];
                    &&& p.server_id == q.server_id
                    &&& p.server_addr == q.server_addr
                    &&& if q.server_id == from {
                        &&& p.match_index == if m > q.match_index { m } else { q.match_index }
                        &&& p.next_index == p.match_index + 1
                    } else {
                        p == q
                    }
                }
                &&& final(self).commit_index != old(self).commit_index ==> final(self).commit_candidate(final(self).commit_index as int)
                &&& forall|n: int| final(self).commit_index < n ==> !#[trigger] final(self).commit_candidate(n)
            },
            old(self).state == State::Leader && resp.term == old(self).current_term && !resp.success ==> {
                &&& final(self).commit_index == old(self).commit_index
                &&& forall|i: int| 0 <= i < final(self).peer_manager.peers@.len() ==> {
                    let p = #[trigger] final(self).peer_manager.peers@[i];
                    let q = old(self).peer_manager.peers@[i];
                    &&& p.server_id == q.server_id
                    &&& p.server_addr == q.server_addr
                    &&& p.match_index == q.match_index
                    &&& p.next_index == if q.server_id == from && q.next_index > 1 { (q.next_index - 1) as u64 } else { q.next_index }
                }
            },
            final(self).commit_index != old(self).commit_index ==> final(self).state == State::Leader,
    {
        if resp.term > self.current_term {
            self.step_down(resp.term);
            return;
        }
        if self.state != State::Leader || resp.term != self.current_term {
            return;
        }
        if resp.success {
            let last = self.log.last_index();
            let m = if resp.match_index > last { last } else { resp.match_index };
            self.peer_manager.record_success(from, m);
            self.advance_commit_index();
        } else {
            self.peer_manager.record_failure(from);
        }
    }

    /// Hands out the next committed entry not yet applied, advancing the
    /// applied index by exactly one; nothing when every committed entry has
    /// been applied.
    pub fn apply_next(&mut self) -> (r: Option<Entry>)
        requires
            old(self).wf(),
        ensures
            final(self).wf(),
            old(self).keeps_committed(final(self)),
            final(self).log == old(self).log,
            final(self).commit_index == old(self).commit_index,
            final(self).current_term == old(self).current_term,
            final(self).state == old(self).state,
            final(self).voted_for == old(self).voted_for,
            old(self).last_applied < old(self).commit_index ==> {
                &&& r is Some
                &&& final(self).last_applied == old(self).last_applied + 1
                &&& r->Some_0@ == old(self).log.at(old(self).last_applied + 1)
            },
            old(self).last_applied == old(self).commit_index ==> r is None && final(self).last_applied == old(self).last_applied,
    {
        if self.last_applied >= self.commit_index {
            return None;
        }
        let next = self.last_applied + 1;
        let e = self.log.entry_at(next);
        self.last_applied = next;
        e
    }

    /// Whether the snapshot timer should compact the log: more than
    /// `SNAPSHOT_LOG_LENGTH_THRESHOLD` entries are retained and some applied
    /// entry lies above the snapshot boundary.
    pub fn needs_snapshot(&self) -> (r: bool)
        requires
            self.wf(),
        ensures
            r == (self.log.entries@.len() > SNAPSHOT_LOG_LENGTH_THRESHOLD && self.last_applied >= self.log.start_index),
    {
        self.log.len() > SNAPSHOT_LOG_LENGTH_THRESHOLD && self.last_applied >= self.log.start_index
    }

    /// Records a snapshot taken at the applied index and discards the log
    /// prefix it covers: the earliest retained index becomes the applied
    /// index plus one. The configuration in effect is kept with the snapshot
    /// when the entry that set it is among those discarded.
    pub fn take_snapshot(&mut self) -> (r: SnapshotMetadata)
        requires
            old(self).wf(),
        ensures
            final(self).wf(),
            r == final(self).snapshot,
            r.last_included_index == old(self).last_applied,
            r.last_included_term == old(self).term_of(old(self).last_applied as int),
            final(self).log.start_index == old(self).last_applied + 1,
            final(self).log.last() == old(self).log.last(),
            final(self).log.view_entries() == old(self).log.view_entries().subrange(
                old(self).last_applied + 1 - old(self).log.start_index,
                old(self).log.entries@.len() as int,
            ),
            final(self).commit_index == old(self).commit_index,
            final(self).last_applied == old(self).last_applied,
            final(self).current_term == old(self).current_term,
            final(self).voted_for == old(self).voted_for,
            final(self).state == old(self).state,
            final(self).configuration == old(self).configuration,
            forall|i: int| final(self).log.holds(i) ==> #[trigger] final(self).log.at(i) == old(self).log.at(i),
            old(self).configuration_index <= old(self).last_applied ==> final(self).snapshot_configuration@ == old(self).configuration@,
            old(self).configuration_index > old(self).last_applied ==> final(self).snapshot_configuration == old(self).snapshot_configuration,
    {
        if self.configuration_index <= self.last_applied {
            self.snapshot_configuration = self.configuration.duplicate();
        }
        let applied = self.last_applied;
        if applied >= self.log.start_index {
            let t = self.log.term_at(applied).unwrap();
            let ghost before = self.log;
            self.log.compact_through(applied);
            self.snapshot = SnapshotMetadata { last_included_index: applied, last_included_term: t };
            proof {
                assert forall|i: int| self.log.holds(i) implies #[trigger] self.log.at(i) == before.at(i) by {
                    assert(self.log.view_entries()[i - self.log.start_index] == before.view_entries()[i - before.start_index]);
                }
            }
        } else {
            assert(old(self).log.view_entries().subrange(0, old(self).log.entries@.len() as int) =~= old(self).log.view_entries());
        }
        self.snapshot
    }

    /// Handles a leader's snapshot. A stale term is refused with no change;
    /// otherwise this server follows the sender in its term. A snapshot
    /// beyond its commit index replaces its log: the log restarts after the
    /// snapshot's last index, which becomes the commit and applied index,
    /// and the snapshot's configuration, when valid, takes effect.
    /// The flag says whether it was installed, so that the caller restores
    /// the state machine from the data.
    pub fn handle_install_snapshot(&mut self, req: &InstallSnapshotRequest) -> (r: (InstallSnapshotResponse, bool))
        requires
            old(self).wf(),
        ensures
            final(self).wf(),
            r.0.term == final(self).current_term,
            final(self).voted_for == if req.term > old(self).current_term { NONE_SERVER_ID } else { old(self).voted_for },
            final(self).commit_index >= old(self).commit_index,
            final(self).last_applied >= old(self).last_applied,
            req.term < old(self).current_term ==> !r.1 && final(self).current_term == old(self).current_term && final(self).log == old(self).log,
            req.term >= old(self).current_term ==> final(self).current_term == req.term && final(self).state == State::Follower,
            r.1 <==> (req.term >= old(self).current_term && req.last_included_index > old(self).commit_index
                && req.last_included_index + 2 < u64::MAX),
            r.1 ==> {
                &&& final(self).snapshot == SnapshotMetadata { last_included_index: req.last_included_index, last_included_term: req.last_included_term }
                &&& final(self).log.start_index == req.last_included_index + 1
                &&& final(self).log.entries@.len() == 0
                &&& final(self).commit_index == req.last_included_index
                &&& final(self).last_applied == req.last_included_index
            },
            !r.1 ==> final(self).log == old(self).log && final(self).commit_index == old(self).commit_index && final(self).last_applied == old(self).last_applied,
            !r.1 ==> final(self).configuration == old(self).configuration,
            r.1 && valid_configuration(req.configuration@) ==> final(self).configuration@ == req.configuration@
                && final(self).snapshot_configuration@ == req.configuration@,
            r.1 && !valid_configuration(req.configuration@) ==> final(self).configuration == old(self).configuration,
    {
        if req.term < self.current_term {
            return (InstallSnapshotResponse { term: self.current_term }, false);
        }
        self.step_down(req.term);
        self.leader_id = req.leader_id;
        let lii = req.last_included_index;
        if lii <= self.commit_index || lii >= u64::MAX - 2 {
            return (InstallSnapshotResponse { term: self.current_term }, false);
        }
        self.log.reset(lii);
        self.snapshot = SnapshotMetadata { last_included_index: lii, last_included_term: req.last_included_term };
        self.commit_index = lii;
        self.last_applied = lii;
        if req.configuration.old_servers.len() > 0 || req.configuration.new_servers.len() > 0 {
            self.apply_configuration(req.configuration.duplicate());
            self.snapshot_configuration = req.configuration.duplicate();
            self.configuration_index = lii;
        }
        (InstallSnapshotResponse { term: self.current_term }, true)
    }
}

} // verus!
