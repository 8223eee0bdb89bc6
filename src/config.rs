//! Cluster membership: the joint (old, new) configuration and its quorums.
use crate::error::ConsensusError;
use crate::peer::Peer;
use vstd::prelude::*;

verus! {

/// bincode's error kind, carried without inspection in the codec results.
#[verifier::external_type_specification]
#[verifier::external_body]
pub struct ExBincodeErrorKind(bincode::ErrorKind);

/// The bytes that bincode's default options give for a pair of server lists.
pub uninterp spec fn bincode_server_lists(old: Seq<(u64, Seq<char>)>, new: Seq<(u64, Seq<char>)>) -> Seq<u8>;

pub open spec fn pairs_view(v: Seq<(u64, String)>) -> Seq<(u64, Seq<char>)> {
    v.map_values(|p: (u64, String)| (p.0, p.1@))
}

/// Relies on bincode::serialize: its fixed default options set no size
/// limit, and sequences of known length (a `Vec`) of integers and strings
/// always encode, so the call succeeds; the bytes are a function of the two
/// lists alone.
#[verifier::external_body]
fn encode_server_lists(old: &Vec<(u64, String)>, new: &Vec<(u64, String)>) -> (r: Result<Vec<u8>, Box<bincode::ErrorKind>>)
    ensures
        r is Ok,
        r is Ok ==> r->Ok_0@ == bincode_server_lists(pairs_view(old@), pairs_view(new@)),
{
    bincode::serialize(&(old, new))
}

/// Relies on bincode::deserialize: under the same default options it reads
/// back what bincode::serialize wrote.
#[verifier::external_body]
fn decode_server_lists(data: &Vec<u8>) -> (r: Result<(Vec<(u64, String)>, Vec<(u64, String)>), Box<bincode::ErrorKind>>)
    ensures
        forall|o: Seq<(u64, Seq<char>)>, n: Seq<(u64, Seq<char>)>|
            data@ == #[trigger] bincode_server_lists(o, n) ==> {
                &&& r is Ok
                &&& pairs_view(r->Ok_0.0@) == o
                &&& pairs_view(r->Ok_0.1@) == n
            },
{
    bincode::deserialize(data.as_slice())
}

fn servers_to_pairs(servers: &Vec<Server>) -> (r: Vec<(u64, String)>)
    ensures
        pairs_view(r@) == servers_view(servers@),
{
    let mut r: Vec<(u64, String)> = Vec::new();
    let mut i: usize = 0;
    while i < servers.len()
        invariant
            i <= servers.len(),
            pairs_view(r@) == servers_view(servers@.subrange(0, i as int)),
        decreases servers.len() - i,
    {
        let ghost prev = r@;
        let p = (servers[i].server_id, servers[i].server_addr.clone());
        r.push(p);
        proof {
            assert(pairs_view(r@) =~= pairs_view(prev).push((p.0, p.1@)));
            assert(servers_view(servers@.subrange(0, i as int + 1)) =~= servers_view(
                servers@.subrange(0, i as int),
            ).push(server_view(servers@[i as int])));
        }
        i = i + 1;
    }
    assert(servers@.subrange(0, servers.len() as int) =~= servers@);
    r
}

fn pairs_to_servers(pairs: Vec<(u64, String)>) -> (r: Vec<Server>)
    ensures
        servers_view(r@) == pairs_view(pairs@),
{
    let mut r: Vec<Server> = Vec::new();
    let mut i: usize = 0;
    while i < pairs.len()
        invariant
            i <= pairs.len(),
            servers_view(r@) == pairs_view(pairs@.subrange(0, i as int)),
        decreases pairs.len() - i,
    {
        let ghost prev = r@;
        let s = Server { server_id: pairs[i].0, server_addr: pairs[i].1.clone() };
        r.push(s);
        proof {
            assert(servers_view(r@) =~= servers_view(prev).push(server_view(s)));
            assert(pairs_view(pairs@.subrange(0, i as int + 1)) =~= pairs_view(
                pairs@.subrange(0, i as int),
            ).push((pairs@[i as int].0, pairs@[i as int].1@)));
        }
        i = i + 1;
    }
    assert(pairs@.subrange(0, pairs.len() as int) =~= pairs@);
    r
}

/// Lower bound of the randomized election timeout.
pub const ELECTION_TIMEOUT_MIN_MILLIS: u64 = 1000;

/// Upper bound of the randomized election timeout.
pub const ELECTION_TIMEOUT_MAX_MILLIS: u64 = 1500;

/// Interval between two heartbeats of a leader.
pub const HEARTBEAT_INTERVAL_MILLIS: u64 = 3000;

/// Interval between two checks of the snapshot timer.
pub const SNAPSHOT_INTERVAL_MILLIS: u64 = 3000;

/// Number of retained log entries above which a snapshot is taken.
pub const SNAPSHOT_LOG_LENGTH_THRESHOLD: usize = 5;

/// Server id that stands for "no server" (no leader known, no vote cast).
pub const NONE_SERVER_ID: u64 = 0;

/// Size of one chunk of a snapshot transfer.
pub const SNAPSHOT_TRUNK_SIZE: usize = 30;

/// Membership of one server relative to a configuration.
#[derive(Debug, Clone, Copy, PartialEq, Eq, Structural)]
pub struct ConfigurationSTate {
    pub in_new: bool,
    pub in_old: bool,
}

impl ConfigurationSTate {
    pub fn new() -> (r: ConfigurationSTate)
        ensures
            r.in_new,
            !r.in_old,
    {
        ConfigurationSTate { in_new: true, in_old: false }
    }
}

/// A member of the cluster: its id and its address.
#[derive(Debug, Clone, PartialEq, Eq)]
pub struct Server {
    pub server_id: u64,
    pub server_addr: String,
}

/// Mathematical value of a server: (id, address).
pub open spec fn server_view(s: Server) -> (u64, Seq<char>) {
    (s.server_id, s.server_addr@)
}

pub open spec fn servers_view(v: Seq<Server>) -> Seq<(u64, Seq<char>)> {
    v.map_values(|s: Server| server_view(s))
}

/// Joint membership descriptor: the old server set and the new server set.
#[derive(Debug, Clone, PartialEq, Eq)]
pub struct Configuration {
    pub old_servers: Vec<Server>,
    pub new_servers: Vec<Server>,
}

pub struct ConfigurationView {
    pub old: Seq<(u64, Seq<char>)>,
    pub new: Seq<(u64, Seq<char>)>,
}

impl View for Configuration {
    type V = ConfigurationView;

    open spec fn view(&self) -> ConfigurationView {
        ConfigurationView { old: servers_view(self.old_servers@), new: servers_view(self.new_servers@) }
    }
}

/// Whether a server id occurs in a sequence of servers.
pub open spec fn has_id(servers: Seq<(u64, Seq<char>)>, id: u64) -> bool {
    exists|i: int| 0 <= i < servers.len() && #[trigger] servers[i].0 == id
}

/// Number of positions of `servers` whose id lies in `granted`.
pub open spec fn count_granted(servers: Seq<(u64, Seq<char>)>, granted: Set<u64>) -> nat
    decreases servers.len(),
{
    if servers.len() == 0 {
        0
    } else {
        count_granted(servers.drop_last(), granted) + if granted.contains(servers.last().0) {
            1nat
        } else {
            0nat
        }
    }
}

/// A strict majority of `servers` lies in `granted`; an empty set imposes nothing.
pub open spec fn majority_of(servers: Seq<(u64, Seq<char>)>, granted: Set<u64>) -> bool {
    servers.len() == 0 || 2 * count_granted(servers, granted) > servers.len()
}

/// Quorum of a configuration: a majority of the old set and a majority of
/// the new set at the same time.
pub open spec fn is_quorum_of(c: ConfigurationView, granted: Set<u64>) -> bool {
    majority_of(c.old, granted) && majority_of(c.new, granted)
}

/// A configuration with neither set populated is not valid.
pub open spec fn valid_configuration(c: ConfigurationView) -> bool {
    c.old.len() > 0 || c.new.len() > 0
}

pub open spec fn is_joint(c: ConfigurationView) -> bool {
    c.old.len() > 0 && c.new.len() > 0
}

fn contains_id(ids: &Vec<u64>, id: u64) -> (r: bool)
    ensures
        r == ids@.contains(id),
{
    let mut i: usize = 0;
    while i < ids.len()
        invariant
            i <= ids.len(),
            forall|j: int| 0 <= j < i ==> ids@[j] != id,
        decreases ids.len() - i,
    {
        if ids[i] == id {
            return true;
        }
        i = i + 1;
    }
    false
}

fn find_server(servers: &Vec<Server>, id: u64) -> (r: bool)
    ensures
        r == has_id(servers_view(servers@), id),
{
    let mut i: usize = 0;
    while i < servers.len()
        invariant
            i <= servers.len(),
            forall|j: int| 0 <= j < i ==> servers@[j].server_id != id,
        decreases servers.len() - i,
    {
        if servers[i].server_id == id {
            assert(servers_view(servers@)[i as int].0 == id);
            return true;
        }
        i = i + 1;
    }
    proof {
        if has_id(servers_view(servers@), id) {
            let k = choose|k: int| 0 <= k < servers@.len() && #[trigger] servers_view(servers@)[k].0 == id;
            assert(servers@[k].server_id == id);
        }
    }
    false
}

fn count_granted_exec(servers: &Vec<Server>, granted: &Vec<u64>) -> (r: usize)
    ensures
        r == count_granted(servers_view(servers@), granted@.to_set()),
{
    let ghost sv = servers_view(servers@);
    let ghost g = granted@.to_set();
    let mut n: usize = 0;
    let mut i: usize = 0;
    while i < servers.len()
        invariant
            i <= servers.len(),
            sv == servers_view(servers@),
            g == granted@.to_set(),
            n <= i,
            n == count_granted(sv.subrange(0, i as int), g),
        decreases servers.len() - i,
    {
        assert(sv.subrange(0, i as int + 1).drop_last() =~= sv.subrange(0, i as int));
        let c = contains_id(granted, servers[i].server_id);
        proof {
            assert(granted@.contains(servers@[i as int].server_id) == g.contains(servers@[i as int].server_id));
        }
        if c {
            n = n + 1;
        }
        i = i + 1;
    }
    assert(sv.subrange(0, servers.len() as int) =~= sv);
    n
}

fn majority_exec(servers: &Vec<Server>, granted: &Vec<u64>) -> (r: bool)
    ensures
        r == majority_of(servers_view(servers@), granted@.to_set()),
{
    if servers.len() == 0 {
        return true;
    }
    let n = count_granted_exec(servers, granted);
    proof {
        lemma_count_le(servers_view(servers@), granted@.to_set());
    }
    n as u128 * 2 > servers.len() as u128
}

pub proof fn lemma_count_le(s: Seq<(u64, Seq<char>)>, g: Set<u64>)
    ensures
        count_granted(s, g) <= s.len(),
    decreases s.len(),
{
    if s.len() > 0 {
        lemma_count_le(s.drop_last(), g);
    }
}

impl Configuration {
    pub fn new() -> (r: Configuration)
        ensures
            r@.old.len() == 0,
            r@.new.len() == 0,
    {
        Configuration { old_servers: Vec::new(), new_servers: Vec::new() }
    }

    /// The bytes of this configuration, as a log entry or snapshot carries it.
    pub fn to_data(&self) -> (r: Vec<u8>)
        ensures
            r@ == bincode_server_lists(self@.old, self@.new),
    {
        let old = servers_to_pairs(&self.old_servers);
        let new = servers_to_pairs(&self.new_servers);
        match encode_server_lists(&old, &new) {
            Ok(b) => b,
            Err(_) => Vec::new(),
        }
    }

    /// Reads a configuration back from its bytes; bytes written by `to_data`
    /// give back an equal configuration.
    pub fn from_data(data: &Vec<u8>) -> (r: Result<Configuration, ConsensusError>)
        ensures
            forall|c: ConfigurationView| data@ == #[trigger] bincode_server_lists(c.old, c.new) ==> r is Ok && r->Ok_0@ == c,
            r is Err ==> r->Err_0 == ConsensusError::CorruptPersistedState,
    {
        match decode_server_lists(data) {
            Ok(lists) => {
                let (o, n) = lists;
                let c = Configuration { old_servers: pairs_to_servers(o), new_servers: pairs_to_servers(n) };
                Ok(c)
            },
            Err(_) => Err(ConsensusError::CorruptPersistedState),
        }
    }

    /// A configuration with the same servers, in the same order.
    pub fn duplicate(&self) -> (r: Configuration)
        ensures
            r@ == self@,
    {
        Configuration {
            old_servers: pairs_to_servers(servers_to_pairs(&self.old_servers)),
            new_servers: pairs_to_servers(servers_to_pairs(&self.new_servers)),
        }
    }

    /// Adds each peer, as a server, to the old set, in order.
    pub fn append_old_peers(&mut self, peers: &Vec<Peer>)
        ensures
            final(self)@.new == old(self)@.new,
            final(self)@.old == old(self)@.old + peers@.map_values(|p: Peer| (p.server_id, p.server_addr@)),
    {
        let mut i: usize = 0;
        while i < peers.len()
            invariant
                i <= peers.len(),
                self@.new == old(self)@.new,
                self@.old == old(self)@.old + peers@.subrange(0, i as int).map_values(|p: Peer| (p.server_id, p.server_addr@)),
            decreases peers.len() - i,
        {
            let s = Server { server_id: peers[i].server_id, server_addr: peers[i].server_addr.clone() };
            let ghost prev = self.old_servers@;
            self.old_servers.push(s);
            proof {
                assert(servers_view(self.old_servers@) =~= servers_view(prev).push(server_view(s)));
                assert(peers@.subrange(0, i as int + 1).map_values(|p: Peer| (p.server_id, p.server_addr@)) =~= peers@.subrange(0, i as int).map_values(|p: Peer| (p.server_id, p.server_addr@)).push((peers@[i as int].server_id, peers@[i as int].server_addr@)));
                assert(self@.old =~= old(self)@.old + peers@.subrange(0, i as int + 1).map_values(|p: Peer| (p.server_id, p.server_addr@)));
            }
            i = i + 1;
        }
        assert(peers@.subrange(0, peers.len() as int) =~= peers@);
    }

    /// Adds each server of `new_server` to the new set, in order.
    pub fn append_new_server(&mut self, new_server: &Vec<Server>)
        ensures
            final(self)@.old == old(self)@.old,
            final(self)@.new == old(self)@.new + servers_view(new_server@),
    {
        let mut i: usize = 0;
        while i < new_server.len()
            invariant
                i <= new_server.len(),
                self@.old == old(self)@.old,
                self@.new == old(self)@.new + servers_view(new_server@.subrange(0, i as int)),
            decreases new_server.len() - i,
        {
            let s = Server {
                server_id: new_server[i].server_id,
                server_addr: new_server[i].server_addr.clone(),
            };
            assert(server_view(s) == server_view(new_server@[i as int]));
            let ghost prev = self.new_servers@;
            self.new_servers.push(s);
            proof {
                assert(servers_view(self.new_servers@) =~= servers_view(prev).push(server_view(s)));
                assert(servers_view(new_server@.subrange(0, i as int + 1)) =~= servers_view(
                    new_server@.subrange(0, i as int),
                ).push(server_view(new_server@[i as int])));
                assert(self@.new =~= old(self)@.new + servers_view(new_server@.subrange(0, i as int + 1)));
            }
            i = i + 1;
        }
        assert(new_server@.subrange(0, new_server.len() as int) =~= new_server@);
    }

    /// The membership of `server_id`: whether it is in the old set and in the new set.
    pub fn query_configuration_state(&self, server_id: u64) -> (r: ConfigurationSTate)
        ensures
            r.in_new == has_id(self@.new, server_id),
            r.in_old == has_id(self@.old, server_id),
    {
        ConfigurationSTate {
            in_new: find_server(&self.new_servers, server_id),
            in_old: find_server(&self.old_servers, server_id),
        }
    }

    pub fn is_configuration_old_new(&self) -> (r: bool)
        ensures
            r == is_joint(self@),
    {
        !self.old_servers.is_empty() && !self.new_servers.is_empty()
    }

    pub fn is_configuration_new(&self) -> (r: bool)
        ensures
            r == (self@.old.len() == 0 && self@.new.len() > 0),
    {
        self.old_servers.is_empty() && !self.new_servers.is_empty()
    }

    /// Derives Cnew (old set cleared, new set kept) from a joint Cold,new.
    pub fn gen_new_configuration(&self) -> (r: Configuration)
        requires
            is_joint(self@),
        ensures
            r@.old.len() == 0,
            r@.new == self@.new,
    {
        let mut c = Configuration::new();
        c.append_new_server(&self.new_servers);
        c
    }

    /// Whether the servers in `granted` form a quorum: a majority of each
    /// populated half.
    pub fn is_quorum(&self, granted: &Vec<u64>) -> (r: bool)
        ensures
            r == is_quorum_of(self@, granted@.to_set()),
    {
        majority_exec(&self.old_servers, granted) && majority_exec(&self.new_servers, granted)
    }
}

/// Voters that `votes` records as having voted for `candidate`.
pub open spec fn votes_for(votes: Map<u64, u64>, candidate: u64) -> Set<u64> {
    Set::new(|v: u64| votes.contains_key(v) && votes[v] == candidate)
}

/// Two subsets counted over the same servers overlap by at least the excess
/// of their counts over the number of servers.
pub proof fn lemma_count_overlap(s: Seq<(u64, Seq<char>)>, a: Set<u64>, b: Set<u64>)
    ensures
        count_granted(s, a) + count_granted(s, b) <= s.len() + count_granted(s, a.intersect(b)),
    decreases s.len(),
{
    if s.len() > 0 {
        lemma_count_overlap(s.drop_last(), a, b);
    }
}

/// A positive count names a granted server of the sequence.
pub proof fn lemma_count_witness(s: Seq<(u64, Seq<char>)>, g: Set<u64>) -> (i: int)
    requires
        count_granted(s, g) > 0,
    ensures
        0 <= i < s.len(),
        g.contains(s[i].0),
    decreases s.len(),
{
    if g.contains(s.last().0) {
        s.len() - 1
    } else {
        let j = lemma_count_witness(s.drop_last(), g);
        assert(s.drop_last()[j] == s[j]);
        j
    }
}

/// Any two quorums of one valid configuration share a server: in a joint
/// configuration they meet in each populated half.
pub proof fn lemma_quorums_intersect(c: ConfigurationView, a: Set<u64>, b: Set<u64>) -> (id: u64)
    requires
        valid_configuration(c),
        is_quorum_of(c, a),
        is_quorum_of(c, b),
    ensures
        a.contains(id),
        b.contains(id),
{
    let h = if c.new.len() > 0 { c.new } else { c.old };
    lemma_count_overlap(h, a, b);
    let i = lemma_count_witness(h, a.intersect(b));
    h[i].0
}

/// Election safety: when each voter votes for at most one candidate in a
/// term (`votes` maps a voter to the candidate it voted for), two candidates
/// that each gathered a quorum of the same valid configuration are one and
/// the same, so a term has at most one leader.
pub proof fn lemma_election_safety(c: ConfigurationView, votes: Map<u64, u64>, a: u64, b: u64)
    requires
        valid_configuration(c),
        is_quorum_of(c, votes_for(votes, a)),
        is_quorum_of(c, votes_for(votes, b)),
    ensures
        a == b,
{
    let v = lemma_quorums_intersect(c, votes_for(votes, a), votes_for(votes, b));
    assert(votes[v] == a);
}

} // verus!
