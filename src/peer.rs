//! Known peers and the leader's per-peer replication cursors.
use vstd::prelude::*;

verus! {

/// A peer server with its replication cursors.
#[derive(Debug, Clone)]
pub struct Peer {
    pub server_id: u64,
    pub server_addr: String,
    /// Index of the next entry the leader sends to this peer.
    pub next_index: u64,
    /// Highest index known to be replicated on this peer.
    pub match_index: u64,
}

impl Peer {
    pub fn new(server_id: u64, server_addr: String) -> (r: Peer)
        ensures
            r.server_id == server_id,
            r.server_addr@ == server_addr@,
            r.next_index == 1,
            r.match_index == 0,
    {
        Peer { server_id, server_addr, next_index: 1, match_index: 0 }
    }
}

/// The set of peers of one server.
#[derive(Debug)]
pub struct PeerManager {
    pub peers: Vec<Peer>,
}

/// Ids of the peers whose match index reaches `index`.
pub open spec fn ids_matching(peers: Seq<Peer>, index: u64) -> Set<u64> {
    Set::new(|id: u64| exists|i: int| 0 <= i < peers.len() && #[trigger] peers[i].server_id == id && peers[i].match_index >= index)
}

pub open spec fn peer_ids(peers: Seq<Peer>) -> Seq<u64> {
    peers.map_values(|p: Peer| p.server_id)
}

impl PeerManager {
    pub open spec fn wf(&self) -> bool {
        forall|i: int| 0 <= i < self.peers@.len() ==> #[trigger] self.peers@[i].next_index >= 1 && self.peers@[i].match_index < u64::MAX
    }

    pub fn new() -> (r: PeerManager)
        ensures
            r.peers@.len() == 0,
            r.wf(),
    {
        PeerManager { peers: Vec::new() }
    }

    /// Adds each peer with fresh cursors: next index after `last_log_index`, match index 0.
    pub fn add_peers(&mut self, peers: Vec<Peer>, last_log_index: u64)
        requires
            old(self).wf(),
            last_log_index < u64::MAX,
        ensures
            final(self).wf(),
            final(self).peers@.len() == old(self).peers@.len() + peers@.len(),
            forall|i: int| 0 <= i < old(self).peers@.len() ==> #[trigger] final(self).peers@[i] == old(self).peers@[i],
            forall|i: int| 0 <= i < peers@.len() ==> {
                let p = #[trigger] final(self).peers@[old(self).peers@.len() + i];
                &&& p.server_id == peers@[i].server_id
                &&& p.server_addr@ == peers@[i].server_addr@
                &&& p.next_index == last_log_index + 1
                &&& p.match_index == 0
            },
    {
        let n0 = self.peers.len();
        let mut i: usize = 0;
        while i < peers.len()
            invariant
                i <= peers.len(),
                self.wf(),
                n0 == old(self).peers@.len(),
                self.peers@.len() == n0 + i,
                last_log_index < u64::MAX,
                forall|k: int| 0 <= k < n0 ==> #[trigger] self.peers@[k] == old(self).peers@[k],
                forall|k: int| 0 <= k < i ==> {
                    let p = #[trigger] self.peers@[n0 + k];
                    &&& p.server_id == peers@[k].server_id
                    &&& p.server_addr@ == peers@[k].server_addr@
                    &&& p.next_index == last_log_index + 1
                    &&& p.match_index == 0
                },
            decreases peers.len() - i,
        {
            let p = Peer {
                server_id: peers[i].server_id,
                server_addr: peers[i].server_addr.clone(),
                next_index: last_log_index + 1,
                match_index: 0,
            };
            self.peers.push(p);
            proof {
                assert(self.peers@[n0 + i as int] == p);
            }
            i = i + 1;
        }
    }

    /// Whether a peer with this id is known.
    pub fn contains(&self, server_id: u64) -> (r: bool)
        ensures
            r == peer_ids(self.peers@).contains(server_id),
    {
        let mut i: usize = 0;
        while i < self.peers.len()
            invariant
                i <= self.peers.len(),
                forall|k: int| 0 <= k < i ==> self.peers@[k].server_id != server_id,
            decreases self.peers.len() - i,
        {
            if self.peers[i].server_id == server_id {
                assert(peer_ids(self.peers@)[i as int] == server_id);
                return true;
            }
            i = i + 1;
        }
        false
    }

    /// The ids of all peers, in order.
    pub fn peer_server_ids(&self) -> (r: Vec<u64>)
        ensures
            r@ == peer_ids(self.peers@),
    {
        let mut r: Vec<u64> = Vec::new();
        let mut i: usize = 0;
        while i < self.peers.len()
            invariant
                i <= self.peers.len(),
                r@ == peer_ids(self.peers@.subrange(0, i as int)),
            decreases self.peers.len() - i,
        {
            r.push(self.peers[i].server_id);
            assert(peer_ids(self.peers@.subrange(0, i as int + 1)) =~= peer_ids(
                self.peers@.subrange(0, i as int),
            ).push(self.peers@[i as int].server_id));
            i = i + 1;
        }
        assert(self.peers@.subrange(0, self.peers.len() as int) =~= self.peers@);
        r
    }

    /// Ids of the peers whose match index reaches `index`.
    pub fn matching_ids(&self, index: u64) -> (r: Vec<u64>)
        ensures
            r@.to_set() == ids_matching(self.peers@, index),
    {
        let mut r: Vec<u64> = Vec::new();
        let mut i: usize = 0;
        while i < self.peers.len()
            invariant
                i <= self.peers.len(),
                r@.to_set() == ids_matching(self.peers@.subrange(0, i as int), index),
            decreases self.peers.len() - i,
        {
            let ghost before = r@;
            if self.peers[i].match_index >= index {
                r.push(self.peers[i].server_id);
            }
            proof {
                let s0 = self.peers@.subrange(0, i as int);
                let s1 = self.peers@.subrange(0, i as int + 1);
                assert forall|id: u64| #[trigger] r@.to_set().contains(id) == ids_matching(s1, index).contains(id) by {
                    if ids_matching(s1, index).contains(id) {
                        let k = choose|k: int| 0 <= k < s1.len() && #[trigger] s1[k].server_id == id && s1[k].match_index >= index;
                        if k < i {
                            assert(s0[k] == s1[k]);
                            assert(ids_matching(s0, index).contains(id));
                            assert(before.to_set().contains(id));
                            let j = choose|j: int| 0 <= j < before.len() && before[j] == id;
                            assert(r@[j] == id);
                        } else {
                            assert(r@[r@.len() - 1] == id);
                        }
                    }
                    if r@.to_set().contains(id) {
                        let j = choose|j: int| 0 <= j < r@.len() && r@[j] == id;
                        if j < before.len() {
                            assert(before[j] == id);
                            assert(before.to_set().contains(id));
                            let k = choose|k: int| 0 <= k < s0.len() && #[trigger] s0[k].server_id == id && s0[k].match_index >= index;
                            assert(s1[k] == s0[k]);
                        } else {
                            assert(s1[i as int].server_id == id);
                        }
                    }
                }
                assert(r@.to_set() =~= ids_matching(s1, index));
            }
            i = i + 1;
        }
        assert(self.peers@.subrange(0, self.peers.len() as int) =~= self.peers@);
        r
    }

    /// Resets every peer's cursors for a new leadership: next index after
    /// `last_log_index`, match index 0.
    pub fn reset_cursors(&mut self, last_log_index: u64)
        requires
            last_log_index < u64::MAX,
        ensures
            final(self).wf(),
            final(self).peers@.len() == old(self).peers@.len(),
            forall|i: int| 0 <= i < final(self).peers@.len() ==> {
                let p = #[trigger] final(self).peers@[i];
                &&& p.server_id == old(self).peers@[i].server_id
                &&& p.server_addr == old(self).peers@[i].server_addr
                &&& p.next_index == last_log_index + 1
                &&& p.match_index == 0
            },
    {
        let mut i: usize = 0;
        while i < self.peers.len()
            invariant
                i <= self.peers.len(),
                self.peers@.len() == old(self).peers@.len(),
                last_log_index < u64::MAX,
                forall|k: int| i <= k < self.peers@.len() ==> #[trigger] self.peers@[k] == old(self).peers@[k],
                forall|k: int| 0 <= k < i ==> {
                    let p = #[trigger] self.peers@[k];
                    &&& p.server_id == old(self).peers@[k].server_id
                    &&& p.server_addr == old(self).peers@[k].server_addr
                    &&& p.next_index == last_log_index + 1
                    &&& p.match_index == 0
                },
            decreases self.peers.len() - i,
        {
            self.peers[i].next_index = last_log_index + 1;
            self.peers[i].match_index = 0;
            i = i + 1;
        }
    }

    /// Records a successful replication on peer `server_id` up to `match_index`:
    /// its match index only grows, and its next index follows it.
    pub fn record_success(&mut self, server_id: u64, match_index: u64)
        requires
            old(self).wf(),
            match_index < u64::MAX,
        ensures
            final(self).wf(),
            final(self).peers@.len() == old(self).peers@.len(),
            forall|i: int| 0 <= i < final(self).peers@.len() ==> {
                let p = #[trigger] final(self).peers@[i];
                let q = old(self).peers@[i];
                &&& p.server_id == q.server_id
                &&& p.server_addr == q.server_addr
                &&& if q.server_id == server_id {
                    &&& p.match_index == if match_index > q.match_index { match_index } else { q.match_index }
                    &&& p.next_index == p.match_index + 1
                } else {
                    p == q
                }
            },
    {
        let mut i: usize = 0;
        while i < self.peers.len()
            invariant
                i <= self.peers.len(),
                self.wf(),
                match_index < u64::MAX,
                self.peers@.len() == old(self).peers@.len(),
                forall|k: int| i <= k < self.peers@.len() ==> #[trigger] self.peers@[k] == old(self).peers@[k],
                forall|k: int| 0 <= k < i ==> {
                    let p = #[trigger] self.peers@[k];
                    let q = old(self).peers@[k];
                    &&& p.server_id == q.server_id
                    &&& p.server_addr == q.server_addr
                    &&& if q.server_id == server_id {
                        &&& p.match_index == if match_index > q.match_index { match_index } else { q.match_index }
                        &&& p.next_index == p.match_index + 1
                    } else {
                        p == q
                    }
                },
            decreases self.peers.len() - i,
        {
            if self.peers[i].server_id == server_id {
                let m = if match_index > self.peers[i].match_index { match_index } else { self.peers[i].match_index };
                self.peers[i].match_index = m;
                self.peers[i].next_index = m + 1;
            }
            i = i + 1;
        }
    }

    /// Records a refused replication on peer `server_id`: its next index
    /// steps back by one, never below 1, and the leader retries from there.
    pub fn record_failure(&mut self, server_id: u64)
        requires
            old(self).wf(),
        ensures
            final(self).wf(),
            final(self).peers@.len() == old(self).peers@.len(),
            forall|i: int| 0 <= i < final(self).peers@.len() ==> {
                let p = #[trigger] final(self).peers@[i];
                let q = old(self).peers@[i];
                &&& p.server_id == q.server_id
                &&& p.server_addr == q.server_addr
                &&& p.match_index == q.match_index
                &&& p.next_index == if q.server_id == server_id && q.next_index > 1 { (q.next_index - 1) as u64 } else { q.next_index }
            },
    {
        let mut i: usize = 0;
        while i < self.peers.len()
            invariant
                i <= self.peers.len(),
                self.wf(),
                self.peers@.len() == old(self).peers@.len(),
                forall|k: int| i <= k < self.peers@.len() ==> #[trigger] self.peers@[k] == old(self).peers@[k],
                forall|k: int| 0 <= k < i ==> {
                    let p = #[trigger] self.peers@[k];
                    let q = old(self).peers@[k];
                    &&& p.server_id == q.server_id
                    &&& p.server_addr == q.server_addr
                    &&& p.match_index == q.match_index
                    &&& p.next_index == if q.server_id == server_id && q.next_index > 1 { (q.next_index - 1) as u64 } else { q.next_index }
                },
            decreases self.peers.len() - i,
        {
            if self.peers[i].server_id == server_id && self.peers[i].next_index > 1 {
                self.peers[i].next_index = self.peers[i].next_index - 1;
            }
            i = i + 1;
        }
    }
}

} // verus!
