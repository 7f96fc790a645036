use vstd::prelude::*;

use crate::ip::Ip;
use crate::peer::Feedback;
use crate::peer::Peer;
use crate::peer::PeerStatus;
use crate::peer::after_feedback;
use crate::peer::feedback_transition;

verus! {

/// The addresses of a row of peers, in row order.
pub open spec fn ips_of<S>(s: Seq<Peer<S>>) -> Seq<Ip> {
    s.map_values(|p: Peer<S>| p.ip)
}

/// The addresses of the idle peers of a row, in row order: exactly the
/// peers one dial pass may try.
pub open spec fn idle_ips<S>(s: Seq<Peer<S>>) -> Seq<Ip> {
    ips_of(s.filter(|p: Peer<S>| p.status == PeerStatus::Idle))
}

/// The addresses of the peers of a row alive in either direction, in row
/// order: the healthy connections.
pub open spec fn alive_ips<S>(s: Seq<Peer<S>>) -> Seq<Ip> {
    ips_of(
        s.filter(
            |p: Peer<S>| p.status == PeerStatus::OutAlive || p.status == PeerStatus::InAlive,
        ),
    )
}

/// No two peers of the row share an address.
pub open spec fn distinct_ips<S>(s: Seq<Peer<S>>) -> bool {
    forall|i: int, j: int| 0 <= i < j < s.len() ==> s[i].ip != s[j].ip
}

/// No live socket in a passive state: a peer of a well-formed registry —
/// and every operation here keeps the registry well-formed — never holds a
/// socket while `Idle`, `OutConnecting` or `Banned`.
pub proof fn lemma_no_socket_while_passive<S>(reg: PeerRegistry<S>, i: int)
    requires
        reg.wf(),
        0 <= i < reg@.len(),
        reg@[i].socket is Some,
    ensures
        reg@[i].status != PeerStatus::Idle,
        reg@[i].status != PeerStatus::OutConnecting,
        reg@[i].status != PeerStatus::Banned,
{
}

/// The authoritative set of known peers, keyed by address: each address
/// appears at most once, and every peer satisfies the socket invariant.
#[derive(Debug)]
pub struct PeerRegistry<S> {
    peers: Vec<Peer<S>>,
}

impl<S> View for PeerRegistry<S> {
    type V = Seq<Peer<S>>;

    closed spec fn view(&self) -> Seq<Peer<S>> {
        self.peers@
    }
}

impl<S> PeerRegistry<S> {
    pub open spec fn wf(self) -> bool {
        &&& distinct_ips(self@)
        &&& forall|i: int| 0 <= i < self@.len() ==> self@[i].wf()
    }

    pub open spec fn contains_ip(self, ip: Ip) -> bool {
        exists|i: int| 0 <= i < self@.len() && self@[i].ip == ip
    }

    /// The row of the peer with this address (meaningful when present).
    pub open spec fn ip_index(self, ip: Ip) -> int {
        choose|i: int| 0 <= i < self@.len() && self@[i].ip == ip
    }

    /// The peer with this address (meaningful when present).
    pub open spec fn peer_of(self, ip: Ip) -> Peer<S> {
        self@[self.ip_index(ip)]
    }

    /// In a well-formed registry the row of an address is the only one
    /// holding it.
    pub proof fn lemma_index_unique(self, ip: Ip, k: int)
        requires
            self.wf(),
            0 <= k < self@.len(),
            self@[k].ip == ip,
        ensures
            self.ip_index(ip) == k,
            self.contains_ip(ip),
            self.peer_of(ip) == self@[k],
    {
        let j = self.ip_index(ip);
        assert(0 <= j < self@.len() && self@[j].ip == ip);
    }

    pub fn new() -> (r: PeerRegistry<S>)
        ensures
            r@ == Seq::<Peer<S>>::empty(),
            r.wf(),
    {
        PeerRegistry { peers: Vec::new() }
    }

    pub fn len(&self) -> (r: usize)
        ensures
            r == self@.len(),
    {
        self.peers.len()
    }

    fn find_index(&self, ip: Ip) -> (r: Option<usize>)
        ensures
            match r {
                Some(k) => 0 <= k < self@.len() && self@[k as int].ip == ip,
                None => !self.contains_ip(ip),
            },
    {
        let n = self.peers.len();
        let mut k: usize = 0;
        while k < n
            invariant
                0 <= k <= n,
                n == self@.len(),
                forall|t: int| 0 <= t < k ==> self@[t].ip != ip,
            decreases n - k,
        {
            if self.peers[k].ip == ip {
                return Some(k);
            }
            k = k + 1;
        }
        None
    }

    /// A borrowed look at the peer with this address, if it is known.
    pub fn get(&self, ip: Ip) -> (r: Option<&Peer<S>>)
        requires
            self.wf(),
        ensures
            match r {
                Some(p) => self.contains_ip(ip) && *p == self.peer_of(ip),
                None => !self.contains_ip(ip),
            },
    {
        match self.find_index(ip) {
            Some(k) => {
                proof {
                    self.lemma_index_unique(ip, k as int);
                }
                Some(&self.peers[k])
            },
            None => None,
        }
    }

    /// Inserts by address, silently replacing a peer already known under it.
    pub fn insert_or_replace(&mut self, peer: Peer<S>)
        requires
            old(self).wf(),
            peer.wf(),
        ensures
            final(self).wf(),
            old(self).contains_ip(peer.ip) ==> final(self)@ == old(self)@.update(
                old(self).ip_index(peer.ip),
                peer,
            ),
            !old(self).contains_ip(peer.ip) ==> final(self)@ == old(self)@.push(peer),
    {
        let ghost prior = self@;
        match self.find_index(peer.ip) {
            Some(k) => {
                proof {
                    self.lemma_index_unique(peer.ip, k as int);
                }
                self.peers[k] = peer;
                proof {
                    assert forall|i: int, j: int| 0 <= i < j < self@.len() implies self@[i].ip
                        != self@[j].ip by {
                        assert(prior[i].ip != prior[j].ip);
                    }
                }
            },
            None => {
                self.peers.push(peer);
                proof {
                    assert forall|i: int, j: int| 0 <= i < j < self@.len() implies self@[i].ip
                        != self@[j].ip by {
                        if j < prior.len() {
                            assert(prior[i].ip != prior[j].ip);
                        }
                    }
                }
            },
        }
    }

    /// Applies one feedback signal to the peer with this address. An unknown
    /// address, like an illegal transition, changes nothing; the caller may
    /// log either.
    pub fn apply_feedback(&mut self, ip: Ip, f: Feedback, now: i64) -> (applied: bool)
        requires
            old(self).wf(),
        ensures
            final(self).wf(),
            !old(self).contains_ip(ip) ==> final(self)@ == old(self)@ && !applied,
            old(self).contains_ip(ip) ==> {
                &&& final(self)@ == old(self)@.update(
                    old(self).ip_index(ip),
                    after_feedback(old(self).peer_of(ip), f, now),
                )
                &&& applied == feedback_transition(old(self).peer_of(ip).status, f) is Some
            },
    {
        let ghost prior = self@;
        match self.find_index(ip) {
            Some(k) => {
                proof {
                    self.lemma_index_unique(ip, k as int);
                }
                let applied = self.peers[k].apply_feedback(f, now);
                proof {
                    assert forall|i: int, j: int| 0 <= i < j < self@.len() implies self@[i].ip
                        != self@[j].ip by {
                        assert(prior[i].ip != prior[j].ip);
                    }
                }
                applied
            },
            None => false,
        }
    }

    /// A dial attempt begins: an idle peer moves to `OutConnecting`; any
    /// other state, or an unknown address, is left alone.
    pub fn begin_dial(&mut self, ip: Ip) -> (applied: bool)
        requires
            old(self).wf(),
        ensures
            final(self).wf(),
            applied == (old(self).contains_ip(ip) && old(self).peer_of(ip).status
                == PeerStatus::Idle),
            applied ==> final(self)@ == old(self)@.update(
                old(self).ip_index(ip),
                Peer { status: PeerStatus::OutConnecting, ..old(self).peer_of(ip) },
            ),
            !applied ==> final(self)@ == old(self)@,
    {
        let ghost prior = self@;
        match self.find_index(ip) {
            Some(k) => {
                proof {
                    self.lemma_index_unique(ip, k as int);
                }
                match self.peers[k].status() {
                    PeerStatus::Idle => {
                        self.peers[k].connecting();
                        proof {
                            assert forall|i: int, j: int|
                                0 <= i < j < self@.len() implies self@[i].ip != self@[j].ip by {
                                assert(prior[i].ip != prior[j].ip);
                            }
                        }
                        true
                    },
                    _ => false,
                }
            },
            None => false,
        }
    }

    /// A dial attempt failed: the peer returns to `Idle`, the failure time
    /// recorded, and is eligible for retry on a later pass.
    pub fn dial_failed(&mut self, ip: Ip, now: i64) -> (applied: bool)
        requires
            old(self).wf(),
        ensures
            final(self).wf(),
            applied == (old(self).contains_ip(ip) && old(self).peer_of(ip).status
                == PeerStatus::OutConnecting),
            applied ==> final(self)@ == old(self)@.update(
                old(self).ip_index(ip),
                Peer {
                    status: PeerStatus::Idle,
                    last_failure: Some(now),
                    ..old(self).peer_of(ip)
                },
            ),
            !applied ==> final(self)@ == old(self)@,
    {
        let ghost prior = self@;
        match self.find_index(ip) {
            Some(k) => {
                proof {
                    self.lemma_index_unique(ip, k as int);
                }
                match self.peers[k].status() {
                    PeerStatus::OutConnecting => {
                        self.peers[k].idle(now);
                        proof {
                            assert forall|i: int, j: int|
                                0 <= i < j < self@.len() implies self@[i].ip != self@[j].ip by {
                                assert(prior[i].ip != prior[j].ip);
                            }
                        }
                        true
                    },
                    _ => false,
                }
            },
            None => false,
        }
    }

    /// A dial attempt produced a socket: the peer starts handshaking; the
    /// socket itself travels to the consumer in the connection event.
    pub fn dial_succeeded(&mut self, ip: Ip) -> (applied: bool)
        requires
            old(self).wf(),
        ensures
            final(self).wf(),
            applied == (old(self).contains_ip(ip) && old(self).peer_of(ip).status
                == PeerStatus::OutConnecting),
            applied ==> final(self)@ == old(self)@.update(
                old(self).ip_index(ip),
                Peer { status: PeerStatus::OutHandshaking, ..old(self).peer_of(ip) },
            ),
            !applied ==> final(self)@ == old(self)@,
    {
        let ghost prior = self@;
        match self.find_index(ip) {
            Some(k) => {
                proof {
                    self.lemma_index_unique(ip, k as int);
                }
                match self.peers[k].status() {
                    PeerStatus::OutConnecting => {
                        self.peers[k].handshake(true);
                        proof {
                            assert forall|i: int, j: int|
                                0 <= i < j < self@.len() implies self@[i].ip != self@[j].ip by {
                                assert(prior[i].ip != prior[j].ip);
                            }
                        }
                        true
                    },
                    _ => false,
                }
            },
            None => false,
        }
    }

    /// The identity set to persist: every known address, in row order, and
    /// nothing else (sockets and statuses are not durable state).
    pub fn snapshot_ips(&self) -> (r: Vec<Ip>)
        ensures
            r@ == ips_of(self@),
    {
        let n = self.peers.len();
        let mut out: Vec<Ip> = Vec::new();
        let mut k: usize = 0;
        while k < n
            invariant
                0 <= k <= n,
                n == self@.len(),
                out@ == ips_of(self@.take(k as int)),
            decreases n - k,
        {
            out.push(self.peers[k].ip);
            proof {
                assert(ips_of(self@.take(k as int + 1)) =~= ips_of(self@.take(k as int)).push(
                    self@[k as int].ip,
                ));
            }
            k = k + 1;
        }
        proof {
            assert(self@.take(n as int) =~= self@);
        }
        out
    }

    /// The peers a dial pass may try: exactly those currently `Idle`, in row
    /// order (an alive, handshaking, connecting or banned peer is never
    /// dialed).
    pub fn dial_candidate_ips(&self) -> (r: Vec<Ip>)
        requires
            self.wf(),
        ensures
            r@ == idle_ips(self@),
    {
        let n = self.peers.len();
        let mut out: Vec<Ip> = Vec::new();
        let mut k: usize = 0;
        proof {
            reveal(Seq::filter);
            assert(self@.take(0) =~= Seq::<Peer<S>>::empty());
            assert(out@ =~= idle_ips(self@.take(0)));
        }
        while k < n
            invariant
                0 <= k <= n,
                n == self@.len(),
                out@ == idle_ips(self@.take(k as int)),
            decreases n - k,
        {
            let ghost prefix = self@.take(k as int);
            let ghost next = self@.take(k as int + 1);
            proof {
                reveal(Seq::filter);
                assert(next.drop_last() =~= prefix);
                assert(next.last() == self@[k as int]);
            }
            match self.peers[k].status() {
                PeerStatus::Idle => {
                    out.push(self.peers[k].ip);
                    proof {
                        assert(idle_ips(next) =~= idle_ips(prefix).push(self@[k as int].ip));
                    }
                },
                _ => {
                    proof {
                        assert(idle_ips(next) =~= idle_ips(prefix));
                    }
                },
            }
            k = k + 1;
        }
        proof {
            assert(self@.take(n as int) =~= self@);
        }
        out
    }

    /// The peers currently alive in either direction, in row order, for
    /// health queries and peer-list exchange.
    pub fn good_peer_ips(&self) -> (r: Vec<Ip>)
        requires
            self.wf(),
        ensures
            r@ == alive_ips(self@),
    {
        let n = self.peers.len();
        let mut out: Vec<Ip> = Vec::new();
        let mut k: usize = 0;
        proof {
            reveal(Seq::filter);
            assert(self@.take(0) =~= Seq::<Peer<S>>::empty());
            assert(out@ =~= alive_ips(self@.take(0)));
        }
        while k < n
            invariant
                0 <= k <= n,
                n == self@.len(),
                out@ == alive_ips(self@.take(k as int)),
            decreases n - k,
        {
            let ghost prefix = self@.take(k as int);
            let ghost next = self@.take(k as int + 1);
            proof {
                reveal(Seq::filter);
                assert(next.drop_last() =~= prefix);
                assert(next.last() == self@[k as int]);
            }
            match self.peers[k].status() {
                PeerStatus::OutAlive | PeerStatus::InAlive => {
                    out.push(self.peers[k].ip);
                    proof {
                        assert(alive_ips(next) =~= alive_ips(prefix).push(self@[k as int].ip));
                    }
                },
                _ => {
                    proof {
                        assert(alive_ips(next) =~= alive_ips(prefix));
                    }
                },
            }
            k = k + 1;
        }
        proof {
            assert(self@.take(n as int) =~= self@);
        }
        out
    }
}

} // verus!
