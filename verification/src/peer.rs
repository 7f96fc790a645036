use vstd::prelude::*;

use crate::ip::Ip;
use crate::ip::ip_of_bytes;
use crate::ip::parse_ip;
use vstd::string::StringSliceAdditionalSpecFns;

verus! {

/// Lifecycle status of a peer.
#[derive(Clone, Copy, PartialEq, Eq, Structural, Debug)]
pub enum PeerStatus {
    Idle,
    OutConnecting,
    OutHandshaking,
    OutAlive,
    InHandshaking,
    InAlive,
    Banned,
}

/// Outcome of a connection, reported back by the protocol layer.
#[derive(Clone, Copy, PartialEq, Eq, Structural, Debug)]
pub enum Feedback {
    Alive,
    Banned,
    Failed,
    Closed,
}

/// Error raised when a peer cannot be built.
#[derive(Clone, Copy, PartialEq, Eq, Structural, Debug)]
pub enum PeerError {
    /// The given text is not a valid address.
    IpAddressFormat,
}

/// The statuses during which a peer may hold an open socket.
pub open spec fn status_may_hold_socket(s: PeerStatus) -> bool {
    s == PeerStatus::OutAlive || s == PeerStatus::OutHandshaking || s == PeerStatus::InAlive
        || s == PeerStatus::InHandshaking
}

/// The legal feedback transitions of the peer lifecycle, and only these:
/// `Alive` promotes a handshaking peer to the matching alive status; `Closed`
/// demotes an alive or handshaking peer to `Idle`; `Banned` sends any status
/// to `Banned`; `Failed` demotes any status but `Banned` (which only an
/// external decision may clear) to `Idle`. Every other pair is ignored:
/// `None` means the peer must stay exactly as it was.
pub open spec fn feedback_transition(s: PeerStatus, f: Feedback) -> Option<PeerStatus> {
    match f {
        Feedback::Alive => match s {
            PeerStatus::OutHandshaking => Some(PeerStatus::OutAlive),
            PeerStatus::InHandshaking => Some(PeerStatus::InAlive),
            _ => None,
        },
        Feedback::Banned => Some(PeerStatus::Banned),
        Feedback::Failed => if s == PeerStatus::Banned {
            None
        } else {
            Some(PeerStatus::Idle)
        },
        Feedback::Closed => if status_may_hold_socket(s) {
            Some(PeerStatus::Idle)
        } else {
            None
        },
    }
}

/// Machine legality: a pair of status and signal outside the enumerated
/// transitions is ignored — the peer stays exactly as it was.
pub proof fn lemma_illegal_feedback_ignored<S>(p: Peer<S>, f: Feedback, now: i64)
    requires
        feedback_transition(p.status, f) is None,
    ensures
        after_feedback(p, f, now) == p,
{
}

/// One known remote node. `S` is the socket handle an established connection
/// hands over; the library never looks inside it. Timestamps are caller-
/// supplied clock readings.
#[derive(Debug)]
pub struct Peer<S> {
    pub ip: Ip,
    pub status: PeerStatus,
    pub socket: Option<S>,
    pub last_alive: Option<i64>,
    pub last_failure: Option<i64>,
}

/// A freshly known peer: idle, with no socket and no history.
pub open spec fn fresh_peer<S>(ip: Ip) -> Peer<S> {
    Peer { ip, status: PeerStatus::Idle, socket: None, last_alive: None, last_failure: None }
}

/// The peer after a feedback signal: unchanged if the transition is illegal,
/// else moved to the next status, with the socket cleared whenever the new
/// status may not hold one, and the matching timestamp recorded.
pub open spec fn after_feedback<S>(p: Peer<S>, f: Feedback, now: i64) -> Peer<S> {
    match feedback_transition(p.status, f) {
        None => p,
        Some(next) => Peer {
            ip: p.ip,
            status: next,
            socket: if status_may_hold_socket(next) {
                p.socket
            } else {
                None
            },
            last_alive: if f == Feedback::Alive {
                Some(now)
            } else {
                p.last_alive
            },
            last_failure: if f == Feedback::Failed {
                Some(now)
            } else {
                p.last_failure
            },
        },
    }
}

impl<S> Peer<S> {
    /// A peer never holds a socket while `Idle`, `OutConnecting` or `Banned`.
    pub open spec fn wf(self) -> bool {
        self.socket is Some ==> status_may_hold_socket(self.status)
    }

    /// Builds an idle peer from address text; rejects anything that is not
    /// a canonical dotted quad.
    pub fn new(ip: &str) -> (r: Result<Peer<S>, PeerError>)
        ensures
            match r {
                Ok(p) => ip_of_bytes(ip.spec_bytes()) == Some(p.ip) && p == fresh_peer::<S>(p.ip),
                Err(e) => ip_of_bytes(ip.spec_bytes()) is None && e == PeerError::IpAddressFormat,
            },
    {
        match parse_ip(ip.as_bytes()) {
            Some(addr) => Ok(
                Peer {
                    ip: addr,
                    status: PeerStatus::Idle,
                    socket: None,
                    last_alive: None,
                    last_failure: None,
                },
            ),
            None => Err(PeerError::IpAddressFormat),
        }
    }

    pub fn ip(&self) -> (r: &Ip)
        ensures
            *r == self.ip,
    {
        &self.ip
    }

    pub fn status(&self) -> (r: PeerStatus)
        ensures
            r == self.status,
    {
        self.status
    }

    pub fn last_alive(&self) -> (r: Option<i64>)
        ensures
            r == self.last_alive,
    {
        self.last_alive
    }

    pub fn last_failure(&self) -> (r: Option<i64>)
        ensures
            r == self.last_failure,
    {
        self.last_failure
    }

    pub fn has_socket(&self) -> (r: bool)
        ensures
            r == (self.socket is Some),
    {
        self.socket.is_some()
    }

    /// A dial attempt begins: the orchestrator takes an idle peer to
    /// `OutConnecting`.
    pub fn connecting(&mut self)
        requires
            old(self).status == PeerStatus::Idle,
            old(self).wf(),
        ensures
            final(self).wf(),
            *final(self) == (Peer { status: PeerStatus::OutConnecting, ..*old(self) }),
    {
        self.status = PeerStatus::OutConnecting;
    }

    /// A dial attempt fails: back to `Idle`, with the failure recorded.
    pub fn idle(&mut self, now: i64)
        requires
            old(self).status == PeerStatus::OutConnecting,
            old(self).wf(),
        ensures
            final(self).wf(),
            *final(self) == (Peer {
                status: PeerStatus::Idle,
                last_failure: Some(now),
                ..*old(self)
            }),
    {
        self.status = PeerStatus::Idle;
        self.last_failure = Some(now);
    }

    /// A socket was produced: the peer starts handshaking in the direction
    /// the socket came from.
    pub fn handshake(&mut self, is_outgoing: bool)
        requires
            old(self).status == (if is_outgoing {
                PeerStatus::OutConnecting
            } else {
                PeerStatus::Idle
            }),
            old(self).wf(),
        ensures
            final(self).wf(),
            *final(self) == (Peer {
                status: if is_outgoing {
                    PeerStatus::OutHandshaking
                } else {
                    PeerStatus::InHandshaking
                },
                ..*old(self)
            }),
    {
        match is_outgoing {
            true => self.status = PeerStatus::OutHandshaking,
            false => self.status = PeerStatus::InHandshaking,
        }
    }

    /// Applies one feedback signal; an illegal pair leaves the peer exactly
    /// as it was and reports that nothing happened.
    pub fn apply_feedback(&mut self, f: Feedback, now: i64) -> (applied: bool)
        requires
            old(self).wf(),
        ensures
            final(self).wf(),
            *final(self) == after_feedback(*old(self), f, now),
            applied == feedback_transition(old(self).status, f) is Some,
    {
        let next = match f {
            Feedback::Alive => match self.status {
                PeerStatus::OutHandshaking => Some(PeerStatus::OutAlive),
                PeerStatus::InHandshaking => Some(PeerStatus::InAlive),
                _ => None,
            },
            Feedback::Banned => Some(PeerStatus::Banned),
            Feedback::Failed => match self.status {
                PeerStatus::Banned => None,
                _ => Some(PeerStatus::Idle),
            },
            Feedback::Closed => match self.status {
                PeerStatus::OutAlive | PeerStatus::OutHandshaking | PeerStatus::InAlive
                    | PeerStatus::InHandshaking => Some(PeerStatus::Idle),
                _ => None,
            },
        };
        match next {
            None => false,
            Some(ns) => {
                self.status = ns;
                match ns {
                    PeerStatus::OutAlive | PeerStatus::OutHandshaking | PeerStatus::InAlive
                        | PeerStatus::InHandshaking => {
                    },
                    _ => {
                        self.socket = None;
                    },
                }
                match f {
                    Feedback::Alive => {
                        self.last_alive = Some(now);
                    },
                    Feedback::Failed => {
                        self.last_failure = Some(now);
                    },
                    _ => {
                    },
                }
                true
            },
        }
    }
}

} // verus!
