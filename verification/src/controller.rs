use vstd::prelude::*;

use crate::codec::json_doc_of;
use crate::codec::json_strings;
use crate::file::PeersFileController;
use crate::file::PeersFileControllerError;
use crate::file::fresh_peers;
use crate::file::ip_texts;
use crate::file::loaded_ips;
use crate::ip::Ip;
use crate::ip::ip_of_bytes;
use crate::message::ChannelMessage;
use crate::peer::Feedback;
use crate::peer::PeerError;
use crate::peer::Peer;
use crate::peer::PeerStatus;
use crate::peer::after_feedback;
use crate::peer::feedback_transition;
use crate::registry::PeerRegistry;
use crate::registry::ips_of;
use vstd::pervasive::unreached;
use vstd::string::StringSliceAdditionalSpecFns;

verus! {

/// Failures of the controller and its tasks.
#[derive(Clone, Copy, PartialEq, Eq, Structural, Debug)]
pub enum NetworkControllerError {
    /// The durable peer list failed.
    FileController(PeersFileControllerError),
    /// Socket or file input/output failed.
    Io,
    /// A prior holder of the registry lock panicked.
    RwLockPoisoned,
    /// A peer could not be managed.
    PeerError(PeerError),
    /// An event could not be delivered: the consumer is gone.
    ChannelError { peer_ip: Ip },
    /// The event channel is closed: every producer has exited.
    ClosedChanel,
}

/// What `wait_event` hands to the protocol layer: a fresh socket that still
/// needs its handshake.
#[derive(Debug)]
pub enum NetworkControllerEvent<S> {
    CandidateConnection { ip: Ip, socket: S, is_outgoing: bool },
}

/// The peer `add_peer` adopts: handshaking when it arrives with a socket,
/// idle when it is only an address to dial later.
pub open spec fn adopted_peer<S>(q: Ip, socket: Option<S>) -> Peer<S> {
    Peer {
        ip: q,
        status: if socket is Some {
            PeerStatus::InHandshaking
        } else {
            PeerStatus::Idle
        },
        socket,
        last_alive: None,
        last_failure: None,
    }
}

/// The core of the node's connection management: the registry of known
/// peers, the keeper of the durable peer list, and the configuration the
/// orchestration runs under. The asynchronous shell around it owns the
/// event channel and the long-lived tasks, and calls in here for every
/// decision.
#[derive(Debug)]
pub struct NetworkController<S> {
    pub file_controller: PeersFileController,
    pub peers: PeerRegistry<S>,
    pub target_outgoing_connections: Vec<Peer<S>>,
    pub listen_port: u16,
    pub max_incoming_connections: usize,
    pub max_simultaneous_outgoing_connection_attempts: usize,
    pub max_simultaneous_incoming_connection_attempts: usize,
    pub max_idle_peers: usize,
    pub max_banned_peers: usize,
    pub peer_file_dump_interval_seconds: u64,
}

/// The parts of a controller no registry or flag operation may touch.
pub open spec fn same_config<S>(a: NetworkController<S>, b: NetworkController<S>) -> bool {
    &&& a.file_controller.file_path == b.file_controller.file_path
    &&& a.target_outgoing_connections == b.target_outgoing_connections
    &&& a.listen_port == b.listen_port
    &&& a.max_incoming_connections == b.max_incoming_connections
    &&& a.max_simultaneous_outgoing_connection_attempts
        == b.max_simultaneous_outgoing_connection_attempts
    &&& a.max_simultaneous_incoming_connection_attempts
        == b.max_simultaneous_incoming_connection_attempts
    &&& a.max_idle_peers == b.max_idle_peers
    &&& a.max_banned_peers == b.max_banned_peers
    &&& a.peer_file_dump_interval_seconds == b.peer_file_dump_interval_seconds
}

impl<S> NetworkController<S> {
    pub open spec fn wf(self) -> bool {
        self.peers.wf()
    }

    /// Builds the controller from the bytes of the durable peer list (the
    /// shell reads the file and later starts the tasks). Fails exactly when
    /// the document is not an array of plain strings; a malformed address
    /// inside a well-formed document is skipped, never fatal.
    pub fn new(
        peers_file: &str,
        file_data: &[u8],
        listen_port: u16,
        target_outgoing_connections: Vec<Peer<S>>,
        max_incoming_connections: usize,
        max_simultaneous_outgoing_connection_attempts: usize,
        max_simultaneous_incoming_connection_attempts: usize,
        max_idle_peers: usize,
        max_banned_peers: usize,
        peer_file_dump_interval_seconds: u64,
    ) -> (r: Result<(NetworkController<S>, usize), NetworkControllerError>)
        ensures
            match r {
                Ok((c, skipped)) => {
                    &&& json_strings(file_data@) is Some
                    &&& c.wf()
                    &&& c.peers@ == fresh_peers::<S>(
                        loaded_ips(json_strings(file_data@).unwrap()),
                    )
                    &&& skipped as nat == crate::file::invalid_count(
                        json_strings(file_data@).unwrap(),
                    )
                    &&& !c.file_controller.dirty()
                    &&& c.file_controller.file_path@ == peers_file@
                    &&& c.target_outgoing_connections == target_outgoing_connections
                    &&& c.listen_port == listen_port
                    &&& c.max_incoming_connections == max_incoming_connections
                    &&& c.max_simultaneous_outgoing_connection_attempts
                        == max_simultaneous_outgoing_connection_attempts
                    &&& c.max_simultaneous_incoming_connection_attempts
                        == max_simultaneous_incoming_connection_attempts
                    &&& c.max_idle_peers == max_idle_peers
                    &&& c.max_banned_peers == max_banned_peers
                    &&& c.peer_file_dump_interval_seconds == peer_file_dump_interval_seconds
                },
                Err(e) => json_strings(file_data@) is None && e
                    == NetworkControllerError::FileController(
                    PeersFileControllerError::Serialization,
                ),
            },
    {
        let file_controller = PeersFileController::new(peers_file);
        let (peers, skipped) = match PeersFileController::parse_peer::<S>(file_data) {
            Ok(loaded) => loaded,
            Err(e) => {
                return Err(NetworkControllerError::FileController(e));
            },
        };
        Ok(
            (
                NetworkController {
                    file_controller,
                    peers,
                    target_outgoing_connections,
                    listen_port,
                    max_incoming_connections,
                    max_simultaneous_outgoing_connection_attempts,
                    max_simultaneous_incoming_connection_attempts,
                    max_idle_peers,
                    max_banned_peers,
                    peer_file_dump_interval_seconds,
                },
                skipped,
            ),
        )
    }

    /// Adopts a peer by address text, with the socket of an inbound
    /// candidate when there is one; replaces a peer already known under the
    /// address, and marks the registry dirty. Fails exactly on invalid
    /// address text, leaving everything unchanged.
    pub fn add_peer(&mut self, ip: &str, socket: Option<S>) -> (r: Result<
        (),
        NetworkControllerError,
    >)
        requires
            old(self).wf(),
        ensures
            final(self).wf(),
            same_config(*final(self), *old(self)),
            match r {
                Ok(()) => {
                    &&& ip_of_bytes(ip.spec_bytes()) is Some
                    &&& {
                        let q = ip_of_bytes(ip.spec_bytes()).unwrap();
                        if old(self).peers.contains_ip(q) {
                            final(self).peers@ == old(self).peers@.update(
                                old(self).peers.ip_index(q),
                                adopted_peer(q, socket),
                            )
                        } else {
                            final(self).peers@ == old(self).peers@.push(adopted_peer(q, socket))
                        }
                    }
                    &&& final(self).file_controller.dirty()
                },
                Err(e) => {
                    &&& ip_of_bytes(ip.spec_bytes()) is None
                    &&& e == NetworkControllerError::PeerError(PeerError::IpAddressFormat)
                    &&& *final(self) == *old(self)
                },
            },
    {
        let addr = match crate::ip::parse_ip(ip.as_bytes()) {
            Some(a) => a,
            None => {
                return Err(NetworkControllerError::PeerError(PeerError::IpAddressFormat));
            },
        };
        let status = match socket {
            Some(_) => PeerStatus::InHandshaking,
            None => PeerStatus::Idle,
        };
        let peer = Peer { ip: addr, status, socket, last_alive: None, last_failure: None };
        self.peers.insert_or_replace(peer);
        self.file_controller.changed();
        Ok(())
    }

    /// Applies one feedback signal to the peer with this address and, when
    /// it changed the peer, marks the registry dirty. An unknown address or
    /// an illegal transition changes nothing.
    pub fn feedback(&mut self, ip: Ip, f: Feedback, now: i64) -> (applied: bool)
        requires
            old(self).wf(),
        ensures
            final(self).wf(),
            same_config(*final(self), *old(self)),
            applied == (old(self).peers.contains_ip(ip) && feedback_transition(
                old(self).peers.peer_of(ip).status,
                f,
            ) is Some),
            old(self).peers.contains_ip(ip) ==> final(self).peers@ == old(self).peers@.update(
                old(self).peers.ip_index(ip),
                after_feedback(old(self).peers.peer_of(ip), f, now),
            ),
            !old(self).peers.contains_ip(ip) ==> final(self).peers@ == old(self).peers@,
            final(self).file_controller.dirty() == (old(self).file_controller.dirty() || applied),
    {
        let applied = self.peers.apply_feedback(ip, f, now);
        if applied {
            self.file_controller.changed();
        }
        applied
    }

    /// The protocol layer confirmed the handshake: the peer is alive.
    pub fn feedback_peer_alive(&mut self, ip: Ip, now: i64) -> (applied: bool)
        requires
            old(self).wf(),
        ensures
            final(self).wf(),
            same_config(*final(self), *old(self)),
            applied == (old(self).peers.contains_ip(ip) && feedback_transition(
                old(self).peers.peer_of(ip).status,
                Feedback::Alive,
            ) is Some),
            old(self).peers.contains_ip(ip) ==> final(self).peers@ == old(self).peers@.update(
                old(self).peers.ip_index(ip),
                after_feedback(old(self).peers.peer_of(ip), Feedback::Alive, now),
            ),
            !old(self).peers.contains_ip(ip) ==> final(self).peers@ == old(self).peers@,
            final(self).file_controller.dirty() == (old(self).file_controller.dirty() || applied),
    {
        self.feedback(ip, Feedback::Alive, now)
    }

    /// The protocol layer banned the peer: socket cleared, no automatic
    /// way back.
    pub fn feedback_peer_banned(&mut self, ip: Ip, now: i64) -> (applied: bool)
        requires
            old(self).wf(),
        ensures
            final(self).wf(),
            same_config(*final(self), *old(self)),
            applied == (old(self).peers.contains_ip(ip) && feedback_transition(
                old(self).peers.peer_of(ip).status,
                Feedback::Banned,
            ) is Some),
            old(self).peers.contains_ip(ip) ==> final(self).peers@ == old(self).peers@.update(
                old(self).peers.ip_index(ip),
                after_feedback(old(self).peers.peer_of(ip), Feedback::Banned, now),
            ),
            !old(self).peers.contains_ip(ip) ==> final(self).peers@ == old(self).peers@,
            final(self).file_controller.dirty() == (old(self).file_controller.dirty() || applied),
    {
        self.feedback(ip, Feedback::Banned, now)
    }

    /// The connection failed: back to idle with the failure recorded, never
    /// an automatic ban.
    pub fn feedback_peer_failed(&mut self, ip: Ip, now: i64) -> (applied: bool)
        requires
            old(self).wf(),
        ensures
            final(self).wf(),
            same_config(*final(self), *old(self)),
            applied == (old(self).peers.contains_ip(ip) && feedback_transition(
                old(self).peers.peer_of(ip).status,
                Feedback::Failed,
            ) is Some),
            old(self).peers.contains_ip(ip) ==> final(self).peers@ == old(self).peers@.update(
                old(self).peers.ip_index(ip),
                after_feedback(old(self).peers.peer_of(ip), Feedback::Failed, now),
            ),
            !old(self).peers.contains_ip(ip) ==> final(self).peers@ == old(self).peers@,
            final(self).file_controller.dirty() == (old(self).file_controller.dirty() || applied),
    {
        self.feedback(ip, Feedback::Failed, now)
    }

    /// The peer closed the connection cleanly: socket cleared, retry
    /// eligible; closing an already idle peer is a no-op, not an error.
    pub fn feedback_peer_closed(&mut self, ip: Ip, now: i64) -> (applied: bool)
        requires
            old(self).wf(),
        ensures
            final(self).wf(),
            same_config(*final(self), *old(self)),
            applied == (old(self).peers.contains_ip(ip) && feedback_transition(
                old(self).peers.peer_of(ip).status,
                Feedback::Closed,
            ) is Some),
            old(self).peers.contains_ip(ip) ==> final(self).peers@ == old(self).peers@.update(
                old(self).peers.ip_index(ip),
                after_feedback(old(self).peers.peer_of(ip), Feedback::Closed, now),
            ),
            !old(self).peers.contains_ip(ip) ==> final(self).peers@ == old(self).peers@,
            final(self).file_controller.dirty() == (old(self).file_controller.dirty() || applied),
    {
        self.feedback(ip, Feedback::Closed, now)
    }

    /// The peers currently alive in either direction, in registry order.
    pub fn get_good_peer_ips(&self) -> (r: Vec<Ip>)
        requires
            self.wf(),
        ensures
            r@ == crate::registry::alive_ips(self.peers@),
    {
        self.peers.good_peer_ips()
    }

    /// The addresses one dial pass may try: exactly the idle peers, in
    /// registry order.
    pub fn dial_candidates(&self) -> (r: Vec<Ip>)
        requires
            self.wf(),
        ensures
            r@ == crate::registry::idle_ips(self.peers@),
    {
        self.peers.dial_candidate_ips()
    }

    /// A dial attempt begins on this address.
    pub fn begin_dial(&mut self, ip: Ip) -> (applied: bool)
        requires
            old(self).wf(),
        ensures
            final(self).wf(),
            same_config(*final(self), *old(self)),
            final(self).file_controller.dirty() == old(self).file_controller.dirty(),
            applied == (old(self).peers.contains_ip(ip) && old(self).peers.peer_of(ip).status
                == PeerStatus::Idle),
            applied ==> final(self).peers@ == old(self).peers@.update(
                old(self).peers.ip_index(ip),
                (Peer { status: PeerStatus::OutConnecting, ..old(self).peers.peer_of(ip) }),
            ),
            !applied ==> final(self).peers@ == old(self).peers@,
    {
        self.peers.begin_dial(ip)
    }

    /// A dial attempt failed: the peer returns to idle with the failure
    /// recorded, and no event is emitted.
    pub fn dial_failed(&mut self, ip: Ip, now: i64) -> (applied: bool)
        requires
            old(self).wf(),
        ensures
            final(self).wf(),
            same_config(*final(self), *old(self)),
            final(self).file_controller.dirty() == old(self).file_controller.dirty(),
            applied == (old(self).peers.contains_ip(ip) && old(self).peers.peer_of(ip).status
                == PeerStatus::OutConnecting),
            applied ==> final(self).peers@ == old(self).peers@.update(
                old(self).peers.ip_index(ip),
                (Peer {
                    status: PeerStatus::Idle,
                    last_failure: Some(now),
                    ..old(self).peers.peer_of(ip)
                }),
            ),
            !applied ==> final(self).peers@ == old(self).peers@,
    {
        self.peers.dial_failed(ip, now)
    }

    /// A dial attempt produced a socket: the peer starts handshaking and
    /// the socket travels to the consumer in the connection event.
    pub fn dial_succeeded(&mut self, ip: Ip) -> (applied: bool)
        requires
            old(self).wf(),
        ensures
            final(self).wf(),
            same_config(*final(self), *old(self)),
            final(self).file_controller.dirty() == old(self).file_controller.dirty(),
            applied == (old(self).peers.contains_ip(ip) && old(self).peers.peer_of(ip).status
                == PeerStatus::OutConnecting),
            applied ==> final(self).peers@ == old(self).peers@.update(
                old(self).peers.ip_index(ip),
                (Peer { status: PeerStatus::OutHandshaking, ..old(self).peers.peer_of(ip) }),
            ),
            !applied ==> final(self).peers@ == old(self).peers@,
    {
        self.peers.dial_succeeded(ip)
    }

    /// Turns what the channel's consuming end received into the caller's
    /// event: a closed channel is the fatal shutdown signal, a connection
    /// becomes a candidate for the handshake.
    pub fn wait_event(received: Option<ChannelMessage<S>>) -> (r: Result<
        NetworkControllerEvent<S>,
        NetworkControllerError,
    >)
        requires
            received matches Some(m) ==> m is Connection,
        ensures
            received is None ==> r == Err::<NetworkControllerEvent<S>, NetworkControllerError>(
                NetworkControllerError::ClosedChanel,
            ),
            received matches Some(m) ==> (m matches ChannelMessage::Connection {
                ip,
                socket,
                is_outgoing,
            } ==> r == Ok::<NetworkControllerEvent<S>, NetworkControllerError>(
                NetworkControllerEvent::CandidateConnection { ip, socket, is_outgoing },
            )),
    {
        match received {
            None => Err(NetworkControllerError::ClosedChanel),
            Some(msg) => match msg {
                ChannelMessage::Connection { ip, socket, is_outgoing } => Ok(
                    NetworkControllerEvent::CandidateConnection { ip, socket, is_outgoing },
                ),
                _ => unreached(),
            },
        }
    }

    /// What one persistence tick must write: nothing when the registry is
    /// clean, else the current document of known addresses.
    pub fn persistence_tick(&self) -> (r: Option<Vec<u8>>)
        ensures
            r is Some <==> self.file_controller.dirty(),
            self.file_controller.dirty() ==> r.unwrap()@ == json_doc_of(
                ip_texts(ips_of(self.peers@)),
            ),
    {
        self.file_controller.tick_payload(&self.peers)
    }

    /// Records that a tick's write landed; only then does the dirty flag
    /// clear, so a failed write is retried on the next tick.
    pub fn flush_written(&mut self)
        requires
            old(self).wf(),
        ensures
            final(self).wf(),
            same_config(*final(self), *old(self)),
            final(self).peers@ == old(self).peers@,
            !final(self).file_controller.dirty(),
    {
        self.file_controller.written();
    }
}

} // verus!
