use peernet::ChannelMessage;
use peernet::Feedback;
use peernet::Ip;
use peernet::NetworkController;
use peernet::NetworkControllerError;
use peernet::NetworkControllerEvent;
use peernet::Peer;
use peernet::PeerStatus;
use peernet::ip::parse_ip;

fn peer_with(status: PeerStatus, socket: Option<u32>) -> Peer<u32> {
    Peer {
        ip: Ip::new(10, 0, 0, 1),
        status,
        socket,
        last_alive: None,
        last_failure: None,
    }
}

const ALL_STATUSES: [PeerStatus; 7] = [
    PeerStatus::Idle,
    PeerStatus::OutConnecting,
    PeerStatus::OutHandshaking,
    PeerStatus::OutAlive,
    PeerStatus::InHandshaking,
    PeerStatus::InAlive,
    PeerStatus::Banned,
];

fn expected_transition(status: PeerStatus, signal: Feedback) -> Option<PeerStatus> {
    match signal {
        Feedback::Alive => match status {
            PeerStatus::OutHandshaking => Some(PeerStatus::OutAlive),
            PeerStatus::InHandshaking => Some(PeerStatus::InAlive),
            _ => None,
        },
        Feedback::Banned => Some(PeerStatus::Banned),
        Feedback::Failed => match status {
            PeerStatus::Banned => None,
            _ => Some(PeerStatus::Idle),
        },
        Feedback::Closed => match status {
            PeerStatus::OutAlive
            | PeerStatus::OutHandshaking
            | PeerStatus::InAlive
            | PeerStatus::InHandshaking => Some(PeerStatus::Idle),
            _ => None,
        },
    }
}

#[test]
fn every_unlisted_transition_is_ignored() {
    for status in ALL_STATUSES {
        for signal in [Feedback::Alive, Feedback::Banned, Feedback::Failed, Feedback::Closed] {
            let socket = match status {
                PeerStatus::OutHandshaking
                | PeerStatus::OutAlive
                | PeerStatus::InHandshaking
                | PeerStatus::InAlive => Some(9),
                _ => None,
            };
            let mut peer = peer_with(status, socket);
            let applied = peer.apply_feedback(signal, 77);
            match expected_transition(status, signal) {
                Some(next) => {
                    assert!(applied);
                    assert_eq!(peer.status(), next);
                }
                None => {
                    // A pair outside the enumerated transitions leaves the
                    // peer exactly as it was.
                    assert!(!applied);
                    assert_eq!(peer.status(), status);
                    assert_eq!(peer.has_socket(), socket.is_some());
                    assert_eq!(peer.last_alive(), None);
                    assert_eq!(peer.last_failure(), None);
                }
            }
        }
    }
}

#[test]
fn no_peer_holds_a_socket_while_idle_or_banned() {
    for status in ALL_STATUSES {
        for signal in [Feedback::Alive, Feedback::Banned, Feedback::Failed, Feedback::Closed] {
            let socket = match status {
                PeerStatus::OutHandshaking
                | PeerStatus::OutAlive
                | PeerStatus::InHandshaking
                | PeerStatus::InAlive => Some(9),
                _ => None,
            };
            let mut peer = peer_with(status, socket);
            peer.apply_feedback(signal, 77);
            if peer.has_socket() {
                assert!(!matches!(
                    peer.status(),
                    PeerStatus::Idle | PeerStatus::OutConnecting | PeerStatus::Banned
                ));
            }
        }
    }
}

fn fresh_controller(data: &[u8]) -> NetworkController<u32> {
    let target: Vec<Peer<u32>> = Vec::new();
    let (c, _skipped) =
        NetworkController::new("peers.json", data, 4242, target, 16, 8, 8, 100, 100, 10).unwrap();
    c
}

#[test]
fn failed_dial_returns_to_idle_with_failure_recorded() {
    let mut c = fresh_controller(b"[\"10.0.0.1\"]");
    let ip = Ip::new(10, 0, 0, 1);
    let candidates = c.dial_candidates();
    assert_eq!(candidates, vec![ip]);
    assert!(c.begin_dial(ip));
    assert_eq!(c.peers.get(ip).unwrap().status(), PeerStatus::OutConnecting);
    assert!(c.dial_failed(ip, 99));
    let peer = c.peers.get(ip).unwrap();
    assert_eq!(peer.status(), PeerStatus::Idle);
    assert_eq!(peer.last_failure(), Some(99));
    assert!(!peer.has_socket());
}

#[test]
fn inbound_accept_reaches_the_consumer_and_turns_alive() {
    let mut c = fresh_controller(b"[]");
    let ip = Ip::new(203, 0, 113, 5);
    let msg = ChannelMessage::Connection { ip, socket: 7u32, is_outgoing: false };
    let event = NetworkController::wait_event(Some(msg)).unwrap();
    let socket = match event {
        NetworkControllerEvent::CandidateConnection { ip: seen, socket, is_outgoing } => {
            assert_eq!(seen, ip);
            assert_eq!(socket, 7);
            assert!(!is_outgoing);
            socket
        }
    };

    c.add_peer("203.0.113.5", Some(socket)).unwrap();
    assert_eq!(c.peers.get(ip).unwrap().status(), PeerStatus::InHandshaking);
    assert!(c.feedback_peer_alive(ip, 123));
    let peer = c.peers.get(ip).unwrap();
    assert_eq!(peer.status(), PeerStatus::InAlive);
    assert_eq!(peer.last_alive(), Some(123));
    assert!(peer.has_socket());
}

#[test]
fn closed_channel_is_the_shutdown_signal() {
    let r = NetworkController::<u32>::wait_event(None);
    assert_eq!(r.unwrap_err(), NetworkControllerError::ClosedChanel);
}

#[test]
fn banning_an_alive_peer_clears_its_socket_and_stops_dialing() {
    let mut c = fresh_controller(b"[]");
    let ip = Ip::new(10, 0, 0, 1);
    c.add_peer("10.0.0.1", Some(5u32)).unwrap();
    assert!(c.feedback_peer_alive(ip, 1));
    let peer = c.peers.get(ip).unwrap();
    assert!(peer.has_socket());
    assert!(matches!(peer.status(), PeerStatus::InAlive));

    assert!(c.feedback_peer_banned(ip, 2));
    let peer = c.peers.get(ip).unwrap();
    assert_eq!(peer.status(), PeerStatus::Banned);
    assert!(!peer.has_socket());
    // A later dial pass must skip the banned peer.
    assert_eq!(c.dial_candidates(), Vec::<Ip>::new());
}

#[test]
fn banning_an_outbound_alive_peer() {
    let mut c = fresh_controller(b"[\"10.0.0.1\"]");
    let ip = Ip::new(10, 0, 0, 1);
    assert!(c.begin_dial(ip));
    assert!(c.dial_succeeded(ip));
    assert_eq!(c.peers.get(ip).unwrap().status(), PeerStatus::OutHandshaking);
    assert!(c.feedback_peer_alive(ip, 4));
    assert_eq!(c.peers.get(ip).unwrap().status(), PeerStatus::OutAlive);
    assert!(c.feedback_peer_banned(ip, 5));
    assert_eq!(c.peers.get(ip).unwrap().status(), PeerStatus::Banned);
    assert!(!c.peers.get(ip).unwrap().has_socket());
    assert!(c.dial_candidates().is_empty());
}

#[test]
fn good_peers_are_the_alive_ones() {
    let mut c = fresh_controller(b"[\"10.0.0.1\",\"10.0.0.2\",\"10.0.0.3\"]");
    let ip1 = Ip::new(10, 0, 0, 1);
    let ip2 = Ip::new(10, 0, 0, 2);
    assert!(c.get_good_peer_ips().is_empty());
    // One peer turns alive outbound, one inbound; the third stays idle.
    assert!(c.begin_dial(ip1));
    assert!(c.dial_succeeded(ip1));
    assert!(c.feedback_peer_alive(ip1, 1));
    c.add_peer("10.0.0.2", Some(2u32)).unwrap();
    assert!(c.feedback_peer_alive(ip2, 2));
    let good = c.get_good_peer_ips();
    assert_eq!(good.len(), 2);
    assert!(good.contains(&ip1));
    assert!(good.contains(&ip2));
    // A cleanly closed peer drops out of the healthy set.
    assert!(c.feedback_peer_closed(ip1, 3));
    assert_eq!(c.get_good_peer_ips(), vec![ip2]);
}

#[test]
fn unknown_addresses_are_ignored_not_fatal() {
    let mut c = fresh_controller(b"[]");
    let ip = Ip::new(10, 0, 0, 1);
    assert!(!c.feedback_peer_alive(ip, 1));
    assert!(!c.feedback_peer_banned(ip, 1));
    assert!(!c.feedback_peer_failed(ip, 1));
    assert!(!c.feedback_peer_closed(ip, 1));
    assert!(!c.begin_dial(ip));
    assert!(!c.dial_failed(ip, 1));
    assert!(!c.dial_succeeded(ip));
    assert!(c.persistence_tick().is_none());
}

#[test]
fn adding_an_invalid_address_is_rejected() {
    let mut c = fresh_controller(b"[]");
    let r = c.add_peer("not-an-address", None);
    assert_eq!(
        r.unwrap_err(),
        NetworkControllerError::PeerError(peernet::PeerError::IpAddressFormat)
    );
    assert_eq!(c.peers.len(), 0);
    assert!(c.persistence_tick().is_none());
}

#[test]
fn a_malformed_document_is_fatal_at_startup() {
    let target: Vec<Peer<u32>> = Vec::new();
    let r = NetworkController::new(
        "peers.json",
        b"not json at all",
        4242,
        target,
        16,
        8,
        8,
        100,
        100,
        10,
    );
    assert_eq!(
        r.unwrap_err(),
        NetworkControllerError::FileController(
            peernet::PeersFileControllerError::Serialization
        )
    );
}

#[test]
fn address_text_is_strictly_canonical() {
    assert_eq!(parse_ip(b"10.0.0.1"), Some(Ip::new(10, 0, 0, 1)));
    assert_eq!(parse_ip(b"0.0.0.0"), Some(Ip::new(0, 0, 0, 0)));
    assert_eq!(parse_ip(b"255.255.255.255"), Some(Ip::new(255, 255, 255, 255)));
    assert_eq!(parse_ip(b"256.0.0.1"), None);
    assert_eq!(parse_ip(b"01.2.3.4"), None);
    assert_eq!(parse_ip(b"1.2.3"), None);
    assert_eq!(parse_ip(b"1.2.3.4.5"), None);
    assert_eq!(parse_ip(b"1.2.3.4 "), None);
    assert_eq!(parse_ip(b""), None);
    assert_eq!(parse_ip(b"a.b.c.d"), None);
    assert_eq!(parse_ip(b"1..2.3"), None);
}

#[test]
fn formatting_parses_back_for_every_octet_value() {
    for v in 0u16..=255 {
        let ip = Ip::new(v as u8, 0, 128, 255 - v as u8);
        let text = ip.format();
        assert_eq!(parse_ip(text.as_slice()), Some(ip));
    }
}
