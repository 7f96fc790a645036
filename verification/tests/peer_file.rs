use peernet::Ip;
use peernet::NetworkController;
use peernet::Peer;
use peernet::PeerStatus;
use peernet::PeersFileController;
use peernet::PeersFileControllerError;

fn ip_string(ip: &Ip) -> String {
    String::from_utf8(ip.format()).unwrap()
}

#[test]
fn test_read_file() {
    let input = "[\"192.168.1.1\", \"192.168.2.1\", \"192.168.3.1\"]".to_string();

    let (reg, _skipped) =
        PeersFileController::parse_peer::<u32>(input.as_bytes()).expect("A list of peers");
    let peers: Vec<String> = reg.snapshot_ips().iter().map(ip_string).collect();

    assert_eq!(3, peers.len());
    assert!(peers.contains(&String::from("192.168.1.1")));
    assert!(peers.contains(&String::from("192.168.2.1")));
    assert!(peers.contains(&String::from("192.168.3.1")));
}

#[test]
fn load_keeps_valid_entries_and_counts_malformed() {
    let data = b"[\"10.0.0.1\",\"bad-ip\",\"10.0.0.2\"]";
    let (reg, skipped) = PeersFileController::parse_peer::<u32>(data).unwrap();
    assert_eq!(reg.len(), 2);
    assert_eq!(skipped, 1);
    let first = reg.get(Ip::new(10, 0, 0, 1)).unwrap();
    assert_eq!(first.status(), PeerStatus::Idle);
    assert!(!first.has_socket());
    assert_eq!(first.last_alive(), None);
    assert_eq!(first.last_failure(), None);
    let second = reg.get(Ip::new(10, 0, 0, 2)).unwrap();
    assert_eq!(second.status(), PeerStatus::Idle);
    assert!(!second.has_socket());
}

#[test]
fn load_with_many_malformed_entries() {
    let data = b"[\"1.2.3.4\", \"nope\", \"256.1.1.1\", \"01.2.3.4\", \"5.6.7.8\", \"9.9.9\"]";
    let (reg, skipped) = PeersFileController::parse_peer::<u32>(data).unwrap();
    assert_eq!(reg.len(), 2);
    assert_eq!(skipped, 4);
    assert!(reg.get(Ip::new(1, 2, 3, 4)).is_some());
    assert!(reg.get(Ip::new(5, 6, 7, 8)).is_some());
}

#[test]
fn load_rejects_documents_that_are_not_string_arrays() {
    for data in [
        &b"{\"a\": 1}"[..],
        b"[\"unterminated",
        b"[\"a\", 5]",
        b"[\"a\" \"b\"]",
        b"",
        b"[] trailing",
        b"[\"with\\escape\"]",
    ] {
        let r = PeersFileController::parse_peer::<u32>(data);
        assert_eq!(r.unwrap_err(), PeersFileControllerError::Serialization);
    }
}

#[test]
fn load_accepts_whitespace_and_empty_arrays() {
    let (reg, skipped) = PeersFileController::parse_peer::<u32>(b" [ ] ").unwrap();
    assert_eq!(reg.len(), 0);
    assert_eq!(skipped, 0);

    let (reg, skipped) =
        PeersFileController::parse_peer::<u32>(b"\n[\t\"8.8.8.8\" ,\r\n \"1.1.1.1\"\n]\n").unwrap();
    assert_eq!(reg.len(), 2);
    assert_eq!(skipped, 0);
    assert!(reg.get(Ip::new(8, 8, 8, 8)).is_some());
    assert!(reg.get(Ip::new(1, 1, 1, 1)).is_some());
}

#[test]
fn load_deduplicates_repeated_addresses() {
    let data = b"[\"7.7.7.7\",\"7.7.7.7\",\"7.7.7.7\"]";
    let (reg, skipped) = PeersFileController::parse_peer::<u32>(data).unwrap();
    assert_eq!(reg.len(), 1);
    assert_eq!(skipped, 0);
}

#[test]
fn write_then_load_round_trips_the_address_set() {
    let ips = vec![
        Ip::new(10, 0, 0, 1),
        Ip::new(192, 168, 1, 1),
        Ip::new(255, 255, 255, 255),
        Ip::new(0, 0, 0, 0),
    ];
    let doc = PeersFileController::peers_json(&ips);
    let (reg, skipped) = PeersFileController::parse_peer::<u32>(doc.as_slice()).unwrap();
    assert_eq!(skipped, 0);
    assert_eq!(reg.snapshot_ips(), ips);
}

#[test]
fn written_document_matches_the_reference_json_encoder() {
    let ips = vec![Ip::new(10, 0, 0, 1), Ip::new(203, 0, 113, 5)];
    let doc = PeersFileController::peers_json(&ips);
    let strings: Vec<String> = ips.iter().map(ip_string).collect();
    let expected = serde_json::to_string(&strings).unwrap();
    assert_eq!(String::from_utf8(doc).unwrap(), expected);
}

#[test]
fn reference_encoded_documents_load_back() {
    let strings = vec!["4.3.2.1".to_string(), "bad".to_string(), "9.9.9.9".to_string()];
    let doc = serde_json::to_string(&strings).unwrap();
    let (reg, skipped) = PeersFileController::parse_peer::<u32>(doc.as_bytes()).unwrap();
    assert_eq!(reg.len(), 2);
    assert_eq!(skipped, 1);
    assert!(reg.get(Ip::new(4, 3, 2, 1)).is_some());
    assert!(reg.get(Ip::new(9, 9, 9, 9)).is_some());
}

fn fresh_controller(data: &[u8]) -> NetworkController<u32> {
    let target: Vec<Peer<u32>> = Vec::new();
    let (c, _skipped) =
        NetworkController::new("peers.json", data, 4242, target, 16, 8, 8, 100, 100, 10).unwrap();
    c
}

#[test]
fn clean_registry_ticks_without_writing() {
    let c = fresh_controller(b"[\"10.0.0.1\"]");
    assert!(c.persistence_tick().is_none());
    assert!(c.persistence_tick().is_none());
}

#[test]
fn one_mutation_means_one_write_until_it_lands() {
    let mut c = fresh_controller(b"[\"10.0.0.1\"]");
    c.add_peer("10.0.0.2", None).unwrap();
    let payload = c.persistence_tick().expect("a dirty registry must be written");
    assert_eq!(
        String::from_utf8(payload).unwrap(),
        "[\"10.0.0.1\",\"10.0.0.2\"]"
    );
    // The write failed: the flag stays set and the next tick retries.
    assert!(c.persistence_tick().is_some());
    // The write landed: the flag clears and the next tick is free.
    c.flush_written();
    assert!(c.persistence_tick().is_none());
}

#[test]
fn feedback_marks_the_registry_dirty() {
    let mut c = fresh_controller(b"[\"10.0.0.1\"]");
    assert!(c.persistence_tick().is_none());
    let ip = Ip::new(10, 0, 0, 1);
    // An ignored signal on an idle peer leaves the registry clean.
    assert!(!c.feedback_peer_closed(ip, 5));
    assert!(c.persistence_tick().is_none());
    // A ban is legal from any status and dirties the registry.
    assert!(c.feedback_peer_banned(ip, 6));
    assert!(c.persistence_tick().is_some());
}
