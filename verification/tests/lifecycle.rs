use fluxbridge::clipboard::{should_broadcast, ClipboardMonitor, ClipboardOrigin};
use fluxbridge::connection::{
    is_offerer, step, ConnectionEvent, ConnectionRegistry, ConnectionState, PeerConnection,
    SendFileError,
};
use fluxbridge::discovery::{normalize_hostname, Peer, PeerDirectory};
use fluxbridge::connection::ConnectionEvent as E;
use fluxbridge::connection::ConnectionState as S;

fn peer(name: &str, ip: &str) -> Peer {
    Peer {
        name: String::from(name),
        hostname: String::from("host.local."),
        ip: vec![String::from(ip)],
        port: 4821,
    }
}

#[test]
fn duplicate_resolution_keeps_one_entry() {
    let mut d = PeerDirectory::new();
    assert!(!d.apply_resolved(peer("alpha._fluxbridge._tcp.local.", "10.0.0.2")));
    assert!(d.apply_resolved(peer("alpha._fluxbridge._tcp.local.", "10.0.0.9")));
    assert_eq!(d.len(), 1);
    let name = String::from("alpha._fluxbridge._tcp.local.");
    let found = d.lookup(&name).expect("entry must exist");
    assert_eq!(found.ip, vec![String::from("10.0.0.9")]);
}

#[test]
fn removal_reports_exactly_once() {
    let mut d = PeerDirectory::new();
    d.apply_resolved(peer("a", "10.0.0.2"));
    d.apply_resolved(peer("b", "10.0.0.3"));
    let name = String::from("a");
    assert!(d.apply_removed(&name));
    assert!(!d.apply_removed(&name));
    assert_eq!(d.len(), 1);
    assert!(d.lookup(&name).is_none());
}

#[test]
fn hostname_normalization() {
    assert_eq!(normalize_hostname(String::from("box.local.")), "box.local.");
    assert_eq!(normalize_hostname(String::from("box.local")), "box.local.");
    assert_eq!(normalize_hostname(String::from("box")), "box.local.");
}

#[test]
fn poll_sequence_fires_exactly_two_local_events() {
    let mut m = ClipboardMonitor::new(String::from("A"));
    let polls = ["A", "A", "B", "B", "A"];
    let mut events = 0;
    for text in polls.iter() {
        if m.poll(String::from(*text), 0).is_some() {
            events += 1;
        }
    }
    assert_eq!(events, 2);
}

#[test]
fn empty_reads_are_ignored() {
    let mut m = ClipboardMonitor::new(String::from("x"));
    assert!(m.poll(String::from(""), 1).is_none());
    assert!(m.poll(String::from("y"), 2).is_some());
}

#[test]
fn remote_apply_suppresses_loop() {
    let mut m = ClipboardMonitor::new(String::from(""));
    let ev = m.apply_remote(String::from("hello"), String::from("peer-x"), 5);
    assert!(matches!(ev.origin, ClipboardOrigin::Remote(_)));
    assert!(!should_broadcast(&ev));
    // the next poll reads back the applied text: no new local event
    assert!(m.poll(String::from("hello"), 6).is_none());
    // a genuine local change afterwards still fires
    let local = m.poll(String::from("world"), 7).expect("local change");
    assert!(should_broadcast(&local));
}

#[test]
fn state_machine_walk() {
    assert_eq!(step(S::New, E::OfferSent), S::Offering);
    assert_eq!(step(S::New, E::OfferReceived), S::Answering);
    assert_eq!(step(S::Offering, E::AnswerReceived), S::Negotiating);
    assert_eq!(step(S::Answering, E::AnswerSent), S::Negotiating);
    assert_eq!(step(S::Negotiating, E::TransportConnected), S::Connected);
    assert_eq!(step(S::Connected, E::CloseRequested), S::Closed);
    assert_eq!(step(S::Connected, E::RemoteDisconnected), S::Closed);
    assert_eq!(step(S::Offering, E::TransportFailed), S::Failed);
    // candidates may arrive at any time without moving the state
    assert_eq!(step(S::Offering, E::CandidateReceived), S::Offering);
    assert_eq!(step(S::Negotiating, E::CandidateReceived), S::Negotiating);
    // terminal states absorb everything
    assert_eq!(step(S::Closed, E::OfferSent), S::Closed);
    assert_eq!(step(S::Failed, E::TransportConnected), S::Failed);
}

#[test]
fn registry_keeps_one_live_connection_per_peer() {
    let mut reg = ConnectionRegistry::new();
    let first = PeerConnection::new(String::from("peer-a"), 1, 8);
    assert!(!reg.register(first));
    let second = PeerConnection::new(String::from("peer-a"), 2, 8);
    assert!(reg.register(second));
    // the superseded connection is closed; only session 2 still handshakes
    assert!(!reg.accepts_session(1));
    assert!(reg.accepts_session(2));
    reg.prune_closed();
    assert_eq!(reg.conns.len(), 1);
    assert_eq!(reg.conns[0].session_id, 2);
}

#[test]
fn send_file_errors() {
    let mut reg = ConnectionRegistry::new();
    let unknown = String::from("nobody");
    assert_eq!(reg.send_file_target(&unknown), Err(SendFileError::UnknownPeer));
    let c = PeerConnection::new(String::from("peer-a"), 1, 8);
    reg.register(c);
    let name = String::from("peer-a");
    assert_eq!(reg.send_file_target(&name), Err(SendFileError::NotConnected));
}

#[test]
fn simultaneous_discovery_single_handshake() {
    let x_id = "alpha-device";
    let y_id = "beta-device";
    // only the lexicographically smaller id offers
    let x_offers = is_offerer(x_id, y_id);
    let y_offers = is_offerer(y_id, x_id);
    assert!(x_offers);
    assert!(!y_offers);

    // X dials and offers; Y waits for the offer and answers
    let mut x = PeerConnection::new(String::from(y_id), 11, 8);
    let mut y = PeerConnection::new(String::from(x_id), 11, 8);
    x.apply_event(E::OfferSent);
    y.apply_event(E::OfferReceived);
    x.apply_event(E::AnswerReceived);
    y.apply_event(E::AnswerSent);
    x.apply_event(E::TransportConnected);
    y.apply_event(E::TransportConnected);
    assert_eq!(x.state, S::Connected);
    assert_eq!(y.state, S::Connected);

    // X broadcasts "hello" on its clipboard channel
    let mut xreg = ConnectionRegistry::new();
    x.on_clipboard_open(1);
    xreg.register(x);
    let (delivered, dropped) = xreg.broadcast_clipboard(2);
    assert_eq!((delivered, dropped), (1, 0));

    // Y applies the received text and does not re-announce it
    let mut ymon = ClipboardMonitor::new(String::from(""));
    let ev = ymon.apply_remote(String::from("hello"), String::from(x_id), 3);
    assert!(!should_broadcast(&ev));
    assert_eq!(ymon.last_observed, "hello");
    assert!(ymon.poll(String::from("hello"), 4).is_none());
}

#[test]
fn clipboard_backpressure_drops_file_chunks_do_not() {
    let mut c = PeerConnection::new(String::from("slow-peer"), 1, 4);
    c.apply_event(E::OfferSent);
    c.apply_event(E::AnswerReceived);
    c.apply_event(E::TransportConnected);
    c.on_clipboard_open(0);
    c.on_file_open(0);

    let mut reg = ConnectionRegistry::new();
    reg.register(c);

    // 1000 broadcasts against a bound of 4 that never drains: 4 queued,
    // the rest dropped, nothing blocks and nothing panics
    let mut delivered = 0;
    let mut dropped = 0;
    for _ in 0..1000 {
        let (d, r) = reg.broadcast_clipboard(1);
        delivered += d;
        dropped += r;
    }
    assert_eq!(delivered, 4);
    assert_eq!(dropped, 996);

    // file chunks are never dropped: a refusal leaves the chunk with the
    // sender, which retries after the queue drains, so every chunk arrives
    let mut conn = reg.conns.pop().expect("connection");
    let mut receiver = fluxbridge::transfer::FileTransfer::begin_inbound(
        9,
        String::from("big.bin"),
        10,
        1,
        10,
    );
    let mut seq: usize = 0;
    let mut attempts = 0;
    while seq < 10 {
        attempts += 1;
        if conn.enqueue_file_chunk(1) {
            // chunk accepted by the queue: it will reach the peer in order
            assert!(receiver.apply_chunk(seq, vec![seq as u8]));
            seq += 1;
        } else {
            // queue full: drain one send and retry the same chunk
            conn.file_sent();
        }
        assert!(attempts < 100);
    }
    assert!(receiver.is_complete());
    let data = receiver.reassemble_file();
    assert_eq!(data, vec![0, 1, 2, 3, 4, 5, 6, 7, 8, 9]);
}
