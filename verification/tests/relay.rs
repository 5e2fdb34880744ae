use etr::forward::ForwardSpec;
use etr::protocol::{Payload, StreamOpen, UdpDatagram};
use etr::relay::{
    client_target, has_sender, listen_addresses, needs_new_stream, open_forward, open_x11, server_target,
    SenderTable, StreamTarget, SENDER_IDLE_MS,
};

fn opening(text: &str) -> StreamOpen {
    match open_forward(&ForwardSpec::parse(text).unwrap()).payload {
        Some(Payload::StreamOpen(so)) => so,
        other => panic!("unexpected payload {other:?}"),
    }
}

#[test]
fn forwards_reach_their_targets() {
    let tcp = opening("1:host:80");
    assert_eq!((tcp.stream_type, tcp.forward_proto), (1, 0));
    assert!(matches!(server_target(&tcp), StreamTarget::Tcp(a) if a == "host:80"));
    let udp = opening("1:[::1]:53/udp");
    assert!(matches!(client_target(&udp), StreamTarget::Udp(a) if a == "[::1]:53"));
}

#[test]
fn unknown_protocols_count_as_tcp() {
    let so = StreamOpen { forward_proto: 7, ..opening("1:h:2/udp") };
    assert!(matches!(server_target(&so), StreamTarget::Tcp(_)));
}

#[test]
fn x11_streams_lead_to_the_display() {
    let Some(Payload::StreamOpen(so)) = open_x11().payload else {
        panic!("not a stream opening");
    };
    assert!(matches!(client_target(&so), StreamTarget::X11));
    assert!(matches!(server_target(&so), StreamTarget::Tcp(a) if a == ":0"));
}

#[test]
fn listeners_get_address_and_port() {
    let spec = ForwardSpec::parse("8080:h:1").unwrap();
    assert_eq!(listen_addresses(&spec, false), vec!["127.0.0.1:8080", "[::1]:8080"]);
    assert_eq!(listen_addresses(&spec, true), vec!["[::]:8080"]);
}

#[test]
fn streams_belong_to_one_connection() {
    assert!(needs_new_stream(false, Some(1), 1));
    assert!(needs_new_stream(true, None, 1));
    assert!(needs_new_stream(true, Some(2), 1));
    assert!(!needs_new_stream(true, Some(1), 1));
}

#[test]
fn every_sender_has_its_own_socket() {
    let mut t = SenderTable::new();
    assert_eq!(t.route("10.0.0.1", 5, 0), None);
    assert_eq!(t.insert("10.0.0.1", 5, 0), 0);
    assert_eq!(t.route("10.0.0.1", 6, 0), None);
    assert_eq!(t.insert("10.0.0.1", 6, 0), 1);
    assert_eq!(t.route("10.0.0.1", 5, 10), Some(0));
    assert_eq!(t.route("10.0.0.1", 6, 10), Some(1));
    assert_eq!(t.route("10.0.0.2", 5, 10), None);
}

#[test]
fn silent_senders_are_evicted() {
    let mut t = SenderTable::new();
    t.insert("a", 1, 0);
    t.insert("b", 1, 0);
    assert_eq!(t.route("b", 1, 100), Some(1));
    assert!(t.evict(SENDER_IDLE_MS - 1).is_empty());
    assert_eq!(t.evict(SENDER_IDLE_MS), vec![0]);
    assert_eq!(t.route("a", 1, SENDER_IDLE_MS), None);
    assert_eq!(t.insert("a", 1, SENDER_IDLE_MS), 2);
    assert_eq!(t.evict(SENDER_IDLE_MS + 100), vec![1]);
    // A clock that runs backwards evicts nobody.
    assert!(t.evict(0).is_empty());
}

#[test]
fn a_datagram_needs_a_sender() {
    let mut dg = UdpDatagram { data: vec![1], peer_addr: "192.0.2.1".into(), peer_port: 53 };
    assert!(has_sender(&dg));
    dg.peer_addr.clear();
    assert!(!has_sender(&dg));
}
