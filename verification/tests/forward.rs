use etr::forward::{
    datagram_peer_addr, peer_from_ip, split_ignoring_brackets, ForwardSpec, UdpFrameEncoder,
};
use etr::net::{IpAddress, SocketAddr};
use etr::protocol::{Envelope, ForwardProto, Payload, UdpDatagram};
use etr::x11::X11Display;

/// The socket address that `s` writes as `address:port`, IPv6 in brackets.
fn addr(s: &str) -> SocketAddr {
    let (ip, port) = s.rsplit_once(':').unwrap();
    let ip = ip.trim_start_matches('[').trim_end_matches(']');
    datagram_peer_addr(ip, port.parse().unwrap()).unwrap()
}

/// How an IP address is written.
fn ip_text(ip: &IpAddress) -> String {
    match ip {
        IpAddress::V4(o) => format!("{}.{}.{}.{}", o[0], o[1], o[2], o[3]),
        IpAddress::V6([0, 0, 0, 0, 0, 0, 0, 1]) => "::1".to_string(),
        IpAddress::V6([0x2001, 0xdb8, 0, 0, 0, 0, 0, 1]) => "2001:db8::1".to_string(),
        IpAddress::V6([0x2001, 0xdb8, 0, 0, 0, 0, 0xdead, 0xbeef]) => {
            "2001:db8::dead:beef".to_string()
        }
        IpAddress::V6([0xfe80, 0, 0, 0, 0, 0, 0, 1]) => "fe80::1".to_string(),
        _ => panic!("no text for {ip:?}"),
    }
}

/// A datagram framed through a whole envelope.
fn old_framed(peer: SocketAddr, payload: &[u8]) -> Vec<u8> {
    let env = Envelope {
        payload: Some(Payload::UdpDatagram(UdpDatagram {
            peer_addr: ip_text(&peer.ip),
            peer_port: peer.port as u32,
            data: payload.to_vec(),
        })),
    };
    let body = env.encode_to_vec();
    let mut out = Vec::with_capacity(4 + body.len());
    out.extend_from_slice(&(body.len() as u32).to_be_bytes());
    out.extend_from_slice(&body);
    out
}

#[test]
fn test_parse_basic_tcp() {
    let s = ForwardSpec::parse("8080:localhost:80").unwrap();
    assert_eq!(s.bind_address, None);
    assert_eq!(s.local_port, 8080);
    assert_eq!(s.remote_host, "localhost");
    assert_eq!(s.remote_port, 80);
    assert_eq!(s.proto, ForwardProto::Tcp);
}

#[test]
fn test_parse_explicit_tcp() {
    let s = ForwardSpec::parse("8080:localhost:80/tcp").unwrap();
    assert_eq!(s.proto, ForwardProto::Tcp);
}

#[test]
fn test_parse_udp() {
    let s = ForwardSpec::parse("5353:192.168.1.1:53/udp").unwrap();
    assert_eq!(s.local_port, 5353);
    assert_eq!(s.remote_host, "192.168.1.1");
    assert_eq!(s.remote_port, 53);
    assert_eq!(s.proto, ForwardProto::Udp);
}

#[test]
fn test_parse_ipv6_remote() {
    let s = ForwardSpec::parse("5432:[::1]:5432").unwrap();
    assert_eq!(s.remote_host, "[::1]");
    assert_eq!(s.remote_port, 5432);
}

#[test]
fn test_parse_ipv6_remote_udp() {
    let s = ForwardSpec::parse("1234:[::1]:5678/udp").unwrap();
    assert_eq!(s.remote_host, "[::1]");
    assert_eq!(s.proto, ForwardProto::Udp);
}

#[test]
fn test_parse_with_bind_address() {
    let s = ForwardSpec::parse("127.0.0.1:8080:localhost:80").unwrap();
    assert_eq!(s.bind_address, Some("127.0.0.1".to_string()));
    assert_eq!(s.local_port, 8080);
    assert_eq!(s.remote_host, "localhost");
    assert_eq!(s.remote_port, 80);

    let s = ForwardSpec::parse("[::1]:8080:localhost:80").unwrap();
    assert_eq!(s.bind_address, Some("[::1]".to_string()));
}

#[test]
fn test_parse_wildcard_bind_address() {
    let s = ForwardSpec::parse("*:8080:localhost:80").unwrap();
    assert_eq!(s.bind_address, Some("*".to_string()));
}

#[test]
fn test_get_bind_addresses() {
    // Default (no gateway): two loopback sockets.
    let s = ForwardSpec::parse("8080:localhost:80").unwrap();
    assert_eq!(s.get_bind_addresses(false), vec!["127.0.0.1", "[::1]"]);

    // Gateway flag: single dual-stack [::] socket.
    assert_eq!(s.get_bind_addresses(true), vec!["[::]"]);

    // Wildcard explicit bind address: single dual-stack [::] socket.
    let s = ForwardSpec::parse("*:8080:localhost:80").unwrap();
    assert_eq!(s.get_bind_addresses(false), vec!["[::]"]);

    // 0.0.0.0 explicit bind: single dual-stack [::] socket.
    let s = ForwardSpec::parse("0.0.0.0:8080:localhost:80").unwrap();
    assert_eq!(s.get_bind_addresses(false), vec!["[::]"]);

    // Specific IP explicit bind: returned as-is.
    let s = ForwardSpec::parse("192.168.1.50:8080:localhost:80").unwrap();
    assert_eq!(s.get_bind_addresses(false), vec!["192.168.1.50"]);
}

#[test]
fn test_parse_missing_remote_port() {
    assert!(ForwardSpec::parse("8080:localhost").is_err());
}

#[test]
fn test_parse_bad_local_port() {
    assert!(ForwardSpec::parse("notaport:localhost:80").is_err());
}

#[test]
fn test_parse_bad_remote_port() {
    assert!(ForwardSpec::parse("8080:localhost:notaport").is_err());
}

#[test]
fn test_parse_empty_host() {
    assert!(ForwardSpec::parse("8080::80").is_err());
}

#[test]
fn test_display() {
    let s = ForwardSpec::parse("8080:localhost:80").unwrap();
    assert_eq!(s.to_text(), "8080:localhost:80/tcp");
    let s = ForwardSpec::parse("53:dns.internal:53/udp").unwrap();
    assert_eq!(s.to_text(), "53:dns.internal:53/udp");
    let s = ForwardSpec::parse("127.0.0.1:8080:localhost:80").unwrap();
    assert_eq!(s.to_text(), "127.0.0.1:8080:localhost:80/tcp");
}

#[test]
fn test_split_ignoring_brackets_plain() {
    assert_eq!(split_ignoring_brackets("a:b:c"), vec!["a", "b", "c"]);
}

#[test]
fn test_split_ignoring_brackets_ipv6_host() {
    // Colons inside brackets must not be treated as separators.
    let parts = split_ignoring_brackets("8080:[::1]:80");
    assert_eq!(parts, vec!["8080", "[::1]", "80"]);
}

#[test]
fn test_split_ignoring_brackets_bind_and_ipv6() {
    let parts = split_ignoring_brackets("[::1]:9090:[::1]:80");
    assert_eq!(parts, vec!["[::1]", "9090", "[::1]", "80"]);
}

#[test]
fn test_split_ignoring_brackets_no_colon() {
    assert_eq!(split_ignoring_brackets("8080"), vec!["8080"]);
}

#[test]
fn test_split_ignoring_brackets_empty() {
    assert_eq!(split_ignoring_brackets(""), vec![""]);
}

#[test]
fn test_split_ignoring_brackets_trailing_colon() {
    // A trailing colon produces an empty final segment.
    let parts = split_ignoring_brackets("a:b:");
    assert_eq!(parts, vec!["a", "b", ""]);
}

#[test]
fn test_parse_display() {
    let d = X11Display::parse(":0").unwrap();
    assert_eq!(d, X11Display::Unix(0));
    assert_eq!(d.display_num(), 0);

    let d = X11Display::parse("unix:10.0").unwrap();
    assert_eq!(d, X11Display::Unix(10));
    assert_eq!(d.display_num(), 10);

    let d = X11Display::parse("localhost:10.0").unwrap();
    assert_eq!(d, X11Display::Tcp("localhost".to_string(), 6010));
    assert_eq!(d.display_num(), 10);

    let d = X11Display::parse("/tmp/launch-123/org.xquartz:0").unwrap();
    assert_eq!(
        d,
        X11Display::Path("/tmp/launch-123/org.xquartz:0".to_string())
    );
    assert_eq!(d.display_num(), 0);
}

#[test]
fn datagram_peer_addr_accepts_both_families() {
    assert_eq!(
        datagram_peer_addr("127.0.0.1", 53),
        Some(SocketAddr::new(IpAddress::V4([127, 0, 0, 1]), 53))
    );
    // Bare IPv6, no brackets -- which is how it travels on the wire.
    assert_eq!(
        datagram_peer_addr("::1", 5000),
        Some(SocketAddr::new(IpAddress::V6([0, 0, 0, 0, 0, 0, 0, 1]), 5000))
    );
}

#[test]
fn datagram_peer_addr_rejects_unusable_ports() {
    assert_eq!(datagram_peer_addr("127.0.0.1", 0), None, "port 0");
    assert_eq!(
        datagram_peer_addr("127.0.0.1", 65536),
        None,
        "just over u16"
    );
    assert_eq!(
        datagram_peer_addr("127.0.0.1", 4_294_967_295),
        None,
        "u32::MAX"
    );
    assert_eq!(65536u32 as u16, 0, "the truncation this guards against");
}

#[test]
fn datagram_peer_addr_rejects_non_addresses() {
    assert_eq!(datagram_peer_addr("", 53), None);
    assert_eq!(datagram_peer_addr("not-an-ip", 53), None);
    // A host name is not accepted: this field carries a literal, and resolving here would
    // put a DNS lookup on the per-datagram path.
    assert_eq!(datagram_peer_addr("localhost", 53), None);
    // Already-bracketed text is not what the wire carries, and must not be accepted as a
    // bare IP literal.
    assert_eq!(datagram_peer_addr("[::1]", 53), None);
}

#[test]
fn encoder_is_byte_identical_to_the_old_inline_path() {
    let mut enc = UdpFrameEncoder::new();
    let cases: Vec<(SocketAddr, Vec<u8>)> = vec![
        (addr("192.168.1.50:54321"), vec![0xAB; 1400]),
        (addr("127.0.0.1:53"), vec![0x00; 1]),
        // Empty payload: a real thing on the wire (a zero-length UDP datagram is legal).
        (addr("10.0.0.1:1"), Vec::new()),
        (addr("[::1]:5000"), vec![0xFF; 9000]),
        (
            addr("[2001:db8::dead:beef]:65535"),
            vec![0x7F; 64],
        ),
        // Largest payload a UDP datagram can carry over IPv4.
        (addr("172.16.0.9:9999"), vec![0x42; 65507]),
    ];
    for (peer, payload) in &cases {
        assert_eq!(
            enc.frame(*peer, payload),
            old_framed(*peer, payload).as_slice(),
            "framing differs for {peer:?} with a {}-byte payload",
            payload.len()
        );
    }
}

#[test]
fn encoder_handles_alternating_peers() {
    let mut enc = UdpFrameEncoder::new();
    let a: SocketAddr = addr("1.2.3.4:10");
    let b: SocketAddr = addr("[fe80::1]:20");
    for _ in 0..4 {
        assert_eq!(enc.frame(a, b"first"), old_framed(a, b"first").as_slice());
        assert_eq!(enc.frame(b, b"second"), old_framed(b, b"second").as_slice());
    }
}

#[test]
fn encoder_updates_port_when_only_the_port_changes() {
    let mut enc = UdpFrameEncoder::new();
    let p1: SocketAddr = addr("192.0.2.7:1000");
    let p2: SocketAddr = addr("192.0.2.7:2000");
    assert_eq!(enc.frame(p1, b"x"), old_framed(p1, b"x").as_slice());
    assert_eq!(enc.frame(p2, b"x"), old_framed(p2, b"x").as_slice());
}

#[test]
fn encoder_output_round_trips_through_the_decoder() {
    let mut enc = UdpFrameEncoder::new();
    let peer: SocketAddr = addr("[2001:db8::1]:4433");
    let payload = vec![0x5Au8; 1400];
    let framed = enc.frame(peer, &payload);

    let len = u32::from_be_bytes(framed[..4].try_into().unwrap()) as usize;
    assert_eq!(
        len,
        framed.len() - 4,
        "length prefix disagrees with the body"
    );

    let env = Envelope::decode(&framed[4..]).expect("body must decode");
    let Some(Payload::UdpDatagram(dg)) = env.payload else {
        panic!("decoded to the wrong payload variant");
    };
    assert_eq!(dg.data, payload);
    assert_eq!(datagram_peer_addr(&dg.peer_addr, dg.peer_port), Some(peer));
}

#[test]
fn framed_datagram_has_the_documented_layout() {
    let mut enc = UdpFrameEncoder::new();
    let framed = enc.frame(addr("1.2.3.4:10"), b"hi").to_vec();
    let mut expected = vec![0, 0, 0, 17, 0x62, 15, 0x0a, 2, b'h', b'i', 0x12, 7];
    expected.extend_from_slice(b"1.2.3.4");
    expected.extend_from_slice(&[0x18, 10]);
    assert_eq!(framed, expected);
    // The default encoder frames alike.
    assert_eq!(UdpFrameEncoder::default().frame(addr("1.2.3.4:10"), b"hi"), expected.as_slice());
}

#[test]
fn peers_without_an_address_are_dropped() {
    assert_eq!(peer_from_ip(None, 53), None);
    let ip = IpAddress::V4([10, 0, 0, 1]);
    assert_eq!(peer_from_ip(Some(ip), 65535), Some(SocketAddr::new(ip, 65535)));
    assert_eq!(peer_from_ip(Some(ip), 65536), None);
}

#[test]
fn refused_specifications_say_why() {
    assert_eq!(
        ForwardSpec::parse("8080:localhost").unwrap_err(),
        "invalid spec '8080:localhost': expected [bind_address:]local_port:remote_host:remote_port"
    );
    assert_eq!(
        ForwardSpec::parse("x:h:1").unwrap_err(),
        "invalid local port 'x' in spec 'x:h:1'"
    );
    assert_eq!(
        ForwardSpec::parse("1:h:65536/udp").unwrap_err(),
        "invalid remote port '65536' in spec '1:h:65536/udp'"
    );
    assert_eq!(ForwardSpec::parse("1::2").unwrap_err(), "empty remote host in spec '1::2'");
}

#[test]
fn ports_may_carry_a_plus_sign_and_leading_zeros() {
    let s = ForwardSpec::parse("+080:h:0443").unwrap();
    assert_eq!((s.local_port, s.remote_port), (80, 443));
    assert!(ForwardSpec::parse("+:h:1").is_err());
    assert!(ForwardSpec::parse("-1:h:1").is_err());
}

#[test]
fn specifications_survive_being_written() {
    for text in ["*:1:[::1]:2/udp", "3:a:4", "[fe80::1]:5:b:6/tcp"] {
        let s = ForwardSpec::parse(text).unwrap();
        let again = ForwardSpec::parse(&s.to_text()).unwrap();
        assert_eq!(again.to_text(), s.to_text());
        assert_eq!(again.bind_address, s.bind_address);
        assert_eq!(again.remote_host, s.remote_host);
        assert_eq!(again.proto, s.proto);
    }
}

#[test]
fn empty_bind_address_is_a_wildcard() {
    let s = ForwardSpec::parse(":1:h:2").unwrap();
    assert_eq!(s.bind_address, Some(String::new()));
    assert_eq!(s.get_bind_addresses(false), vec!["[::]"]);
}
