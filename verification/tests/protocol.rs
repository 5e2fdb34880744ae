use std::collections::HashMap;

use etr::protocol::{
    ClientHello, Disconnect, Envelope, ForwardProto, Heartbeat, Payload, ServerHello, SessionAccept,
    SessionOpen, StreamClose, StreamOpen, StreamType, TerminalResize, UdpDatagram,
};

fn round_trip(p: Payload) {
    let env = Envelope { payload: Some(p) };
    let bytes = env.encode_to_vec();
    assert_eq!(Envelope::decode(&bytes).unwrap(), env);
}

fn acks() -> HashMap<u32, u64> {
    HashMap::from([(0, 5), (7, 0), (u32::MAX, u64::MAX)])
}

#[test]
fn every_message_is_read_back() {
    round_trip(Payload::ClientHello(ClientHello {
        protocol_version: 1,
        session_id: vec![1; 16],
        cipher_suites: vec![3, 4, 300],
        client_nonce: vec![2; 32],
        kem_public_key: vec![3; 200],
        last_received_seq: acks(),
    }));
    round_trip(Payload::ServerHello(ServerHello {
        chosen_suite: 4,
        server_nonce: vec![2; 32],
        kem_ciphertext: vec![],
        last_received_seq: acks(),
    }));
    round_trip(Payload::StreamOpen(StreamOpen {
        stream_id: 9,
        stream_type: -1,
        remote_host: "h\u{f6}st".into(),
        remote_port: 80,
        forward_proto: i32::MIN,
    }));
    round_trip(Payload::StreamClose(StreamClose { stream_id: 1, error_code: 2 }));
    round_trip(Payload::TerminalResize(TerminalResize { rows: 24, cols: 80 }));
    round_trip(Payload::Heartbeat(Heartbeat { last_received_seq: acks() }));
    round_trip(Payload::Disconnect(Disconnect {}));
    round_trip(Payload::SessionOpen(SessionOpen {
        session_id: vec![1; 16],
        passkey: "pk".into(),
        last_received_seq: acks(),
        reverse_forwards: vec!["1:a:2".into(), String::new()],
        gateway_ports: true,
        x11_enabled: true,
        x11_auth_proto: "MIT".into(),
        x11_auth_cookie: vec![0; 16],
    }));
    round_trip(Payload::SessionAccept(SessionAccept { last_received_seq: acks() }));
    round_trip(Payload::UdpDatagram(UdpDatagram {
        data: vec![0xff; 3],
        peer_addr: "::1".into(),
        peer_port: 53,
    }));
}

#[test]
fn messages_have_the_documented_field_numbers() {
    let bytes = |p: Payload| Envelope { payload: Some(p) }.encode_to_vec();
    let resize = bytes(Payload::TerminalResize(TerminalResize { rows: 24, cols: 300 }));
    assert_eq!(resize, vec![0x3a, 5, 0x08, 24, 0x10, 0xac, 0x02]);
    assert_eq!(bytes(Payload::Disconnect(Disconnect {})), vec![0x4a, 0]);
    let hb = Heartbeat { last_received_seq: HashMap::from([(1, 2)]) };
    assert_eq!(bytes(Payload::Heartbeat(hb)), vec![0x42, 6, 0x0a, 4, 0x08, 1, 0x10, 2]);
}

#[test]
fn unknown_fields_are_skipped() {
    // Field 100: a number, eight bytes, bytes, a group and four bytes; then a resize.
    let mut bytes = vec![0xa0, 0x06, 0x01];
    bytes.extend_from_slice(&[0xa1, 0x06, 1, 2, 3, 4, 5, 6, 7, 8]);
    bytes.extend_from_slice(&[0xa2, 0x06, 0x02, 9, 9]);
    bytes.extend_from_slice(&[0xa3, 0x06, 0x08, 0x01, 0xa4, 0x06]);
    bytes.extend_from_slice(&[0xa5, 0x06, 1, 2, 3, 4]);
    bytes.extend_from_slice(&[0x3a, 2, 0x08, 24]);
    let env = Envelope::decode(&bytes).unwrap();
    assert_eq!(
        env.payload,
        Some(Payload::TerminalResize(TerminalResize { rows: 24, cols: 0 }))
    );
}

#[test]
fn damaged_messages_are_refused() {
    // A field number of zero, an unknown wire type, an end without a group, a group without an
    // end, a length beyond the end, a number in place of a message, text that is not UTF-8.
    for bytes in [
        &[0x00u8, 0x00][..],
        &[0x0e][..],
        &[0xa4, 0x06][..],
        &[0xa3, 0x06, 0x08, 0x01][..],
        &[0x3a, 5, 0x08][..],
        &[0x38, 1][..],
        &[0x22, 3, 0x1a, 1, 0xff][..],
        &[0xff, 0xff, 0xff, 0xff, 0xff, 0xff, 0xff, 0xff, 0xff, 0xff, 0x01][..],
    ] {
        assert!(Envelope::decode(bytes).is_err(), "{bytes:?}");
    }
}

#[test]
fn the_last_payload_counts() {
    let resize = Envelope {
        payload: Some(Payload::TerminalResize(TerminalResize { rows: 1, cols: 2 })),
    };
    let end = Envelope { payload: Some(Payload::Disconnect(Disconnect {})) };
    let mut bytes = resize.encode_to_vec();
    bytes.extend_from_slice(&end.encode_to_vec());
    assert_eq!(Envelope::decode(&bytes).unwrap(), end);
    // A payload that repeats the one before is taken together with it.
    let mut bytes = resize.encode_to_vec();
    bytes.extend_from_slice(&[0x3a, 2, 0x08, 9]);
    assert_eq!(
        Envelope::decode(&bytes).unwrap().payload,
        Some(Payload::TerminalResize(TerminalResize { rows: 9, cols: 2 }))
    );
}

#[test]
fn numbers_may_be_packed_or_not() {
    let hello = |suites: &[u8]| {
        let mut body = suites.to_vec();
        body.extend_from_slice(&[0x08, 1]);
        let mut bytes = vec![0x0a, body.len() as u8];
        bytes.extend_from_slice(&body);
        match Envelope::decode(&bytes).unwrap().payload {
            Some(Payload::ClientHello(ch)) => ch.cipher_suites,
            other => panic!("unexpected payload {other:?}"),
        }
    };
    assert_eq!(hello(&[0x1a, 2, 3, 4]), vec![3, 4]);
    assert_eq!(hello(&[0x18, 3, 0x18, 4]), vec![3, 4]);
}

#[test]
fn enumerations_have_fixed_numbers() {
    assert_eq!(StreamType::Terminal.as_i32(), 0);
    assert_eq!(StreamType::PortForward.as_i32(), 1);
    assert_eq!(StreamType::X11.as_i32(), 2);
    assert_eq!((ForwardProto::Tcp.as_i32(), ForwardProto::Udp.as_i32()), (0, 1));
}
