use std::collections::HashMap;

use etr::crypto::{AeadCipher, CipherSuiteId};
use etr::handshake::{choose_suite, process_client_hello, ClientHandshake, HandshakeError};
use etr::protocol::{
    ClientHello, Envelope, Heartbeat, Payload, ServerHello, FLAG_HANDSHAKE, PROTOCOL_VERSION,
};

fn simulate_handshake() -> (AeadCipher, AeadCipher) {
    let passkey = "test-passkey".to_string();
    let (client_hs, _header, client_envelope) =
        ClientHandshake::new(passkey.clone(), HashMap::new());
    let client_payload = client_envelope.encode_to_vec();
    let outcome =
        process_client_hello(&client_payload, HashMap::new(), |_sid| Some(passkey.clone()))
            .expect("server handshake should succeed");
    let (client_cipher, _suite, _server_acks) = client_hs
        .process_server_hello(&outcome.response_payload_bytes)
        .expect("client should accept ServerHello");
    (client_cipher, outcome.cipher)
}

fn hello() -> ClientHello {
    ClientHello {
        protocol_version: PROTOCOL_VERSION as u32,
        session_id: vec![0u8; 16],
        cipher_suites: vec![4],
        client_nonce: vec![0u8; 32],
        kem_public_key: vec![9u8; 32],
        last_received_seq: HashMap::new(),
    }
}

fn answer_to(hello: ClientHello) -> Result<CipherSuiteId, HandshakeError> {
    let env = Envelope { payload: Some(Payload::ClientHello(hello)) };
    process_client_hello(&env.encode_to_vec(), HashMap::new(), |_| Some("pk".into()))
        .map(|o| o.chosen_suite)
}

#[test]
fn test_handshake_derives_matching_keys() {
    let (client_cipher, server_cipher) = simulate_handshake();
    let ct = client_cipher.encrypt(1, b"ping").unwrap();
    let pt = server_cipher.decrypt(1, &ct).unwrap();
    assert_eq!(pt, b"ping");
}

#[test]
fn test_wrong_passkey_rejected() {
    let (_client_hs, _header, client_envelope) =
        ClientHandshake::new("correct".to_string(), HashMap::new());
    let client_payload = client_envelope.encode_to_vec();

    let result = process_client_hello(&client_payload, HashMap::new(), |_| {
        Some("wrong".to_string())
    });
    // Server will succeed (it doesn't know the key is wrong at this point),
    // but the client will fail to decrypt the ServerHello.
    let outcome = result.expect("server produces a response");

    let (client_hs2, _, client_envelope2) =
        ClientHandshake::new("correct".to_string(), HashMap::new());
    let _ = client_envelope2; // suppress warning

    // Simulate the client trying to decrypt with its own (different) nonce context.
    // In practice the client's nonce won't match so decryption fails.
    let tampered = {
        let mut b = outcome.response_payload_bytes.clone();
        if !b.is_empty() {
            b[0] ^= 0xFF;
        }
        b
    };
    let result = client_hs2.process_server_hello(&tampered);
    assert!(result.is_err());
}

#[test]
fn test_unknown_session_rejected() {
    let (_hs, _hdr, env) = ClientHandshake::new("pk".to_string(), HashMap::new());
    let payload = env.encode_to_vec();
    let result = process_client_hello(&payload, HashMap::new(), |_| None);
    assert!(matches!(result, Err(HandshakeError::UnknownSession)));
}

#[test]
fn test_malformed_packet_rejected() {
    let result = process_client_hello(b"\xFF\xFF\xFF garbage", HashMap::new(), |_| {
        Some("pk".into())
    });
    assert!(matches!(result, Err(HandshakeError::MalformedPacket)));
}

#[test]
fn test_empty_bytes_rejected() {
    // An empty protobuf decodes to an Envelope with no payload → UnexpectedPacket.
    let result = process_client_hello(&[], HashMap::new(), |_| Some("pk".into()));
    assert!(matches!(result, Err(HandshakeError::UnexpectedPacket)));
}

#[test]
fn test_unexpected_packet_type_rejected() {
    // Send a Heartbeat where a ClientHello is expected.
    let env = Envelope {
        payload: Some(Payload::Heartbeat(Heartbeat::default())),
    };
    let payload = env.encode_to_vec();
    let result = process_client_hello(&payload, HashMap::new(), |_| Some("pk".into()));
    assert!(matches!(result, Err(HandshakeError::UnexpectedPacket)));
}

#[test]
fn test_unsupported_suite_rejected() {
    let hello = ClientHello {
        protocol_version: PROTOCOL_VERSION as u32,
        session_id: vec![0u8; 16],
        cipher_suites: vec![0xDEAD_BEEF], // unknown suite
        client_nonce: vec![0u8; 32],
        kem_public_key: vec![0u8; 32],
        last_received_seq: HashMap::new(),
    };
    let env = Envelope {
        payload: Some(Payload::ClientHello(hello)),
    };
    let result =
        process_client_hello(&env.encode_to_vec(), HashMap::new(), |_| Some("pk".into()));
    assert!(matches!(result, Err(HandshakeError::UnsupportedSuite)));
}

#[test]
fn test_reconnect_last_received_seq_roundtrips() {
    let passkey = "passkey".to_string();
    // Simulate client having received up to seq 5 on stream 0.
    let client_last: HashMap<u32, u64> = [(0, 5)].into();
    let (_hs, _hdr, env) = ClientHandshake::new(passkey.clone(), client_last.clone());

    let outcome = process_client_hello(&env.encode_to_vec(), HashMap::new(), |_| {
        Some(passkey.clone())
    })
    .unwrap();

    assert_eq!(outcome.client_last_received, client_last);
}

#[test]
fn test_server_last_received_seq_roundtrips() {
    let passkey = "passkey".to_string();
    let server_last: HashMap<u32, u64> = [(0, 10)].into();
    let (_hs, _hdr, env) = ClientHandshake::new(passkey.clone(), HashMap::new());

    let outcome = process_client_hello(&env.encode_to_vec(), server_last.clone(), |_| {
        Some(passkey.clone())
    })
    .unwrap();

    // The server's last_received map must appear in ServerHello so the client
    // can trim its send history — verify it survives the encode/decode cycle.
    let (_, _suite, server_acks) = _hs
        .process_server_hello(&outcome.response_payload_bytes)
        .unwrap();
    assert_eq!(server_acks, server_last);
}

#[test]
fn the_first_supported_suite_is_chosen() {
    assert_eq!(choose_suite(&vec![1, 99, 4, 3]), Some(CipherSuiteId::X25519ChaCha20Poly1305Sha256));
    assert_eq!(choose_suite(&vec![]), None);
    assert_eq!(answer_to(hello()).unwrap(), CipherSuiteId::X25519ChaCha20Poly1305Sha256);
}

#[test]
fn hellos_with_wrong_lengths_are_refused() {
    let bad = ClientHello { session_id: vec![0; 15], ..hello() };
    assert!(matches!(answer_to(bad), Err(HandshakeError::MalformedPacket)));
    let bad = ClientHello { client_nonce: vec![0; 31], ..hello() };
    assert!(matches!(answer_to(bad), Err(HandshakeError::MalformedPacket)));
    let bad = ClientHello { kem_public_key: vec![0; 33], ..hello() };
    assert!(matches!(answer_to(bad), Err(HandshakeError::AuthFailed)));
}

#[test]
fn a_handshake_is_announced_in_the_header() {
    let (hs, header, _) = ClientHandshake::reconnect([5; 16], "pk".into(), HashMap::new());
    assert_eq!(hs.session_id, [5; 16]);
    assert_eq!(header.session_id, [5; 16]);
    assert_eq!(header.flags, FLAG_HANDSHAKE);
    assert_eq!(header.packet_seq, 0);
    assert!(header.is_handshake());
}

#[test]
fn server_hellos_are_checked() {
    let client = || ClientHandshake::new("pk".into(), HashMap::new()).0;
    let server_hello = |suite: u32, nonce: usize, ct: usize| ServerHello {
        chosen_suite: suite,
        server_nonce: vec![1; nonce],
        kem_ciphertext: vec![9; ct],
        last_received_seq: HashMap::new(),
    };
    let refused = |sh: ServerHello| client().accept_server_hello(sh).err();
    assert_eq!(refused(server_hello(1, 32, 32)), Some(HandshakeError::UnsupportedSuite));
    assert_eq!(refused(server_hello(3, 31, 32)), Some(HandshakeError::MalformedPacket));
    assert_eq!(refused(server_hello(3, 32, 31)), Some(HandshakeError::AuthFailed));
    assert_eq!(refused(server_hello(3, 32, 32)), None);
    assert_eq!(
        client().process_server_hello(b"not encrypted").err(),
        Some(HandshakeError::AuthFailed)
    );
}

#[test]
fn handshake_errors_have_messages() {
    assert_eq!(HandshakeError::UnknownSession.message(), "unknown session ID");
    assert_eq!(HandshakeError::AuthFailed.message(), "authentication failed");
    assert_eq!(HandshakeError::UnsupportedSuite.message(), "no supported cipher suite");
    assert_eq!(HandshakeError::MalformedPacket.message(), "malformed packet");
    assert_eq!(HandshakeError::UnexpectedPacket.message(), "unexpected packet type");
    assert_eq!(HandshakeError::InternalError.message(), "internal handshake error");
}

#[test]
fn answers_that_do_not_open_are_refused() {
    let answer = |passkey: &str, envelope: &Envelope| {
        let server = passkey.to_string();
        process_client_hello(&envelope.encode_to_vec(), HashMap::new(), |_| Some(server.clone()))
            .unwrap()
            .response_payload_bytes
    };
    let (client, _, envelope) = ClientHandshake::new("pk".into(), HashMap::new());
    let other = answer("another", &envelope);
    assert_eq!(client.process_server_hello(&other).err(), Some(HandshakeError::AuthFailed));

    let (client, _, envelope) = ClientHandshake::new("pk".into(), HashMap::new());
    let mut changed = answer("pk", &envelope);
    changed[0] ^= 1;
    assert_eq!(client.process_server_hello(&changed).err(), Some(HandshakeError::AuthFailed));

    let (client, _, envelope) = ClientHandshake::new("pk".into(), HashMap::new());
    assert!(client.process_server_hello(&answer("pk", &envelope)).is_ok());
}
