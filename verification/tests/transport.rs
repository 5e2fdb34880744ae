use etr::crypto::{
    derive_session_cipher, encapsulate, generate_nonce, AeadCipher, CipherSuiteId, KemKeyPair,
};
use etr::forward::datagram_peer_addr;
use etr::protocol::{Envelope, Heartbeat, PacketHeader, Payload, HEADER_SIZE, PROTOCOL_VERSION};
use etr::transport::{
    decode_data_packet, decode_plaintext_packet, encode_packet, parse_packet, TransportError,
};

fn make_cipher() -> AeadCipher {
    let suite = CipherSuiteId::X25519Aes256GcmSha256;
    let kp = KemKeyPair::generate(suite);
    let (ct, _server_secret) = encapsulate(suite, &kp.public_key_bytes()).unwrap();
    let client_secret = kp.decapsulate(&ct).unwrap();
    let cn = generate_nonce();
    let sn = generate_nonce();
    derive_session_cipher(suite, b"passkey", &client_secret, &cn, &sn)
}

fn heartbeat_envelope() -> Envelope {
    Envelope { payload: Some(Payload::Heartbeat(Heartbeat::default())) }
}

#[test]
fn decode_data_packet_round_trip() {
    let cipher = make_cipher();
    let envelope = heartbeat_envelope();
    let plaintext = envelope.encode_to_vec();
    let ciphertext = cipher.encrypt(42, &plaintext).unwrap();
    let decoded = decode_data_packet(&ciphertext, 42, &cipher).unwrap();
    assert!(matches!(decoded.payload, Some(Payload::Heartbeat(_))));
}

#[test]
fn decode_data_packet_wrong_key_fails() {
    let enc_cipher = make_cipher();
    let dec_cipher = make_cipher(); // independent key
    let plaintext = heartbeat_envelope().encode_to_vec();
    let ciphertext = enc_cipher.encrypt(1, &plaintext).unwrap();
    assert!(decode_data_packet(&ciphertext, 1, &dec_cipher).is_err());
}

#[test]
fn decode_data_packet_mutated_ciphertext_fails() {
    let cipher = make_cipher();
    let plaintext = heartbeat_envelope().encode_to_vec();
    let mut ciphertext = cipher.encrypt(1, &plaintext).unwrap();
    ciphertext[0] ^= 0xFF;
    assert!(decode_data_packet(&ciphertext, 1, &cipher).is_err());
}

#[test]
fn decode_data_packet_wrong_seq_fails() {
    let cipher = make_cipher();
    let plaintext = heartbeat_envelope().encode_to_vec();
    let ciphertext = cipher.encrypt(1, &plaintext).unwrap();
    assert!(decode_data_packet(&ciphertext, 2, &cipher).is_err());
}

#[test]
fn decode_plaintext_packet_valid() {
    let env = heartbeat_envelope();
    let bytes = env.encode_to_vec();
    let decoded = decode_plaintext_packet(&bytes).unwrap();
    assert!(matches!(decoded.payload, Some(Payload::Heartbeat(_))));
}

#[test]
fn decode_plaintext_packet_invalid_protobuf_fails() {
    assert!(decode_plaintext_packet(b"\xFF\xFF\xFF\xFF garbage").is_err());
}

#[test]
fn decode_plaintext_packet_empty_bytes_gives_empty_envelope() {
    // Empty bytes decode to an Envelope with no payload (all fields optional in proto3).
    let decoded = decode_plaintext_packet(&[]).unwrap();
    assert!(decoded.payload.is_none());
}

#[test]
fn send_recv_plaintext_loopback() {
    let peer = datagram_peer_addr("127.0.0.1", 9).unwrap();
    let session_id = [1u8; 16];
    let header = PacketHeader::new(0, session_id, 7);
    let envelope = heartbeat_envelope();
    let bytes = encode_packet(&header, &envelope, None).unwrap();
    let pkt = parse_packet(peer, &bytes).unwrap();
    assert_eq!(pkt.peer, peer);
    assert_eq!(pkt.header.session_id, session_id);
    assert_eq!(pkt.header.packet_seq, 7);
    let decoded = decode_plaintext_packet(&pkt.payload_bytes).unwrap();
    assert_eq!(decoded.encode_to_vec(), envelope.encode_to_vec());
}

#[test]
fn send_recv_encrypted_loopback() {
    let peer = datagram_peer_addr("127.0.0.1", 9).unwrap();
    let cipher = make_cipher();
    let header = PacketHeader::new(0, [2u8; 16], 3);
    let envelope = heartbeat_envelope();
    let bytes = encode_packet(&header, &envelope, Some(&cipher)).unwrap();
    let pkt = parse_packet(peer, &bytes).unwrap();
    let decoded = decode_data_packet(&pkt.payload_bytes, 3, &cipher).unwrap();
    assert_eq!(decoded.encode_to_vec(), envelope.encode_to_vec());
}

#[test]
fn recv_packet_truncated_header_returns_none() {
    let peer = datagram_peer_addr("127.0.0.1", 9).unwrap();
    assert!(parse_packet(peer, &[0u8; 10]).is_none());
}

#[test]
fn headers_are_laid_out_in_26_bytes() {
    let bytes = PacketHeader::new(1, [7; 16], 0x0102).encode();
    assert_eq!(bytes.len(), HEADER_SIZE);
    assert_eq!(&bytes[..3], &[PROTOCOL_VERSION, 1, 7]);
    assert_eq!(&bytes[18..], &[0, 0, 0, 0, 0, 0, 1, 2]);
    assert_eq!(PacketHeader::decode(&bytes), Some(PacketHeader::new(1, [7; 16], 0x0102)));
    let mut other = bytes.clone();
    other[0] = PROTOCOL_VERSION + 1;
    assert_eq!(PacketHeader::decode(&other), None);
    assert_eq!(PacketHeader::decode(&bytes[..25]), None);
}

#[test]
fn unreadable_packets_say_why() {
    let cipher = make_cipher();
    let garbage = cipher.encrypt(4, b"\xff\xff").unwrap();
    assert_eq!(decode_data_packet(&garbage, 4, &cipher).err(), Some(TransportError::Malformed));
    assert_eq!(decode_data_packet(b"short", 4, &cipher).err(), Some(TransportError::Crypto));
}
