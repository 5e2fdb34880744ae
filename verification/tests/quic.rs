use etr::protocol::{Envelope, Heartbeat, Payload};
use etr::quic::{
    chunk_header, frame_len, generate_self_signed_cert, read_msg, read_pty_chunk, tls_info, CERT_NAME,
    write_msg, write_pty_chunk, FrameError, MIN_EXPECTED_FRAME_PAYLOAD, QUINN_ASSEMBLER_CHUNK_CAP,
    STREAM_RECEIVE_WINDOW, TAG_CONTROL, TAG_FORWARD, TAG_PTY,
};

#[test]
fn stream_window_cannot_exceed_assembler_chunk_cap() {
    let worst_case_chunks = STREAM_RECEIVE_WINDOW / MIN_EXPECTED_FRAME_PAYLOAD;
    assert!(worst_case_chunks < QUINN_ASSEMBLER_CHUNK_CAP);
}

#[test]
fn stream_window_keeps_a_safety_margin() {
    let worst_case_chunks = STREAM_RECEIVE_WINDOW / MIN_EXPECTED_FRAME_PAYLOAD;
    assert!(worst_case_chunks * 2 <= QUINN_ASSEMBLER_CHUNK_CAP);
}

#[test]
fn test_write_read_msg_round_trip() {
    let env = Envelope { payload: Some(Payload::Heartbeat(Heartbeat::default())) };
    let bytes = write_msg(&env);
    assert_eq!(bytes, vec![0, 0, 0, 2, 0x42, 0]);
    let got = read_msg(&bytes).unwrap().unwrap();
    assert_eq!(got, env);
}

#[test]
fn test_write_read_pty_chunk_round_trip() {
    let bytes = write_pty_chunk(42, b"hello pty");
    let (seq, data) = read_pty_chunk(&bytes).unwrap().unwrap();
    assert_eq!(seq, 42);
    assert_eq!(&data, b"hello pty");
    assert_eq!(&bytes[..12], &[0, 0, 0, 0, 0, 0, 0, 42, 0, 0, 0, 9]);
}

#[test]
fn test_read_msg_rejects_oversized_message() {
    let oversized_len: u32 = 4 * 1024 * 1024 + 1;
    let result = read_msg(&oversized_len.to_be_bytes());
    assert!(result.is_err(), "expected error for oversized message");
    assert_eq!(result.unwrap_err(), FrameError::TooLarge);
}

#[test]
fn test_read_pty_chunk_rejects_oversized_chunk() {
    let mut hdr = [0u8; 12];
    hdr[..8].copy_from_slice(&1u64.to_be_bytes());
    let oversized_len: u32 = 1024 * 1024 + 1;
    hdr[8..12].copy_from_slice(&oversized_len.to_be_bytes());
    let result = read_pty_chunk(&hdr);
    assert!(result.is_err(), "expected error for oversized PTY chunk");
    assert_eq!(result.unwrap_err(), FrameError::TooLarge);
    assert_eq!(chunk_header(&hdr), Err(FrameError::TooLarge));
}

#[test]
fn frames_that_end_early_are_told_apart() {
    assert!(read_msg(&[0, 0, 0]).unwrap().is_none());
    assert!(read_pty_chunk(&[0; 11]).unwrap().is_none());
    assert_eq!(read_msg(&[0, 0, 0, 2, 0x42]), Err(FrameError::Truncated));
    assert_eq!(read_msg(&[0, 0, 0, 1, 0x42]), Err(FrameError::Malformed));
    let bytes = write_pty_chunk(1, b"abc");
    assert_eq!(read_pty_chunk(&bytes[..14]), Err(FrameError::Truncated));
}

#[test]
fn frames_may_be_as_long_as_the_limit() {
    assert_eq!(frame_len(&[0, 0, 0, 10], 10), Ok(10));
    assert_eq!(frame_len(&[0, 0, 0, 11], 10), Err(FrameError::TooLarge));
}

#[test]
fn what_follows_a_frame_does_not_matter() {
    let env = Envelope { payload: None };
    let mut bytes = write_msg(&env);
    bytes.extend_from_slice(b"more");
    assert_eq!(read_msg(&bytes).unwrap().unwrap(), env);
    let mut bytes = write_pty_chunk(7, b"x");
    bytes.push(9);
    assert_eq!(read_pty_chunk(&bytes).unwrap(), Some((7, vec![b'x'])));
}

#[test]
fn test_cert_and_config_creation() {
    let (cert, key) = generate_self_signed_cert();
    let cert = rustls::pki_types::CertificateDer::from(cert);
    let key = rustls::pki_types::PrivateKeyDer::Pkcs8(key.into());
    assert!(quinn::ServerConfig::with_single_cert(vec![cert.clone()], key).is_ok());
    let mut roots = rustls::RootCertStore::empty();
    assert!(roots.add(cert).is_ok());
}

#[test]
fn tags_and_description() {
    assert_eq!((TAG_CONTROL, TAG_PTY, TAG_FORWARD), (1, 2, 3));
    assert_eq!(
        tls_info(),
        "TLS 1.3/QUIC \
         (AES-256-GCM-SHA384 | AES-128-GCM-SHA256 | ChaCha20-Poly1305-SHA256, \
         cert-pinned)"
    );
}

#[test]
fn the_certificate_is_for_its_name() {
    let (cert, key) = generate_self_signed_cert();
    let (other_cert, other_key) = generate_self_signed_cert();
    assert!(cert.windows(CERT_NAME.len()).any(|w| w == CERT_NAME.as_bytes()));
    assert_ne!(cert, other_cert);
    assert_ne!(key, other_key);
}
