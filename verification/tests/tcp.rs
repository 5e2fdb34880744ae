use etr::crypto::CryptoError;
use etr::quic::FrameError;
use etr::tcp::cipher::{generate_nonce, SessionCipher};
use etr::tcp::frame::{read_frame_len, write_frame, MAX_FRAME};
use etr::tcp::packet::Packet;
use etr::tcp::session::SessionState;

#[test]
fn test_key_derivation_and_encryption() {
    let passkey = "supersecretpasskey123";
    let client_nonce = [1u8; 16];
    let server_nonce = [2u8; 16];

    // Derive cipher on client and server sides
    let client_cipher = SessionCipher::new(passkey, &client_nonce, &server_nonce);
    let server_cipher = SessionCipher::new(passkey, &client_nonce, &server_nonce);

    let plaintext = b"Hello, secure world!";
    let seq = 42;

    // Client encrypts
    let ciphertext = client_cipher
        .encrypt(seq, plaintext)
        .expect("Encryption should succeed");

    // Server decrypts with matching sequence
    let decrypted = server_cipher
        .decrypt(seq, &ciphertext)
        .expect("Decryption should succeed");
    assert_eq!(decrypted, plaintext);

    // Server decrypts with mismatched sequence (different nonce) - should fail
    let decrypt_bad_seq = server_cipher.decrypt(seq + 1, &ciphertext);
    assert!(
        decrypt_bad_seq.is_err(),
        "Decryption with incorrect sequence should fail"
    );

    // Decrypting corrupted ciphertext - should fail
    let mut corrupted = ciphertext.clone();
    if !corrupted.is_empty() {
        corrupted[0] ^= 0xFF; // Flip bits
    }
    let decrypt_corrupted = server_cipher.decrypt(seq, &corrupted);
    assert!(
        decrypt_corrupted.is_err(),
        "Decryption of corrupted ciphertext should fail"
    );
}

#[test]
fn test_generate_nonce() {
    let nonce1 = generate_nonce();
    let nonce2 = generate_nonce();
    assert_ne!(
        nonce1, nonce2,
        "Generated nonces should be random and unique"
    );
}

#[test]
fn test_wrong_passkey_fails_decryption() {
    let client_nonce = [3u8; 16];
    let server_nonce = [4u8; 16];

    let sender = SessionCipher::new("correct-passkey", &client_nonce, &server_nonce);
    let wrong = SessionCipher::new("wrong-passkey", &client_nonce, &server_nonce);

    let ciphertext = sender
        .encrypt(1, b"secret data")
        .expect("Encryption should succeed");

    let result = wrong.decrypt(1, &ciphertext);
    assert!(
        result.is_err(),
        "Decryption with a wrong passkey must fail authentication"
    );
}

#[test]
fn test_nonce_order_matters() {
    // Swapping client and server nonces produces a different key
    let client_nonce = [5u8; 16];
    let server_nonce = [6u8; 16];

    let correct = SessionCipher::new("passkey", &client_nonce, &server_nonce);
    let swapped = SessionCipher::new("passkey", &server_nonce, &client_nonce);

    let ct = correct
        .encrypt(1, b"payload")
        .expect("Encryption should succeed");

    assert!(
        swapped.decrypt(1, &ct).is_err(),
        "Swapped nonce order must produce a different key and fail"
    );
}

#[test]
fn a_key_makes_a_cipher() {
    let c = SessionCipher::with_key(&[3; 32]);
    let sealed = c.encrypt(9, b"x").unwrap();
    assert_eq!(SessionCipher::with_key(&[3; 32]).decrypt(9, &sealed).unwrap(), b"x");
    assert!(matches!(c.decrypt(9, &[]), Err(CryptoError::AeadFailure)));
}

#[test]
fn frames_carry_their_length() {
    let framed = write_frame(b"abc");
    assert_eq!(framed, vec![0, 0, 0, 3, b'a', b'b', b'c']);
    assert_eq!(read_frame_len(&framed[..4]), Ok(3));
    let over = (MAX_FRAME as u32 + 1).to_be_bytes();
    assert_eq!(read_frame_len(&over), Err(FrameError::TooLarge));
    assert_eq!(read_frame_len(&(MAX_FRAME as u32).to_be_bytes()), Ok(MAX_FRAME));
}

#[test]
fn tcp_history_is_limited_and_replayed() {
    let mut s = SessionState::new("me".into(), "pk".into());
    assert_eq!((s.next_out_seq, s.next_in_seq, s.max_history_size), (1, 1, 10_000));
    s.max_history_size = 2;
    for i in 1..=3u64 {
        s.record_send(i, vec![i as u8]);
    }
    assert_eq!(s.get_replay_packets(0), vec![(2, vec![2]), (3, vec![3])]);
    s.acknowledge_up_to(2);
    assert_eq!(s.get_replay_packets(0), vec![(3, vec![3])]);
    assert!(s.get_replay_packets(3).is_empty());
}

#[test]
fn packets_hold_what_they_are_given() {
    let p = Packet::TerminalData { seq_num: 4, data: vec![1, 2] };
    assert!(matches!(p, Packet::TerminalData { seq_num: 4, .. }));
}
