use etr::crypto::aead::{seq_to_nonce, Aes256GcmCipher, ChaCha20Cipher};
use etr::crypto::AeadCipher;

fn aes_key() -> [u8; 32] {
    [0x42u8; 32]
}

fn cha_key() -> [u8; 32] {
    [0x99u8; 32]
}

fn alt_key() -> [u8; 32] {
    [0x01u8; 32]
}

#[test]
fn aes_round_trip() {
    let c = Aes256GcmCipher::new(&aes_key());
    let ct = c.encrypt(1, b"hello aes").unwrap();
    assert_eq!(c.decrypt(1, &ct).unwrap(), b"hello aes");
}

#[test]
fn aes_wrong_key_fails() {
    let enc = Aes256GcmCipher::new(&aes_key());
    let dec = Aes256GcmCipher::new(&alt_key());
    let ct = enc.encrypt(1, b"secret").unwrap();
    assert!(dec.decrypt(1, &ct).is_err());
}

#[test]
fn aes_mutated_ciphertext_fails() {
    let c = Aes256GcmCipher::new(&aes_key());
    let mut ct = c.encrypt(1, b"tamper me").unwrap();
    ct[0] ^= 0xFF;
    assert!(c.decrypt(1, &ct).is_err());
}

#[test]
fn aes_wrong_seq_fails() {
    let c = Aes256GcmCipher::new(&aes_key());
    let ct = c.encrypt(1, b"seq matters").unwrap();
    assert!(c.decrypt(2, &ct).is_err());
}

#[test]
fn aes_empty_plaintext_round_trip() {
    let c = Aes256GcmCipher::new(&aes_key());
    let ct = c.encrypt(0, b"").unwrap();
    assert_eq!(c.decrypt(0, &ct).unwrap(), b"");
}

#[test]
fn chacha_round_trip() {
    let c = ChaCha20Cipher::new(&cha_key());
    let ct = c.encrypt(7, b"hello chacha").unwrap();
    assert_eq!(c.decrypt(7, &ct).unwrap(), b"hello chacha");
}

#[test]
fn chacha_wrong_key_fails() {
    let enc = ChaCha20Cipher::new(&cha_key());
    let dec = ChaCha20Cipher::new(&alt_key());
    let ct = enc.encrypt(1, b"secret").unwrap();
    assert!(dec.decrypt(1, &ct).is_err());
}

#[test]
fn chacha_mutated_ciphertext_fails() {
    let c = ChaCha20Cipher::new(&cha_key());
    let mut ct = c.encrypt(3, b"tamper me").unwrap();
    *ct.last_mut().unwrap() ^= 0xFF;
    assert!(c.decrypt(3, &ct).is_err());
}

#[test]
fn chacha_wrong_seq_fails() {
    let c = ChaCha20Cipher::new(&cha_key());
    let ct = c.encrypt(10, b"seq matters").unwrap();
    assert!(c.decrypt(11, &ct).is_err());
}

#[test]
fn chacha_empty_plaintext_round_trip() {
    let c = ChaCha20Cipher::new(&cha_key());
    let ct = c.encrypt(0, b"").unwrap();
    assert_eq!(c.decrypt(0, &ct).unwrap(), b"");
}

#[test]
fn aead_cipher_aes_dispatch() {
    let c = AeadCipher::Aes256Gcm(Box::new(Aes256GcmCipher::new(&aes_key())));
    let ct = c.encrypt(5, b"dispatch").unwrap();
    assert_eq!(c.decrypt(5, &ct).unwrap(), b"dispatch");
}

#[test]
fn aead_cipher_chacha_dispatch() {
    let c = AeadCipher::ChaCha20Poly1305(ChaCha20Cipher::new(&cha_key()));
    let ct = c.encrypt(5, b"dispatch").unwrap();
    assert_eq!(c.decrypt(5, &ct).unwrap(), b"dispatch");
}

#[test]
fn seq_to_nonce_unique() {
    let n0 = seq_to_nonce(0);
    let n1 = seq_to_nonce(1);
    let nmax = seq_to_nonce(u64::MAX);
    assert_ne!(n0, n1);
    assert_ne!(n1, nmax);
}

#[test]
fn seq_to_nonce_big_endian() {
    let n = seq_to_nonce(1);
    // bytes 0-3 zero-padded; byte 11 == 1
    assert_eq!(&n[..4], &[0u8; 4]);
    assert_eq!(n[11], 1);
}

#[test]
fn nonces_spread_the_number_over_eight_bytes() {
    assert_eq!(seq_to_nonce(0x0102_0304_0506_0708), [0, 0, 0, 0, 1, 2, 3, 4, 5, 6, 7, 8]);
}

#[test]
fn ciphertext_carries_a_tag() {
    let c = AeadCipher::ChaCha20Poly1305(ChaCha20Cipher::new(&cha_key()));
    assert_eq!(c.encrypt(1, b"abc").unwrap().len(), 19);
    let c = Aes256GcmCipher::new(&aes_key());
    assert_eq!(c.encrypt(1, b"abc").unwrap().len(), 19);
    assert_ne!(&c.encrypt(1, b"abc").unwrap()[..3], b"abc");
}

#[test]
fn nothing_shorter_than_a_tag_decrypts() {
    for cipher in [
        AeadCipher::Aes256Gcm(Box::new(Aes256GcmCipher::new(&aes_key()))),
        AeadCipher::ChaCha20Poly1305(ChaCha20Cipher::new(&cha_key())),
    ] {
        assert!(cipher.decrypt(1, &[]).is_err());
        assert!(cipher.decrypt(1, &[0; 15]).is_err());
        let made = cipher.encrypt(1, b"ping").unwrap();
        assert_eq!(cipher.decrypt(1, &made).unwrap(), b"ping");
    }
}

#[test]
fn what_decrypts_encrypts_to_the_same_bytes() {
    for cipher in [
        AeadCipher::Aes256Gcm(Box::new(Aes256GcmCipher::new(&aes_key()))),
        AeadCipher::ChaCha20Poly1305(ChaCha20Cipher::new(&cha_key())),
    ] {
        let made = cipher.encrypt(9, b"the message").unwrap();
        let plain = cipher.decrypt(9, &made).unwrap();
        assert_eq!(cipher.encrypt(9, &plain).unwrap(), made);
        for i in 0..made.len() {
            let mut changed = made.clone();
            changed[i] ^= 1;
            assert!(cipher.decrypt(9, &changed).is_err());
        }
    }
}
