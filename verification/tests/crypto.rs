use etr::crypto::kdf::{hkdf_sha256, hkdf_sha3_256};
use etr::crypto::kyber::{encapsulate_1024, encapsulate_768, MlKem1024KeyPair, MlKem768KeyPair};
use etr::crypto::random::generate_passkey;
use etr::crypto::x25519::{self, X25519KeyPair};
use etr::crypto::{
    cipher_for, derive_hello_cipher, derive_session_cipher, encapsulate, generate_nonce,
    generate_session_id, AeadCipher, CipherSuiteId, CryptoError, KemKeyPair,
};

#[test]
fn test_x25519_round_trip() {
    let suite = CipherSuiteId::X25519Aes256GcmSha256;
    let client_kp = KemKeyPair::generate(suite);
    let (ct, server_secret) = encapsulate(suite, &client_kp.public_key_bytes()).unwrap();
    let client_secret = client_kp.decapsulate(&ct).unwrap();
    assert_eq!(client_secret, server_secret);
}

#[test]
fn test_session_cipher_encrypt_decrypt() {
    let suite = CipherSuiteId::X25519Aes256GcmSha256;
    let client_kp = KemKeyPair::generate(suite);
    let (ct, shared) = encapsulate(suite, &client_kp.public_key_bytes()).unwrap();
    let client_shared = client_kp.decapsulate(&ct).unwrap();

    let cn = generate_nonce();
    let sn = generate_nonce();
    let passkey = b"test-passkey";

    let enc = derive_session_cipher(suite, passkey, &shared, &cn, &sn);
    let dec = derive_session_cipher(suite, passkey, &client_shared, &cn, &sn);

    let ciphertext = enc.encrypt(1, b"hello").unwrap();
    let plaintext = dec.decrypt(1, &ciphertext).unwrap();
    assert_eq!(plaintext, b"hello");
}

#[test]
fn test_chacha20_round_trip() {
    let suite = CipherSuiteId::X25519ChaCha20Poly1305Sha256;
    let client_kp = KemKeyPair::generate(suite);
    let (ct, shared) = encapsulate(suite, &client_kp.public_key_bytes()).unwrap();
    let client_shared = client_kp.decapsulate(&ct).unwrap();
    let cn = generate_nonce();
    let sn = generate_nonce();
    let enc = derive_session_cipher(suite, b"pk", &shared, &cn, &sn);
    let dec = derive_session_cipher(suite, b"pk", &client_shared, &cn, &sn);
    let ct2 = enc.encrypt(42, b"chacha test").unwrap();
    assert_eq!(dec.decrypt(42, &ct2).unwrap(), b"chacha test");
}

#[test]
fn test_hello_cipher() {
    let passkey = b"my-passkey";
    let nonce = generate_nonce();
    let c1 = derive_hello_cipher(passkey, &nonce);
    let c2 = derive_hello_cipher(passkey, &nonce);
    let ct = c1.encrypt(0, b"server hello").unwrap();
    assert_eq!(c2.decrypt(0, &ct).unwrap(), b"server hello");
}

#[test]
fn test_wrong_passkey_fails() {
    let suite = CipherSuiteId::X25519Aes256GcmSha256;
    let kp = KemKeyPair::generate(suite);
    let (_, shared) = encapsulate(suite, &kp.public_key_bytes()).unwrap();
    let cn = generate_nonce();
    let sn = generate_nonce();
    let enc = derive_session_cipher(suite, b"right", &shared, &cn, &sn);
    let dec = derive_session_cipher(suite, b"wrong", &shared, &cn, &sn);
    let ct = enc.encrypt(1, b"secret").unwrap();
    assert!(dec.decrypt(1, &ct).is_err());
}

#[test]
fn round_trip_shared_secret() {
    let client = X25519KeyPair::generate();
    let (server_ct, server_secret) = x25519::encapsulate(&client.public_key_bytes()).unwrap();
    let client_secret = client.decapsulate(&server_ct).unwrap();
    assert_eq!(client_secret, server_secret);
    assert_eq!(client_secret.len(), 32);
}

#[test]
fn different_keypairs_different_secrets() {
    let c1 = X25519KeyPair::generate();
    let c2 = X25519KeyPair::generate();
    let (ct1, s1) = x25519::encapsulate(&c1.public_key_bytes()).unwrap();
    let (ct2, s2) = x25519::encapsulate(&c2.public_key_bytes()).unwrap();
    // Each encapsulation produces a unique shared secret and ciphertext.
    assert_ne!(s1, s2);
    assert_ne!(ct1, ct2);
}

#[test]
fn decapsulate_wrong_length_returns_invalid_key() {
    let client = X25519KeyPair::generate();
    assert!(matches!(
        client.decapsulate(&[0u8; 31]),
        Err(CryptoError::InvalidKey)
    ));
    assert!(matches!(
        client.decapsulate(&[0u8; 33]),
        Err(CryptoError::InvalidKey)
    ));
    assert!(matches!(
        client.decapsulate(&[]),
        Err(CryptoError::InvalidKey)
    ));
}

#[test]
fn encapsulate_wrong_length_returns_invalid_key() {
    assert!(matches!(
        x25519::encapsulate(&[0u8; 31]),
        Err(CryptoError::InvalidKey)
    ));
    assert!(matches!(x25519::encapsulate(&[]), Err(CryptoError::InvalidKey)));
}

#[test]
fn public_key_bytes_length() {
    let kp = X25519KeyPair::generate();
    assert_eq!(kp.public_key_bytes().len(), 32);
}

#[test]
fn suites_are_found_by_number() {
    assert_eq!(CipherSuiteId::from_u32(3), Some(CipherSuiteId::X25519Aes256GcmSha256));
    assert_eq!(CipherSuiteId::from_u32(4), Some(CipherSuiteId::X25519ChaCha20Poly1305Sha256));
    assert_eq!(CipherSuiteId::from_u32(0), None);
    assert_eq!(CipherSuiteId::from_u32(5), None);
    assert_eq!(CipherSuiteId::client_preference(), vec![3, 4]);
    assert_eq!(CipherSuiteId::X25519Aes256GcmSha256.as_u32(), 3);
    assert_eq!(CipherSuiteId::X25519Aes256GcmSha256.name(), "X25519+AES-256-GCM+SHA-256");
    assert_eq!(
        CipherSuiteId::X25519ChaCha20Poly1305Sha256.name(),
        "X25519+ChaCha20-Poly1305+SHA-256"
    );
    assert!(CipherSuiteId::X25519ChaCha20Poly1305Sha256.uses_chacha20());
    assert!(!CipherSuiteId::X25519Aes256GcmSha256.uses_sha3_kdf());
}

#[test]
fn suites_choose_the_cipher() {
    let key = [7u8; 32];
    let aes = cipher_for(CipherSuiteId::X25519Aes256GcmSha256, &key);
    assert!(matches!(aes, AeadCipher::Aes256Gcm(_)));
    let chacha = cipher_for(CipherSuiteId::X25519ChaCha20Poly1305Sha256, &key);
    assert!(matches!(chacha, AeadCipher::ChaCha20Poly1305(_)));
}

#[test]
fn hkdf_matches_its_first_test_vector() {
    let ikm = [0x0bu8; 22];
    let salt: Vec<u8> = (0x00..=0x0c).collect();
    let info: Vec<u8> = (0xf0..=0xf9).collect();
    let okm = hkdf_sha256(&ikm, &salt, &info, 42);
    assert_eq!(okm.len(), 42);
    assert_eq!(&okm[..8], &[0x3c, 0xb2, 0x5f, 0x25, 0xfa, 0xac, 0xd5, 0x7a]);
    assert_ne!(hkdf_sha3_256(&ikm, &salt, &info, 42), okm);
    assert_eq!(hkdf_sha3_256(&ikm, &salt, &info, 7).len(), 7);
}

#[test]
fn x25519_agrees_for_fixed_secrets() {
    let client = X25519KeyPair::from_secret([1u8; 32]);
    let (ct, server) = x25519::encapsulate_with([2u8; 32], &client.public_key_bytes()).unwrap();
    assert_eq!(client.decapsulate(&ct).unwrap(), server);
    assert_eq!(ct, X25519KeyPair::from_secret([2u8; 32]).public_key_bytes());
    assert_ne!(ct, vec![2u8; 32]);
}

#[test]
fn ml_kem_recovers_the_secret() {
    let pair = MlKem768KeyPair::generate();
    let (ct, secret) = encapsulate_768(&pair.encapsulation_key_bytes()).unwrap();
    assert_eq!((ct.len(), secret.len()), (1088, 32));
    assert_eq!(pair.decapsulate(&ct).unwrap(), secret);

    let pair = MlKem1024KeyPair::generate();
    let (ct, secret) = encapsulate_1024(&pair.encapsulation_key_bytes()).unwrap();
    assert_eq!((ct.len(), secret.len()), (1568, 32));
    assert_eq!(pair.decapsulate(&ct).unwrap(), secret);
}

#[test]
fn ml_kem_refuses_other_lengths() {
    assert!(matches!(encapsulate_768(&[0; 1183]), Err(CryptoError::InvalidKey)));
    assert!(matches!(encapsulate_1024(&[0; 1569]), Err(CryptoError::InvalidKey)));
    let pair = MlKem768KeyPair::generate();
    assert!(matches!(pair.decapsulate(&[]), Err(CryptoError::InvalidKey)));
    let pair = MlKem1024KeyPair::generate();
    assert!(matches!(pair.decapsulate(&[0; 1088]), Err(CryptoError::InvalidKey)));
}

#[test]
fn random_values_differ() {
    assert_ne!(generate_session_id(), generate_session_id());
    assert_ne!(generate_nonce(), generate_nonce());
    let passkey = generate_passkey();
    assert_eq!(passkey.len(), 32);
    assert!(passkey.chars().all(|c| c.is_ascii_alphanumeric()));
    assert_ne!(passkey, generate_passkey());
}

#[test]
fn errors_have_messages() {
    assert_eq!(CryptoError::AeadFailure.message(), "AEAD operation failed");
    assert_eq!(CryptoError::InvalidKey.message(), "Invalid key material");
}

#[test]
fn secrets_have_thirty_two_bytes() {
    for suite in
        [CipherSuiteId::X25519Aes256GcmSha256, CipherSuiteId::X25519ChaCha20Poly1305Sha256]
    {
        let pair = KemKeyPair::generate(suite);
        let (ct, secret) = encapsulate(suite, &pair.public_key_bytes()).unwrap();
        assert_eq!((ct.len(), secret.len()), (32, 32));
        assert_eq!(pair.decapsulate(&ct).unwrap(), secret);
        assert!(matches!(encapsulate(suite, &[0; 31]), Err(CryptoError::InvalidKey)));
        assert!(matches!(encapsulate(suite, &[]), Err(CryptoError::InvalidKey)));
    }
}
