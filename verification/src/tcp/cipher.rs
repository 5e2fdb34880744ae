//! Encryption of a TCP session: AES-256-GCM under a key derived from the passkey.
use vstd::prelude::*;
use vstd::utf8::encode_utf8;

use crate::bytes::{push_all, to_array32, to_vec};
use crate::crypto::aead::{opens, seals, Aes256GcmCipher, CipherValue};
use crate::crypto::kdf::{hkdf_sha256, hkdf_sha256_okm};
use crate::crypto::random::random_array16;
use crate::crypto::CryptoError;

verus! {

/// AES-256-GCM under the key of one session.
pub struct SessionCipher {
    cipher: Aes256GcmCipher,
}

/// The session key: derived from the passkey, salted with the client's nonce and the
/// server's, in this order.
pub open spec fn session_key(
    passkey: Seq<char>,
    client_nonce: Seq<u8>,
    server_nonce: Seq<u8>,
) -> Seq<u8> {
    hkdf_sha256_okm(
        encode_utf8(passkey),
        client_nonce + server_nonce,
        encode_utf8("etr-session-key"@),
        32,
    )
}

impl SessionCipher {
    /// The algorithm and key.
    pub closed spec fn view(self) -> CipherValue {
        CipherValue::Aes256Gcm(self.cipher@)
    }

    /// The cipher of the session with this passkey and these nonces.
    pub fn new(passkey: &str, client_nonce: &[u8; 16], server_nonce: &[u8; 16]) -> (r: Self)
        ensures
            r@ == CipherValue::Aes256Gcm(session_key(passkey@, client_nonce@, server_nonce@)),
    {
        let mut salt: Vec<u8> = to_vec(client_nonce.as_slice());
        push_all(&mut salt, server_nonce.as_slice());
        let okm = hkdf_sha256(
            passkey.as_bytes(),
            salt.as_slice(),
            "etr-session-key".as_bytes(),
            32,
        );
        let key: [u8; 32] = to_array32(okm.as_slice()).unwrap();
        Self::with_key(&key)
    }

    /// The cipher with the key `key`.
    pub fn with_key(key: &[u8; 32]) -> (r: Self)
        ensures
            r@ == CipherValue::Aes256Gcm(key@),
    {
        SessionCipher { cipher: Aes256GcmCipher::new(key) }
    }

    /// Encrypts `plaintext` as packet `seq_num`; a number must not be used twice.
    pub fn encrypt(&self, seq_num: u64, plaintext: &[u8]) -> (r: Result<Vec<u8>, CryptoError>)
        ensures
            seals(self@, seq_num, plaintext@, r),
    {
        self.cipher.encrypt(seq_num, plaintext)
    }

    /// Decrypts and authenticates `ciphertext` as packet `seq_num`.
    pub fn decrypt(&self, seq_num: u64, ciphertext: &[u8]) -> (r: Result<Vec<u8>, CryptoError>)
        ensures
            opens(self@, seq_num, ciphertext@, r),
    {
        self.cipher.decrypt(seq_num, ciphertext)
    }
}

/// A random nonce, for one half of the key material.
pub fn generate_nonce() -> (r: [u8; 16]) {
    random_array16()
}

/// The key of a TCP session rests on the passkey and both nonces, the client's first.
pub proof fn law_key_inputs(
    passkey: &str,
    client_nonce: [u8; 16],
    server_nonce: [u8; 16],
    r: SessionCipher,
)
    requires
        call_ensures(SessionCipher::new, (passkey, &client_nonce, &server_nonce), r),
    ensures
        r@ == CipherValue::Aes256Gcm(
            hkdf_sha256_okm(
                encode_utf8(passkey@),
                client_nonce@ + server_nonce@,
                encode_utf8("etr-session-key"@),
                32,
            ),
        ),
{
}

} // verus!
