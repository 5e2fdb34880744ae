//! Cipher suite negotiation, key exchange and session encryption.
//!
//! | Suite | Key exchange | Encryption        | Key derivation |
//! |-------|--------------|-------------------|----------------|
//! | 3     | X25519       | AES-256-GCM       | HKDF-SHA-256   |
//! | 4     | X25519       | ChaCha20-Poly1305 | HKDF-SHA-256   |
//!
//! The numbers 1 and 2 stand for suites with a post-quantum key exchange (ML-KEM-1024 and
//! ML-KEM-768), which is in [`kyber`] and is not negotiated.
pub mod aead;
pub mod kdf;
pub mod kyber;
pub mod random;
pub mod x25519;

pub use aead::AeadCipher;

use vstd::prelude::*;
use vstd::utf8::encode_utf8;

use crate::bytes::{push_all, to_array32, to_vec};
use aead::{Aes256GcmCipher, ChaCha20Cipher, CipherValue};
use kdf::{hkdf_sha256, hkdf_sha256_okm, hkdf_sha3_256, hkdf_sha3_256_okm};
use random::{random_array16, random_array32};
use x25519::{encapsulated_with, x25519_shared, X25519KeyPair};

verus! {

/// Why a cryptographic operation failed.
#[derive(Debug, Clone, Copy, PartialEq, Eq, Structural)]
pub enum CryptoError {
    /// Encryption or decryption failed.
    AeadFailure,
    /// A key has the wrong length.
    InvalidKey,
}

impl CryptoError {
    /// The message for this error.
    pub fn message(self) -> (r: &'static str)
        ensures
            r@ == (match self {
                CryptoError::AeadFailure => "AEAD operation failed"@,
                CryptoError::InvalidKey => "Invalid key material"@,
            }),
    {
        match self {
            CryptoError::AeadFailure => "AEAD operation failed",
            CryptoError::InvalidKey => "Invalid key material",
        }
    }
}

/// A cipher suite that can be negotiated.
#[derive(Debug, Clone, Copy, PartialEq, Eq, PartialOrd, Ord, Structural)]
pub enum CipherSuiteId {
    /// X25519, AES-256-GCM, SHA-256.
    X25519Aes256GcmSha256,
    /// X25519, ChaCha20-Poly1305, SHA-256.
    X25519ChaCha20Poly1305Sha256,
}

/// The suite with the number `v`, if there is one.
pub open spec fn suite_of(v: u32) -> Option<CipherSuiteId> {
    if v == 3 {
        Some(CipherSuiteId::X25519Aes256GcmSha256)
    } else if v == 4 {
        Some(CipherSuiteId::X25519ChaCha20Poly1305Sha256)
    } else {
        None
    }
}

impl CipherSuiteId {
    /// The suite's number.
    pub open spec fn number(self) -> u32 {
        match self {
            CipherSuiteId::X25519Aes256GcmSha256 => 3,
            CipherSuiteId::X25519ChaCha20Poly1305Sha256 => 4,
        }
    }

    /// The suite with the number `v`, if there is one.
    pub fn from_u32(v: u32) -> (r: Option<Self>)
        ensures
            r == suite_of(v),
    {
        if v == 3 {
            Some(CipherSuiteId::X25519Aes256GcmSha256)
        } else if v == 4 {
            Some(CipherSuiteId::X25519ChaCha20Poly1305Sha256)
        } else {
            None
        }
    }

    /// The suite's number.
    pub fn as_u32(self) -> (r: u32)
        ensures
            r == self.number(),
    {
        match self {
            CipherSuiteId::X25519Aes256GcmSha256 => 3,
            CipherSuiteId::X25519ChaCha20Poly1305Sha256 => 4,
        }
    }

    /// The numbers of the suites that a client offers, most preferred first.
    pub fn client_preference() -> (r: Vec<u32>)
        ensures
            r@ == offered(),
    {
        let mut suites: Vec<u32> = Vec::new();
        suites.push(CipherSuiteId::X25519Aes256GcmSha256.as_u32());
        suites.push(CipherSuiteId::X25519ChaCha20Poly1305Sha256.as_u32());
        assert(suites@ =~= offered());
        suites
    }

    /// The suite's name.
    pub fn name(self) -> (r: &'static str)
        ensures
            r@ == (match self {
                CipherSuiteId::X25519Aes256GcmSha256 => "X25519+AES-256-GCM+SHA-256"@,
                CipherSuiteId::X25519ChaCha20Poly1305Sha256 => "X25519+ChaCha20-Poly1305+SHA-256"@,
            }),
    {
        match self {
            CipherSuiteId::X25519Aes256GcmSha256 => "X25519+AES-256-GCM+SHA-256",
            CipherSuiteId::X25519ChaCha20Poly1305Sha256 => "X25519+ChaCha20-Poly1305+SHA-256",
        }
    }

    /// Whether the suite derives keys with SHA3-256; none that is negotiated does.
    pub open spec fn sha3_kdf(self) -> bool {
        false
    }

    /// Whether the suite derives keys with SHA3-256.
    pub fn uses_sha3_kdf(self) -> (r: bool)
        ensures
            r == self.sha3_kdf(),
    {
        false
    }

    /// Whether the suite encrypts with ChaCha20-Poly1305.
    pub open spec fn chacha20(self) -> bool {
        self == CipherSuiteId::X25519ChaCha20Poly1305Sha256
    }

    /// Whether the suite encrypts with ChaCha20-Poly1305.
    pub fn uses_chacha20(self) -> (r: bool)
        ensures
            r == self.chacha20(),
    {
        self == CipherSuiteId::X25519ChaCha20Poly1305Sha256
    }
}

/// The numbers of the suites that a client offers, most preferred first.
pub open spec fn offered() -> Seq<u32> {
    seq![3u32, 4u32]
}

/// Every suite is found by its number, and no other number names it.
pub proof fn law_suite_numbers(suite: CipherSuiteId, v: u32)
    ensures
        suite_of(suite.number()) == Some(suite),
        suite_of(v) == Some(suite) ==> v == suite.number(),
        suite_of(v) is Some <==> offered().contains(v),
{
    assert(offered()[0] == 3u32);
    assert(offered()[1] == 4u32);
}

// ---------------------------------------------------------------------------
// Key exchange
// ---------------------------------------------------------------------------

/// An ephemeral key pair for one handshake.
pub enum KemKeyPair {
    /// An X25519 key pair.
    X25519(X25519KeyPair),
}

impl KemKeyPair {
    /// Whether the pair's keys belong together.
    pub open spec fn wf(self) -> bool {
        match self {
            KemKeyPair::X25519(kp) => kp.wf(),
        }
    }

    /// The public key.
    pub open spec fn public(self) -> Seq<u8> {
        match self {
            KemKeyPair::X25519(kp) => kp.public(),
        }
    }

    /// The secret that the pair recovers from a ciphertext; `None` for a ciphertext of the
    /// wrong length.
    pub open spec fn recovered(self, ciphertext: Seq<u8>) -> Option<Seq<u8>> {
        match self {
            KemKeyPair::X25519(kp) => if ciphertext.len() == 32 {
                Some(x25519_shared(kp.secret(), ciphertext))
            } else {
                None
            },
        }
    }

    /// A fresh key pair for the suite.
    pub fn generate(suite: CipherSuiteId) -> (r: Self)
        ensures
            r.wf(),
            r is X25519,
    {
        match suite {
            CipherSuiteId::X25519Aes256GcmSha256 => KemKeyPair::X25519(X25519KeyPair::generate()),
            CipherSuiteId::X25519ChaCha20Poly1305Sha256 => KemKeyPair::X25519(
                X25519KeyPair::generate(),
            ),
        }
    }

    /// The public key's bytes.
    pub fn public_key_bytes(&self) -> (r: Vec<u8>)
        ensures
            r@ == self.public(),
    {
        match self {
            KemKeyPair::X25519(kp) => kp.public_key_bytes(),
        }
    }

    /// The secret that was encapsulated to this pair's public key.
    pub fn decapsulate(&self, ciphertext: &[u8]) -> (r: Result<Vec<u8>, CryptoError>)
        ensures
            match r {
                Ok(s) => self.recovered(ciphertext@) == Some(s@) && s@.len() == 32,
                Err(e) => self.recovered(ciphertext@) is None && e == CryptoError::InvalidKey,
            },
    {
        match self {
            KemKeyPair::X25519(kp) => kp.decapsulate(ciphertext),
        }
    }
}

/// Makes a secret for the owner of `peer_public_key`: a ciphertext to send, and the secret.
pub fn encapsulate(suite: CipherSuiteId, peer_public_key: &[u8]) -> (r: Result<
    (Vec<u8>, Vec<u8>),
    CryptoError,
>)
    ensures
        match r {
            Ok((ct, ss)) => {
                &&& peer_public_key@.len() == 32
                &&& ct@.len() == 32
                &&& ss@.len() == 32
                &&& exists|secret: Seq<u8>| #[trigger]
                    encapsulated_with(secret, peer_public_key@, ct@, ss@)
            },
            Err(e) => peer_public_key@.len() != 32 && e == CryptoError::InvalidKey,
        },
{
    match suite {
        CipherSuiteId::X25519Aes256GcmSha256 => x25519::encapsulate(peer_public_key),
        CipherSuiteId::X25519ChaCha20Poly1305Sha256 => x25519::encapsulate(peer_public_key),
    }
}

/// The owner of a key pair recovers the secret that was encapsulated to its public key.
pub proof fn law_kem_agreement(pair: KemKeyPair, secret: Seq<u8>, ct: Seq<u8>, ss: Seq<u8>)
    requires
        pair.wf(),
        encapsulated_with(secret, pair.public(), ct, ss),
        ct.len() == 32,
    ensures
        pair.recovered(ct) == Some(ss),
{
    match pair {
        KemKeyPair::X25519(kp) => {
            x25519::law_agreement(kp, secret, ct, ss);
        },
    }
}

// ---------------------------------------------------------------------------
// Session keys
// ---------------------------------------------------------------------------

/// The cipher that a suite uses with a key.
pub open spec fn suite_cipher(suite: CipherSuiteId, key: Seq<u8>) -> CipherValue {
    if suite.chacha20() {
        CipherValue::ChaCha20Poly1305(key)
    } else {
        CipherValue::Aes256Gcm(key)
    }
}

/// The session key: derived from the passkey and the shared secret, salted with both
/// nonces.
pub open spec fn session_key(
    suite: CipherSuiteId,
    passkey: Seq<u8>,
    secret: Seq<u8>,
    client_nonce: Seq<u8>,
    server_nonce: Seq<u8>,
) -> Seq<u8> {
    if suite.sha3_kdf() {
        hkdf_sha3_256_okm(
            passkey + secret,
            client_nonce + server_nonce,
            encode_utf8("etr-session-v1"@),
            32,
        )
    } else {
        hkdf_sha256_okm(
            passkey + secret,
            client_nonce + server_nonce,
            encode_utf8("etr-session-v1"@),
            32,
        )
    }
}

/// The session cipher.
pub open spec fn session_cipher(
    suite: CipherSuiteId,
    passkey: Seq<u8>,
    secret: Seq<u8>,
    client_nonce: Seq<u8>,
    server_nonce: Seq<u8>,
) -> CipherValue {
    suite_cipher(suite, session_key(suite, passkey, secret, client_nonce, server_nonce))
}

/// The cipher that a `ServerHello` is encrypted with: its key is derived from the passkey,
/// salted with the client's nonce.
pub open spec fn hello_cipher(passkey: Seq<u8>, client_nonce: Seq<u8>) -> CipherValue {
    CipherValue::Aes256Gcm(
        hkdf_sha256_okm(passkey, client_nonce, encode_utf8("etr-hello-v1"@), 32),
    )
}

/// The cipher that a suite uses with the 32 bytes of key material `key`.
pub fn cipher_for(suite: CipherSuiteId, key: &[u8]) -> (r: AeadCipher)
    requires
        key@.len() == 32,
    ensures
        r@ == suite_cipher(suite, key@),
{
    let key: [u8; 32] = to_array32(key).unwrap();
    if suite.uses_chacha20() {
        AeadCipher::ChaCha20Poly1305(ChaCha20Cipher::new(&key))
    } else {
        AeadCipher::Aes256Gcm(Box::new(Aes256GcmCipher::new(&key)))
    }
}

/// Derives the session cipher.
pub fn derive_session_cipher(
    suite: CipherSuiteId,
    passkey: &[u8],
    kem_shared_secret: &[u8],
    client_nonce: &[u8],
    server_nonce: &[u8],
) -> (r: AeadCipher)
    ensures
        r@ == session_cipher(
            suite,
            passkey@,
            kem_shared_secret@,
            client_nonce@,
            server_nonce@,
        ),
{
    let mut ikm: Vec<u8> = to_vec(passkey);
    push_all(&mut ikm, kem_shared_secret);
    let mut salt: Vec<u8> = to_vec(client_nonce);
    push_all(&mut salt, server_nonce);
    let key = if suite.uses_sha3_kdf() {
        hkdf_sha3_256(ikm.as_slice(), salt.as_slice(), "etr-session-v1".as_bytes(), 32)
    } else {
        hkdf_sha256(ikm.as_slice(), salt.as_slice(), "etr-session-v1".as_bytes(), 32)
    };
    cipher_for(suite, key.as_slice())
}

/// Derives the cipher that a `ServerHello` is encrypted with.
pub fn derive_hello_cipher(passkey: &[u8], client_nonce: &[u8]) -> (r: AeadCipher)
    ensures
        r@ == hello_cipher(passkey@, client_nonce@),
{
    let key = hkdf_sha256(passkey, client_nonce, "etr-hello-v1".as_bytes(), 32);
    cipher_for(CipherSuiteId::X25519Aes256GcmSha256, key.as_slice())
}

/// A random nonce.
pub fn generate_nonce() -> (r: [u8; 32]) {
    random_array32()
}

/// A random session identifier.
pub fn generate_session_id() -> (r: [u8; 16]) {
    random_array16()
}

// ---------------------------------------------------------------------------
// Laws
// ---------------------------------------------------------------------------

/// Suite 3 encrypts with AES-256-GCM and suite 4 with ChaCha20-Poly1305, under the key given;
/// AES is preferred, and no other number is a suite.
pub proof fn law_suites(v: u32, suite: CipherSuiteId, key: Seq<u8>)
    ensures
        offered() == seq![3u32, 4u32],
        suite_of(v) is Some <==> v == 3 || v == 4,
        suite_of(v) == Some(suite) && v == 3 ==> suite_cipher(suite, key) == CipherValue::Aes256Gcm(
            key,
        ),
        suite_of(v) == Some(suite) && v == 4 ==> suite_cipher(suite, key)
            == CipherValue::ChaCha20Poly1305(key),
{
}

/// The session key rests on everything that the two sides share: HKDF over the passkey and the
/// shared secret, salted with the client's nonce and the server's, in this order.
pub proof fn law_session_key_inputs(
    suite: CipherSuiteId,
    passkey: &[u8],
    secret: &[u8],
    client_nonce: &[u8],
    server_nonce: &[u8],
    r: AeadCipher,
)
    requires
        call_ensures(
            derive_session_cipher,
            (suite, passkey, secret, client_nonce, server_nonce),
            r,
        ),
    ensures
        ({
            let key = hkdf_sha256_okm(
                passkey@ + secret@,
                client_nonce@ + server_nonce@,
                encode_utf8("etr-session-v1"@),
                32,
            );
            r@ == if suite.number() == 4 {
                CipherValue::ChaCha20Poly1305(key)
            } else {
                CipherValue::Aes256Gcm(key)
            }
        }),
{
}

/// The key of a `ServerHello` rests on the passkey and the client's nonce, and the cipher is
/// AES-256-GCM whatever the suite.
pub proof fn law_hello_key_inputs(passkey: &[u8], client_nonce: &[u8], r: AeadCipher)
    requires
        call_ensures(derive_hello_cipher, (passkey, client_nonce), r),
    ensures
        r@ == CipherValue::Aes256Gcm(
            hkdf_sha256_okm(passkey@, client_nonce@, encode_utf8("etr-hello-v1"@), 32),
        ),
{
}

/// A secret is made for every key of 32 bytes, and for no other.
pub proof fn law_encapsulation(
    suite: CipherSuiteId,
    key: &[u8],
    r: Result<(Vec<u8>, Vec<u8>), CryptoError>,
)
    requires
        call_ensures(encapsulate, (suite, key), r),
    ensures
        r is Ok <==> key@.len() == 32,
        r matches Err(e) ==> e == CryptoError::InvalidKey,
        r matches Ok(pair) ==> pair.0@.len() == 32 && pair.1@.len() == 32,
{
}

/// A key pair recovers, from the ciphertext made for it, the secret made with it; a ciphertext
/// of another length is refused.
pub proof fn law_decapsulation(
    pair: KemKeyPair,
    key: &[u8],
    suite: CipherSuiteId,
    made: (Vec<u8>, Vec<u8>),
    ct: &[u8],
    r: Result<Vec<u8>, CryptoError>,
)
    requires
        pair.wf(),
        key@ == pair.public(),
        call_ensures(encapsulate, (suite, key), Ok(made)),
        call_ensures(KemKeyPair::decapsulate, (&pair, ct), r),
    ensures
        ct@ == made.0@ ==> (r matches Ok(s) && s@ == made.1@),
        ct@.len() != 32 ==> r == Err::<Vec<u8>, CryptoError>(CryptoError::InvalidKey),
{
    let secret = choose|secret: Seq<u8>| #[trigger]
        encapsulated_with(secret, key@, made.0@, made.1@);
    law_kem_agreement(pair, secret, made.0@, made.1@);
}

} // verus!
