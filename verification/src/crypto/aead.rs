//! Authenticated encryption: AES-256-GCM and ChaCha20-Poly1305.
//!
//! A cipher is a key. The number of a packet gives the nonce it is encrypted under, so a
//! number must not be used twice with one key.
use vstd::prelude::*;

use super::CryptoError;
use crate::bytes::{be_bytes, lemma_be_u64, u64_to_be};

verus! {

/// The longest plaintext that AES-256-GCM takes, in bytes.
pub const AES_GCM_MAX: u64 = 0x10_0000_0000;

/// The longest plaintext that ChaCha20-Poly1305 takes, in bytes: a block of 64 for each
/// value of the counter but the first and the last.
pub const CHACHA_MAX: u64 = 64 * 0xffff_fffe;

/// The length of the tag that encryption appends.
pub const TAG_LEN: u64 = 16;

/// What AES-256-GCM makes of a plaintext, under a key and a nonce.
pub uninterp spec fn aes_gcm_sealed(key: Seq<u8>, nonce: Seq<u8>, plaintext: Seq<u8>) -> Seq<u8>;

/// What AES-256-GCM recovers from a ciphertext, where the tag verifies.
pub uninterp spec fn aes_gcm_opened(key: Seq<u8>, nonce: Seq<u8>, ciphertext: Seq<u8>) -> Option<
    Seq<u8>,
>;

/// What ChaCha20-Poly1305 makes of a plaintext, under a key and a nonce.
pub uninterp spec fn chacha_sealed(key: Seq<u8>, nonce: Seq<u8>, plaintext: Seq<u8>) -> Seq<u8>;

/// What ChaCha20-Poly1305 recovers from a ciphertext, where the tag verifies.
pub uninterp spec fn chacha_opened(key: Seq<u8>, nonce: Seq<u8>, ciphertext: Seq<u8>) -> Option<
    Seq<u8>,
>;

/// Encrypts with `aes_gcm::Aes256Gcm`'s `Aead::encrypt`, which fails for a plaintext
/// longer than 2^36 bytes and for no other. The ciphertext is the plaintext's length and a
/// tag of 16 bytes, and decrypts to the plaintext under the same key and nonce.
#[verifier::external_body]
fn aes_gcm_seal(key: &[u8; 32], nonce: &[u8; 12], plaintext: &[u8]) -> (r: Option<Vec<u8>>)
    ensures
        match r {
            Some(c) => {
                &&& plaintext@.len() <= AES_GCM_MAX
                &&& c@ == aes_gcm_sealed(key@, nonce@, plaintext@)
                &&& c@.len() == plaintext@.len() + TAG_LEN
                &&& aes_gcm_opened(key@, nonce@, c@) == Some(plaintext@)
            },
            None => plaintext@.len() > AES_GCM_MAX,
        },
{
    let cipher = <aes_gcm::Aes256Gcm as aes_gcm::KeyInit>::new(aes_gcm::Key::<
        aes_gcm::Aes256Gcm,
    >::from_slice(key));
    aes_gcm::aead::Aead::encrypt(&cipher, aes_gcm::Nonce::from_slice(nonce), plaintext).ok()
}

/// Decrypts with `aes_gcm::Aes256Gcm`'s `Aead::decrypt`, which compares the whole tag and
/// then undoes the key stream. The contract names the result, and says that the plaintext is
/// shorter by the tag and encrypts to just this ciphertext. Whether a ciphertext decrypts that
/// encryption did not make is left unsaid: key, nonce and ciphertext decide.
#[verifier::external_body]
fn aes_gcm_open(key: &[u8; 32], nonce: &[u8; 12], ciphertext: &[u8]) -> (r: Option<Vec<u8>>)
    ensures
        match r {
            Some(p) => {
                &&& aes_gcm_opened(key@, nonce@, ciphertext@) == Some(p@)
                &&& ciphertext@.len() == p@.len() + TAG_LEN
                &&& p@.len() <= AES_GCM_MAX ==> aes_gcm_sealed(key@, nonce@, p@) == ciphertext@
            },
            None => aes_gcm_opened(key@, nonce@, ciphertext@) is None,
        },
{
    let cipher = <aes_gcm::Aes256Gcm as aes_gcm::KeyInit>::new(aes_gcm::Key::<
        aes_gcm::Aes256Gcm,
    >::from_slice(key));
    aes_gcm::aead::Aead::decrypt(&cipher, aes_gcm::Nonce::from_slice(nonce), ciphertext).ok()
}

/// Encrypts with `chacha20poly1305::ChaCha20Poly1305`'s `Aead::encrypt`, which does not fail
/// for a plaintext of at most 2^32 - 2 blocks of 64 bytes. The ciphertext is the plaintext's
/// length and a tag of 16 bytes, and decrypts to the plaintext under the same key and nonce.
#[verifier::external_body]
fn chacha_seal(key: &[u8; 32], nonce: &[u8; 12], plaintext: &[u8]) -> (r: Vec<u8>)
    requires
        plaintext@.len() <= CHACHA_MAX,
    ensures
        r@ == chacha_sealed(key@, nonce@, plaintext@),
        r@.len() == plaintext@.len() + TAG_LEN,
        chacha_opened(key@, nonce@, r@) == Some(plaintext@),
{
    let cipher = <chacha20poly1305::ChaCha20Poly1305 as chacha20poly1305::KeyInit>::new(
        chacha20poly1305::Key::from_slice(key),
    );
    chacha20poly1305::aead::Aead::encrypt(
        &cipher,
        chacha20poly1305::Nonce::from_slice(nonce),
        plaintext,
    ).expect("the plaintext is not too long")
}

/// Decrypts with `chacha20poly1305::ChaCha20Poly1305`'s `Aead::decrypt`, which compares the
/// whole tag and then undoes the key stream. The contract names the result, and says that the
/// plaintext is shorter by the tag and encrypts to just this ciphertext. Whether a ciphertext
/// decrypts that encryption did not make is left unsaid: key, nonce and ciphertext decide.
#[verifier::external_body]
fn chacha_open(key: &[u8; 32], nonce: &[u8; 12], ciphertext: &[u8]) -> (r: Option<Vec<u8>>)
    requires
        ciphertext@.len() <= CHACHA_MAX + TAG_LEN,
    ensures
        match r {
            Some(p) => {
                &&& chacha_opened(key@, nonce@, ciphertext@) == Some(p@)
                &&& ciphertext@.len() == p@.len() + TAG_LEN
                &&& chacha_sealed(key@, nonce@, p@) == ciphertext@
            },
            None => chacha_opened(key@, nonce@, ciphertext@) is None,
        },
{
    let cipher = <chacha20poly1305::ChaCha20Poly1305 as chacha20poly1305::KeyInit>::new(
        chacha20poly1305::Key::from_slice(key),
    );
    chacha20poly1305::aead::Aead::decrypt(
        &cipher,
        chacha20poly1305::Nonce::from_slice(nonce),
        ciphertext,
    ).ok()
}

// ---------------------------------------------------------------------------
// Nonces
// ---------------------------------------------------------------------------

/// The nonce of packet `seq`: four zero bytes and the number, most significant byte first.
pub open spec fn nonce_of(seq: u64) -> Seq<u8> {
    seq![0u8, 0u8, 0u8, 0u8] + be_bytes(seq as nat, 8)
}

/// The nonce of packet `seq`.
pub fn seq_to_nonce(seq: u64) -> (r: [u8; 12])
    ensures
        r@ == nonce_of(seq),
{
    let b = u64_to_be(seq);
    let r = [0, 0, 0, 0, b[0], b[1], b[2], b[3], b[4], b[5], b[6], b[7]];
    assert(r@ =~= nonce_of(seq));
    r
}

/// Packets with different numbers have different nonces.
pub proof fn law_nonce_unique(a: u64, b: u64)
    ensures
        nonce_of(a) == nonce_of(b) ==> a == b,
        nonce_of(a).len() == 12,
{
    lemma_be_u64(a);
    lemma_be_u64(b);
    if nonce_of(a) == nonce_of(b) {
        assert(nonce_of(a).skip(4) =~= be_bytes(a as nat, 8));
        assert(nonce_of(b).skip(4) =~= be_bytes(b as nat, 8));
    }
}

// ---------------------------------------------------------------------------
// Ciphers
// ---------------------------------------------------------------------------

/// AES-256-GCM under a key.
pub struct Aes256GcmCipher {
    key: [u8; 32],
}

impl Aes256GcmCipher {
    /// The key.
    pub closed spec fn view(self) -> Seq<u8> {
        self.key@
    }

    /// A cipher with the key `key`.
    pub fn new(key: &[u8; 32]) -> (r: Self)
        ensures
            r@ == key@,
    {
        Aes256GcmCipher { key: *key }
    }

    /// Encrypts `plaintext` as packet `packet_seq`.
    pub fn encrypt(&self, packet_seq: u64, plaintext: &[u8]) -> (r: Result<Vec<u8>, CryptoError>)
        ensures
            seals(CipherValue::Aes256Gcm(self@), packet_seq, plaintext@, r),
    {
        let nonce = seq_to_nonce(packet_seq);
        match aes_gcm_seal(&self.key, &nonce, plaintext) {
            Some(c) => Ok(c),
            None => Err(CryptoError::AeadFailure),
        }
    }

    /// Decrypts and authenticates `ciphertext` as packet `packet_seq`.
    pub fn decrypt(&self, packet_seq: u64, ciphertext: &[u8]) -> (r: Result<Vec<u8>, CryptoError>)
        ensures
            opens(CipherValue::Aes256Gcm(self@), packet_seq, ciphertext@, r),
    {
        let nonce = seq_to_nonce(packet_seq);
        match aes_gcm_open(&self.key, &nonce, ciphertext) {
            Some(p) => Ok(p),
            None => Err(CryptoError::AeadFailure),
        }
    }
}

/// ChaCha20-Poly1305 under a key.
pub struct ChaCha20Cipher {
    key: [u8; 32],
}

impl ChaCha20Cipher {
    /// The key.
    pub closed spec fn view(self) -> Seq<u8> {
        self.key@
    }

    /// A cipher with the key `key`.
    pub fn new(key: &[u8; 32]) -> (r: Self)
        ensures
            r@ == key@,
    {
        ChaCha20Cipher { key: *key }
    }

    /// Encrypts `plaintext` as packet `packet_seq`.
    pub fn encrypt(&self, packet_seq: u64, plaintext: &[u8]) -> (r: Result<Vec<u8>, CryptoError>)
        ensures
            seals(CipherValue::ChaCha20Poly1305(self@), packet_seq, plaintext@, r),
    {
        if plaintext.len() as u64 > CHACHA_MAX {
            return Err(CryptoError::AeadFailure);
        }
        let nonce = seq_to_nonce(packet_seq);
        Ok(chacha_seal(&self.key, &nonce, plaintext))
    }

    /// Decrypts and authenticates `ciphertext` as packet `packet_seq`.
    pub fn decrypt(&self, packet_seq: u64, ciphertext: &[u8]) -> (r: Result<Vec<u8>, CryptoError>)
        ensures
            opens(CipherValue::ChaCha20Poly1305(self@), packet_seq, ciphertext@, r),
    {
        if ciphertext.len() as u64 > CHACHA_MAX + TAG_LEN {
            return Err(CryptoError::AeadFailure);
        }
        let nonce = seq_to_nonce(packet_seq);
        match chacha_open(&self.key, &nonce, ciphertext) {
            Some(p) => Ok(p),
            None => Err(CryptoError::AeadFailure),
        }
    }
}

/// A cipher under a session key.
pub enum AeadCipher {
    /// AES-256-GCM.
    Aes256Gcm(Box<Aes256GcmCipher>),
    /// ChaCha20-Poly1305.
    ChaCha20Poly1305(ChaCha20Cipher),
}

/// A cipher's algorithm and key.
pub enum CipherValue {
    /// AES-256-GCM.
    Aes256Gcm(Seq<u8>),
    /// ChaCha20-Poly1305.
    ChaCha20Poly1305(Seq<u8>),
}

/// Whether `len` bytes are not too long to encrypt.
pub open spec fn fits(c: CipherValue, len: nat) -> bool {
    match c {
        CipherValue::Aes256Gcm(_) => len <= AES_GCM_MAX,
        CipherValue::ChaCha20Poly1305(_) => len <= CHACHA_MAX,
    }
}

/// What `c` makes of a plaintext that it encrypts as packet `seq`.
pub open spec fn sealed(c: CipherValue, seq: u64, plaintext: Seq<u8>) -> Seq<u8> {
    match c {
        CipherValue::Aes256Gcm(key) => aes_gcm_sealed(key, nonce_of(seq), plaintext),
        CipherValue::ChaCha20Poly1305(key) => chacha_sealed(key, nonce_of(seq), plaintext),
    }
}

/// What `c` recovers from a ciphertext that it decrypts as packet `seq`, where the tag
/// verifies. ChaCha20-Poly1305 recovers nothing from one that is longer than it makes any.
pub open spec fn opened(c: CipherValue, seq: u64, ciphertext: Seq<u8>) -> Option<Seq<u8>> {
    match c {
        CipherValue::Aes256Gcm(key) => aes_gcm_opened(key, nonce_of(seq), ciphertext),
        CipherValue::ChaCha20Poly1305(key) => if ciphertext.len() <= CHACHA_MAX + TAG_LEN {
            chacha_opened(key, nonce_of(seq), ciphertext)
        } else {
            None
        },
    }
}

/// Whether `r` is the outcome of encrypting: the ciphertext, which decrypts to the
/// plaintext, or a failure for a plaintext that is too long.
pub open spec fn seals(
    c: CipherValue,
    seq: u64,
    plaintext: Seq<u8>,
    r: Result<Vec<u8>, CryptoError>,
) -> bool {
    match r {
        Ok(t) => {
            &&& fits(c, plaintext.len())
            &&& t@ == sealed(c, seq, plaintext)
            &&& t@.len() == plaintext.len() + TAG_LEN
            &&& opened(c, seq, t@) == Some(plaintext)
        },
        Err(e) => e == CryptoError::AeadFailure && !fits(c, plaintext.len()),
    }
}

/// Whether `ciphertext`, where it decrypts, is what encrypting its plaintext gives.
pub open spec fn canonical(c: CipherValue, seq: u64, ciphertext: Seq<u8>) -> bool {
    opened(c, seq, ciphertext) matches Some(p) ==> fits(c, p.len()) ==> sealed(c, seq, p)
        == ciphertext
}

/// Whether `r` is the outcome of decrypting.
pub open spec fn opens(
    c: CipherValue,
    seq: u64,
    ciphertext: Seq<u8>,
    r: Result<Vec<u8>, CryptoError>,
) -> bool {
    match r {
        Ok(p) => {
            &&& opened(c, seq, ciphertext) == Some(p@)
            &&& ciphertext.len() == p@.len() + TAG_LEN
            &&& canonical(c, seq, ciphertext)
        },
        Err(e) => e == CryptoError::AeadFailure && opened(c, seq, ciphertext) is None,
    }
}

/// Decrypting undoes encrypting: what a cipher made of a plaintext, it decrypts to that
/// plaintext under the same number. Nothing shorter than a tag decrypts.
pub proof fn law_decrypt_undoes_encrypt(
    c: CipherValue,
    seq: u64,
    plaintext: Seq<u8>,
    sealed: Vec<u8>,
    ciphertext: Seq<u8>,
    r: Result<Vec<u8>, CryptoError>,
)
    requires
        seals(c, seq, plaintext, Ok(sealed)),
        opens(c, seq, ciphertext, r),
    ensures
        ciphertext == sealed@ ==> (r matches Ok(p) && p@ == plaintext),
        ciphertext.len() < TAG_LEN ==> r is Err,
{
}

/// A changed ciphertext never passes for the message: under the key and number that a
/// plaintext was encrypted with, every other ciphertext is refused or decrypts to another
/// plaintext.
pub proof fn law_changed_ciphertext_differs(
    c: CipherValue,
    seq: u64,
    plaintext: Seq<u8>,
    made: Vec<u8>,
    changed: Seq<u8>,
    r: Result<Vec<u8>, CryptoError>,
)
    requires
        seals(c, seq, plaintext, Ok(made)),
        opens(c, seq, changed, r),
        changed != made@,
    ensures
        match r {
            Ok(p) => p@ != plaintext,
            Err(e) => e == CryptoError::AeadFailure,
        },
{
}

/// Decrypting fails in one way, and only where the tag does not verify: under any key and
/// number, whatever the ciphertext and however it came about. A packet under another number
/// is decrypted with another nonce.
pub proof fn law_refusal_exactly(
    c: CipherValue,
    seq: u64,
    ciphertext: Seq<u8>,
    r: Result<Vec<u8>, CryptoError>,
    other: u64,
)
    requires
        opens(c, seq, ciphertext, r),
    ensures
        opened(c, seq, ciphertext) is None <==> r is Err,
        r matches Err(e) ==> e == CryptoError::AeadFailure,
        other != seq ==> nonce_of(other) != nonce_of(seq),
{
    law_nonce_unique(seq, other);
}

impl AeadCipher {
    /// The algorithm and key.
    pub open spec fn view(self) -> CipherValue {
        match self {
            AeadCipher::Aes256Gcm(c) => CipherValue::Aes256Gcm(c@),
            AeadCipher::ChaCha20Poly1305(c) => CipherValue::ChaCha20Poly1305(c@),
        }
    }

    /// Encrypts `plaintext` as packet `packet_seq`.
    pub fn encrypt(&self, packet_seq: u64, plaintext: &[u8]) -> (r: Result<Vec<u8>, CryptoError>)
        ensures
            seals(self@, packet_seq, plaintext@, r),
    {
        match self {
            AeadCipher::Aes256Gcm(c) => c.encrypt(packet_seq, plaintext),
            AeadCipher::ChaCha20Poly1305(c) => c.encrypt(packet_seq, plaintext),
        }
    }

    /// Decrypts and authenticates `ciphertext` as packet `packet_seq`.
    pub fn decrypt(&self, packet_seq: u64, ciphertext: &[u8]) -> (r: Result<Vec<u8>, CryptoError>)
        ensures
            opens(self@, packet_seq, ciphertext@, r),
    {
        match self {
            AeadCipher::Aes256Gcm(c) => c.decrypt(packet_seq, ciphertext),
            AeadCipher::ChaCha20Poly1305(c) => c.decrypt(packet_seq, ciphertext),
        }
    }
}

/// A nonce is four zeros and the number of the packet, most significant byte first.
pub proof fn law_nonce_layout(seq: u64)
    ensures
        nonce_of(seq).len() == 12,
        forall|i: int| 0 <= i < 4 ==> nonce_of(seq)[i] == 0,
        nonce_of(seq)[4] == seq / 0x100_0000_0000_0000,
        nonce_of(seq)[11] == seq % 256,
        crate::bytes::be_value(nonce_of(seq).skip(4)) == seq,
{
    lemma_be_u64(seq);
    crate::bytes::law_most_significant_first(seq, 0);
    assert(nonce_of(seq).skip(4) =~= be_bytes(seq as nat, 8));
}

/// What a cipher encrypts as a packet it decrypts as that packet, under its own key and the
/// nonce of the number; a plaintext is refused only where it is too long.
pub proof fn law_packet_round_trip(
    c: AeadCipher,
    seq: u64,
    plaintext: &[u8],
    e: Result<Vec<u8>, CryptoError>,
    ciphertext: &[u8],
    d: Result<Vec<u8>, CryptoError>,
)
    requires
        call_ensures(AeadCipher::encrypt, (&c, seq, plaintext), e),
        call_ensures(AeadCipher::decrypt, (&c, seq, ciphertext), d),
    ensures
        e matches Ok(t) ==> {
            &&& ciphertext@ == t@ ==> (d matches Ok(p) && p@ == plaintext@)
            &&& c@ matches CipherValue::Aes256Gcm(key) ==> t@ == aes_gcm_sealed(
                key,
                nonce_of(seq),
                plaintext@,
            )
            &&& c@ matches CipherValue::ChaCha20Poly1305(key) ==> t@ == chacha_sealed(
                key,
                nonce_of(seq),
                plaintext@,
            )
        },
        plaintext@.len() <= 0x10_0000_0000 ==> e is Ok,
{
}

} // verus!
