//! X25519 key agreement in the shape of a key encapsulation.
//!
//! The client sends an ephemeral public key. The server makes an ephemeral key of its own,
//! agrees on a secret with the client's, and sends its public key as the "ciphertext".
use vstd::prelude::*;

use super::CryptoError;
use crate::bytes::{to_array32, to_vec};

verus! {

/// The public key of an X25519 secret.
pub uninterp spec fn x25519_public(secret: Seq<u8>) -> Seq<u8>;

/// The secret that an X25519 secret and a public key agree on.
pub uninterp spec fn x25519_shared(secret: Seq<u8>, public: Seq<u8>) -> Seq<u8>;

/// A fresh secret from `x25519_dalek::StaticSecret::random_from_rng` with
/// `rand_core::OsRng`. Nothing is promised of the bytes.
#[verifier::external_body]
pub(crate) fn random_secret() -> (r: [u8; 32]) {
    x25519_dalek::StaticSecret::random_from_rng(rand_core::OsRng).to_bytes()
}

/// Computes a public key with `x25519_dalek::PublicKey::from` a `StaticSecret`. The
/// contract names the key, and says that the two sides of an agreement meet: what any
/// secret shares with this key is what this secret shares with the other's key.
#[verifier::external_body]
fn public_of(secret: &[u8; 32]) -> (r: [u8; 32])
    ensures
        r@ == x25519_public(secret@),
        forall|other: Seq<u8>|
            other.len() == 32 ==> #[trigger] x25519_shared(other, r@) == x25519_shared(
                secret@,
                x25519_public(other),
            ),
{
    x25519_dalek::PublicKey::from(&x25519_dalek::StaticSecret::from(*secret)).to_bytes()
}

/// Agrees on a secret with `x25519_dalek::StaticSecret::diffie_hellman`. The contract names
/// the result.
#[verifier::external_body]
fn shared_of(secret: &[u8; 32], public: &[u8; 32]) -> (r: [u8; 32])
    ensures
        r@ == x25519_shared(secret@, public@),
{
    x25519_dalek::StaticSecret::from(*secret).diffie_hellman(
        &x25519_dalek::PublicKey::from(*public),
    ).to_bytes()
}

/// An ephemeral X25519 key pair.
pub struct X25519KeyPair {
    secret: [u8; 32],
    public: [u8; 32],
}

/// Whether `public` is the public key of `secret`, and agreements between it and any other
/// key meet.
pub open spec fn paired(secret: Seq<u8>, public: Seq<u8>) -> bool {
    &&& secret.len() == 32
    &&& public.len() == 32
    &&& public == x25519_public(secret)
    &&& forall|other: Seq<u8>|
        other.len() == 32 ==> #[trigger] x25519_shared(other, public) == x25519_shared(
            secret,
            x25519_public(other),
        )
}

impl X25519KeyPair {
    /// The secret key.
    pub closed spec fn secret(self) -> Seq<u8> {
        self.secret@
    }

    /// The public key.
    pub closed spec fn public(self) -> Seq<u8> {
        self.public@
    }

    /// Whether the two keys belong together.
    pub open spec fn wf(self) -> bool {
        paired(self.secret(), self.public())
    }

    /// A fresh key pair from the system's random number generator.
    pub fn generate() -> (r: Self)
        ensures
            r.wf(),
    {
        Self::from_secret(random_secret())
    }

    /// The key pair of a secret.
    pub fn from_secret(secret: [u8; 32]) -> (r: Self)
        ensures
            r.wf(),
            r.secret() == secret@,
    {
        let public = public_of(&secret);
        X25519KeyPair { secret, public }
    }

    /// The public key's 32 bytes.
    pub fn public_key_bytes(&self) -> (r: Vec<u8>)
        ensures
            r@ == self.public(),
            r@.len() == 32,
    {
        to_vec(self.public.as_slice())
    }

    /// The secret shared with the peer whose public key is `ciphertext`; `InvalidKey` where
    /// that is not exactly 32 bytes.
    pub fn decapsulate(&self, ciphertext: &[u8]) -> (r: Result<Vec<u8>, CryptoError>)
        ensures
            match r {
                Ok(s) => ciphertext@.len() == 32 && s@ == x25519_shared(self.secret(), ciphertext@)
                    && s@.len() == 32,
                Err(e) => ciphertext@.len() != 32 && e == CryptoError::InvalidKey,
            },
    {
        match to_array32(ciphertext) {
            Some(peer) => Ok(to_vec(shared_of(&self.secret, &peer).as_slice())),
            None => Err(CryptoError::InvalidKey),
        }
    }
}

/// Whether `ct` and `ss` are a public key and a shared secret that someone with the secret
/// `secret` makes for the key `public`.
pub open spec fn encapsulated_with(
    secret: Seq<u8>,
    public: Seq<u8>,
    ct: Seq<u8>,
    ss: Seq<u8>,
) -> bool {
    secret.len() == 32 && ct == x25519_public(secret) && ss == x25519_shared(secret, public)
}

/// Agrees on a secret with the client whose public key is given, under a fresh key pair;
/// returns that pair's public key and the secret. `InvalidKey` where the client's key is
/// not exactly 32 bytes.
pub fn encapsulate(client_pk_bytes: &[u8]) -> (r: Result<(Vec<u8>, Vec<u8>), CryptoError>)
    ensures
        match r {
            Ok((ct, ss)) => {
                &&& client_pk_bytes@.len() == 32
                &&& ct@.len() == 32
                &&& ss@.len() == 32
                &&& exists|secret: Seq<u8>| #[trigger]
                    encapsulated_with(secret, client_pk_bytes@, ct@, ss@)
            },
            Err(e) => client_pk_bytes@.len() != 32 && e == CryptoError::InvalidKey,
        },
{
    encapsulate_with(random_secret(), client_pk_bytes)
}

/// [`encapsulate`], under the key pair of `secret`.
pub fn encapsulate_with(secret: [u8; 32], client_pk_bytes: &[u8]) -> (r: Result<
    (Vec<u8>, Vec<u8>),
    CryptoError,
>)
    ensures
        match r {
            Ok((ct, ss)) => {
                &&& client_pk_bytes@.len() == 32
                &&& ct@.len() == 32
                &&& ss@.len() == 32
                &&& encapsulated_with(secret@, client_pk_bytes@, ct@, ss@)
            },
            Err(e) => client_pk_bytes@.len() != 32 && e == CryptoError::InvalidKey,
        },
{
    match to_array32(client_pk_bytes) {
        Some(client) => {
            let public = public_of(&secret);
            let shared = shared_of(&secret, &client);
            Ok((to_vec(public.as_slice()), to_vec(shared.as_slice())))
        },
        None => Err(CryptoError::InvalidKey),
    }
}

/// The client recovers the secret that the server encapsulated to its public key.
pub proof fn law_agreement(pair: X25519KeyPair, secret: Seq<u8>, ct: Seq<u8>, ss: Seq<u8>)
    requires
        pair.wf(),
        encapsulated_with(secret, pair.public(), ct, ss),
    ensures
        x25519_shared(pair.secret(), ct) == ss,
{
    assert(x25519_shared(secret, pair.public()) == x25519_shared(
        pair.secret(),
        x25519_public(secret),
    ));
}

} // verus!
