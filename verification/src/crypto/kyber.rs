//! ML-KEM key encapsulation (FIPS 203), in the shape of the X25519 one.
use vstd::prelude::*;

use super::CryptoError;
use crate::bytes::to_vec;

verus! {

// ---------------------------------------------------------------------------
// ML-KEM-768
// ---------------------------------------------------------------------------

/// The secret that ML-KEM-768 recovers from a ciphertext.
pub uninterp spec fn ml_kem_768_recovered(dk: Seq<u8>, ciphertext: Seq<u8>) -> Seq<u8>;

/// What ML-KEM-768 makes of an encapsulation key and random bytes: a ciphertext and the
/// secret that it carries.
pub uninterp spec fn ml_kem_768_encapsulated(ek: Seq<u8>, random: Seq<u8>) -> (Seq<u8>, Seq<u8>);

/// A fresh decapsulation and encapsulation key from `ml_kem::MlKem768::generate` with
/// `rand_core::OsRng`, encoded. The contract gives their lengths, and says that the
/// encapsulation key is part of the decapsulation key; the rest is random.
#[verifier::external_body]
fn ml_kem_768_generate() -> (r: (Vec<u8>, Vec<u8>))
    ensures
        r.0@.len() == 2400,
        r.1@ == r.0@.subrange(1152, 2336),
{
    let (dk, ek) = <ml_kem::MlKem768 as ml_kem::KemCore>::generate(&mut rand_core::OsRng);
    (
        ml_kem::EncodedSizeUser::as_bytes(&dk).to_vec(),
        ml_kem::EncodedSizeUser::as_bytes(&ek).to_vec(),
    )
}

/// Decapsulates with ML-KEM-768's `ml_kem::kem::Decapsulate::decapsulate`, which does not
/// fail. The contract names the secret and gives its length. That it is the secret which was
/// encapsulated is not said: ML-KEM recovers another one with a small probability.
#[verifier::external_body]
fn ml_kem_768_decapsulate(dk: &[u8], ciphertext: &[u8]) -> (r: Vec<u8>)
    requires
        dk@.len() == 2400,
        ciphertext@.len() == 1088,
    ensures
        r@ == ml_kem_768_recovered(dk@, ciphertext@),
        r@.len() == 32,
{
    let dk: <ml_kem::MlKem768 as ml_kem::KemCore>::DecapsulationKey =
        ml_kem::EncodedSizeUser::from_bytes(dk.try_into().expect("length was checked"));
    let ct: &ml_kem::Ciphertext<ml_kem::MlKem768> =
        ciphertext.try_into().expect("length was checked");
    ml_kem::kem::Decapsulate::decapsulate(&dk, ct).expect("does not fail").to_vec()
}

/// Encapsulates a fresh secret with ML-KEM-768's `ml_kem::kem::Encapsulate::encapsulate` and
/// `rand_core::OsRng`, which does not fail; returns the ciphertext and the secret. The contract
/// names them as made from the key and some random bytes, and gives their lengths.
#[verifier::external_body]
fn ml_kem_768_encapsulate(ek: &[u8]) -> (r: (Vec<u8>, Vec<u8>))
    requires
        ek@.len() == 1184,
    ensures
        r.0@.len() == 1088,
        r.1@.len() == 32,
        exists|random: Seq<u8>| #[trigger] ml_kem_768_encapsulated(ek@, random) == (r.0@, r.1@),
{
    let ek: <ml_kem::MlKem768 as ml_kem::KemCore>::EncapsulationKey =
        ml_kem::EncodedSizeUser::from_bytes(ek.try_into().expect("length was checked"));
    let (ct, ss) = ml_kem::kem::Encapsulate::encapsulate(&ek, &mut rand_core::OsRng).expect(
        "does not fail",
    );
    (ct.to_vec(), ss.to_vec())
}

/// An ephemeral ML-KEM-768 key pair, its keys encoded.
pub struct MlKem768KeyPair {
    dk: Vec<u8>,
    ek: Vec<u8>,
}

impl MlKem768KeyPair {
    /// The encoded decapsulation key.
    pub closed spec fn secret(self) -> Seq<u8> {
        self.dk@
    }

    /// The encoded encapsulation key.
    pub closed spec fn public(self) -> Seq<u8> {
        self.ek@
    }

    /// Whether the keys belong together, and have the lengths of ML-KEM-768.
    pub open spec fn wf(self) -> bool {
        self.secret().len() == 2400 && self.public() == self.secret().subrange(1152, 2336)
    }

    /// A fresh key pair from the system's random number generator.
    pub fn generate() -> (r: Self)
        ensures
            r.wf(),
    {
        let (dk, ek) = ml_kem_768_generate();
        MlKem768KeyPair { dk, ek }
    }

    /// The encoded encapsulation key.
    pub fn encapsulation_key_bytes(&self) -> (r: Vec<u8>)
        ensures
            r@ == self.public(),
    {
        to_vec(self.ek.as_slice())
    }

    /// The secret recovered from `ciphertext`; `InvalidKey` for a ciphertext of the wrong
    /// length.
    pub fn decapsulate(&self, ciphertext: &[u8]) -> (r: Result<Vec<u8>, CryptoError>)
        requires
            self.wf(),
        ensures
            match r {
                Ok(s) => ciphertext@.len() == 1088 && s@ == ml_kem_768_recovered(
                    self.secret(),
                    ciphertext@,
                ) && s@.len() == 32,
                Err(e) => ciphertext@.len() != 1088 && e == CryptoError::InvalidKey,
            },
    {
        if ciphertext.len() != 1088 {
            return Err(CryptoError::InvalidKey);
        }
        Ok(ml_kem_768_decapsulate(self.dk.as_slice(), ciphertext))
    }
}

/// A fresh secret, encapsulated to an encoded ML-KEM-768 key: the ciphertext and the secret.
/// `InvalidKey` for a key of the wrong length.
pub fn encapsulate_768(ek_bytes: &[u8]) -> (r: Result<(Vec<u8>, Vec<u8>), CryptoError>)
    ensures
        match r {
            Ok((ct, ss)) => {
                &&& ek_bytes@.len() == 1184
                &&& ct@.len() == 1088
                &&& ss@.len() == 32
                &&& exists|random: Seq<u8>| #[trigger]
                    ml_kem_768_encapsulated(ek_bytes@, random) == (ct@, ss@)
            },
            Err(e) => ek_bytes@.len() != 1184 && e == CryptoError::InvalidKey,
        },
{
    if ek_bytes.len() != 1184 {
        return Err(CryptoError::InvalidKey);
    }
    Ok(ml_kem_768_encapsulate(ek_bytes))
}

// ---------------------------------------------------------------------------
// ML-KEM-1024
// ---------------------------------------------------------------------------

/// The secret that ML-KEM-1024 recovers from a ciphertext.
pub uninterp spec fn ml_kem_1024_recovered(dk: Seq<u8>, ciphertext: Seq<u8>) -> Seq<u8>;

/// What ML-KEM-1024 makes of an encapsulation key and random bytes: a ciphertext and the
/// secret that it carries.
pub uninterp spec fn ml_kem_1024_encapsulated(ek: Seq<u8>, random: Seq<u8>) -> (Seq<u8>, Seq<u8>);

/// A fresh decapsulation and encapsulation key from `ml_kem::MlKem1024::generate` with
/// `rand_core::OsRng`, encoded. The contract gives their lengths, and says that the
/// encapsulation key is part of the decapsulation key; the rest is random.
#[verifier::external_body]
fn ml_kem_1024_generate() -> (r: (Vec<u8>, Vec<u8>))
    ensures
        r.0@.len() == 3168,
        r.1@ == r.0@.subrange(1536, 3104),
{
    let (dk, ek) = <ml_kem::MlKem1024 as ml_kem::KemCore>::generate(&mut rand_core::OsRng);
    (
        ml_kem::EncodedSizeUser::as_bytes(&dk).to_vec(),
        ml_kem::EncodedSizeUser::as_bytes(&ek).to_vec(),
    )
}

/// Decapsulates with ML-KEM-1024's `ml_kem::kem::Decapsulate::decapsulate`, which does not
/// fail. The contract names the secret and gives its length. That it is the secret which was
/// encapsulated is not said: ML-KEM recovers another one with a small probability.
#[verifier::external_body]
fn ml_kem_1024_decapsulate(dk: &[u8], ciphertext: &[u8]) -> (r: Vec<u8>)
    requires
        dk@.len() == 3168,
        ciphertext@.len() == 1568,
    ensures
        r@ == ml_kem_1024_recovered(dk@, ciphertext@),
        r@.len() == 32,
{
    let dk: <ml_kem::MlKem1024 as ml_kem::KemCore>::DecapsulationKey =
        ml_kem::EncodedSizeUser::from_bytes(dk.try_into().expect("length was checked"));
    let ct: &ml_kem::Ciphertext<ml_kem::MlKem1024> =
        ciphertext.try_into().expect("length was checked");
    ml_kem::kem::Decapsulate::decapsulate(&dk, ct).expect("does not fail").to_vec()
}

/// Encapsulates a fresh secret with ML-KEM-1024's `ml_kem::kem::Encapsulate::encapsulate` and
/// `rand_core::OsRng`, which does not fail; returns the ciphertext and the secret. The contract
/// names them as made from the key and some random bytes, and gives their lengths.
#[verifier::external_body]
fn ml_kem_1024_encapsulate(ek: &[u8]) -> (r: (Vec<u8>, Vec<u8>))
    requires
        ek@.len() == 1568,
    ensures
        r.0@.len() == 1568,
        r.1@.len() == 32,
        exists|random: Seq<u8>| #[trigger] ml_kem_1024_encapsulated(ek@, random) == (r.0@, r.1@),
{
    let ek: <ml_kem::MlKem1024 as ml_kem::KemCore>::EncapsulationKey =
        ml_kem::EncodedSizeUser::from_bytes(ek.try_into().expect("length was checked"));
    let (ct, ss) = ml_kem::kem::Encapsulate::encapsulate(&ek, &mut rand_core::OsRng).expect(
        "does not fail",
    );
    (ct.to_vec(), ss.to_vec())
}

/// An ephemeral ML-KEM-1024 key pair, its keys encoded.
pub struct MlKem1024KeyPair {
    dk: Vec<u8>,
    ek: Vec<u8>,
}

impl MlKem1024KeyPair {
    /// The encoded decapsulation key.
    pub closed spec fn secret(self) -> Seq<u8> {
        self.dk@
    }

    /// The encoded encapsulation key.
    pub closed spec fn public(self) -> Seq<u8> {
        self.ek@
    }

    /// Whether the keys belong together, and have the lengths of ML-KEM-1024.
    pub open spec fn wf(self) -> bool {
        self.secret().len() == 3168 && self.public() == self.secret().subrange(1536, 3104)
    }

    /// A fresh key pair from the system's random number generator.
    pub fn generate() -> (r: Self)
        ensures
            r.wf(),
    {
        let (dk, ek) = ml_kem_1024_generate();
        MlKem1024KeyPair { dk, ek }
    }

    /// The encoded encapsulation key.
    pub fn encapsulation_key_bytes(&self) -> (r: Vec<u8>)
        ensures
            r@ == self.public(),
    {
        to_vec(self.ek.as_slice())
    }

    /// The secret recovered from `ciphertext`; `InvalidKey` for a ciphertext of the wrong
    /// length.
    pub fn decapsulate(&self, ciphertext: &[u8]) -> (r: Result<Vec<u8>, CryptoError>)
        requires
            self.wf(),
        ensures
            match r {
                Ok(s) => ciphertext@.len() == 1568 && s@ == ml_kem_1024_recovered(
                    self.secret(),
                    ciphertext@,
                ) && s@.len() == 32,
                Err(e) => ciphertext@.len() != 1568 && e == CryptoError::InvalidKey,
            },
    {
        if ciphertext.len() != 1568 {
            return Err(CryptoError::InvalidKey);
        }
        Ok(ml_kem_1024_decapsulate(self.dk.as_slice(), ciphertext))
    }
}

/// A fresh secret, encapsulated to an encoded ML-KEM-1024 key: the ciphertext and the secret.
/// `InvalidKey` for a key of the wrong length.
pub fn encapsulate_1024(ek_bytes: &[u8]) -> (r: Result<(Vec<u8>, Vec<u8>), CryptoError>)
    ensures
        match r {
            Ok((ct, ss)) => {
                &&& ek_bytes@.len() == 1568
                &&& ct@.len() == 1568
                &&& ss@.len() == 32
                &&& exists|random: Seq<u8>| #[trigger]
                    ml_kem_1024_encapsulated(ek_bytes@, random) == (ct@, ss@)
            },
            Err(e) => ek_bytes@.len() != 1568 && e == CryptoError::InvalidKey,
        },
{
    if ek_bytes.len() != 1568 {
        return Err(CryptoError::InvalidKey);
    }
    Ok(ml_kem_1024_encapsulate(ek_bytes))
}

} // verus!
