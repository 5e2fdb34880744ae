//! Key derivation: HKDF with SHA-256 and with SHA3-256.
use vstd::prelude::*;

verus! {

/// The most bytes that one derivation gives: 255 blocks of 32.
pub const MAX_OKM: usize = 8160;

/// The `len` bytes that HKDF with SHA-256 derives.
pub uninterp spec fn hkdf_sha256_okm(
    ikm: Seq<u8>,
    salt: Seq<u8>,
    info: Seq<u8>,
    len: nat,
) -> Seq<u8>;

/// The `len` bytes that HKDF with SHA3-256 derives.
pub uninterp spec fn hkdf_sha3_256_okm(
    ikm: Seq<u8>,
    salt: Seq<u8>,
    info: Seq<u8>,
    len: nat,
) -> Seq<u8>;

/// Derives `len` bytes with `hkdf::Hkdf::<sha2::Sha256>`: `new` with the salt and the key
/// material, then `expand`, which refuses only more than 255 blocks. The contract names the
/// bytes and says how many there are.
#[verifier::external_body]
pub fn hkdf_sha256(ikm: &[u8], salt: &[u8], info: &[u8], len: usize) -> (r: Vec<u8>)
    requires
        len <= MAX_OKM,
    ensures
        r@ == hkdf_sha256_okm(ikm@, salt@, info@, len as nat),
        r@.len() == len,
{
    let mut okm = vec![0u8; len];
    hkdf::Hkdf::<sha2::Sha256>::new(Some(salt), ikm).expand(info, &mut okm).expect(
        "HKDF-SHA-256 expand failed",
    );
    okm
}

/// Derives `len` bytes with `hkdf::Hkdf::<sha3::Sha3_256>`: `new` with the salt and the key
/// material, then `expand`, which refuses only more than 255 blocks. The contract names the
/// bytes and says how many there are.
#[verifier::external_body]
pub fn hkdf_sha3_256(ikm: &[u8], salt: &[u8], info: &[u8], len: usize) -> (r: Vec<u8>)
    requires
        len <= MAX_OKM,
    ensures
        r@ == hkdf_sha3_256_okm(ikm@, salt@, info@, len as nat),
        r@.len() == len,
{
    let mut okm = vec![0u8; len];
    hkdf::Hkdf::<sha3::Sha3_256>::new(Some(salt), ikm).expand(info, &mut okm).expect(
        "HKDF-SHA3-256 expand failed",
    );
    okm
}

} // verus!
