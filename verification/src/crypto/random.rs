//! Random bytes and text.
use vstd::prelude::*;

use crate::bytes::{to_array16, to_array32};

verus! {

/// `len` random bytes from `rand::RngCore::fill_bytes` on `rand::rng()`. Only their count
/// is promised.
#[verifier::external_body]
fn random_bytes(len: usize) -> (r: Vec<u8>)
    ensures
        r@.len() == len,
{
    let mut bytes = vec![0u8; len];
    rand::RngCore::fill_bytes(&mut rand::rng(), &mut bytes);
    bytes
}

/// Whether `c` is an ASCII letter or digit.
pub open spec fn is_alphanumeric(c: char) -> bool {
    ('A' <= c <= 'Z') || ('a' <= c <= 'z') || ('0' <= c <= '9')
}

/// `len` random letters and digits from `rand::distr::SampleString::sample_string` for
/// `rand::distr::Alphanumeric`, on `rand::rng()`.
#[verifier::external_body]
fn random_text(len: usize) -> (r: String)
    ensures
        r@.len() == len,
        forall|i: int| 0 <= i < r@.len() ==> is_alphanumeric(#[trigger] r@[i]),
{
    rand::distr::SampleString::sample_string(
        &rand::distr::Alphanumeric,
        &mut rand::rng(),
        len,
    )
}

/// Sixteen random bytes.
pub fn random_array16() -> (r: [u8; 16]) {
    to_array16(random_bytes(16).as_slice()).unwrap()
}

/// Thirty-two random bytes.
pub fn random_array32() -> (r: [u8; 32]) {
    to_array32(random_bytes(32).as_slice()).unwrap()
}

/// A fresh passkey: 32 random letters and digits.
pub fn generate_passkey() -> (r: String)
    ensures
        r@.len() == 32,
        forall|i: int| 0 <= i < r@.len() ==> is_alphanumeric(#[trigger] r@[i]),
{
    random_text(32)
}

/// A passkey is 32 letters and digits, so that it can stand between slashes on one line.
pub proof fn law_passkey(r: String, i: int)
    requires
        call_ensures(generate_passkey, (), r),
        0 <= i < r@.len(),
    ensures
        r@.len() == 32,
        r@[i] != '/',
        !crate::text::is_white(r@[i]),
        'A' <= r@[i] <= 'Z' || 'a' <= r@[i] <= 'z' || '0' <= r@[i] <= '9',
{
    assert(is_alphanumeric(r@[i]));
}

} // verus!
