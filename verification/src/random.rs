//! The random source: masking keys and handshake nonces.

use crate::encoding::{base64_encode, base64_standard};
use vstd::prelude::*;
use vstd::array::array_as_slice;

verus! {

/// The four bytes of a 32-bit value, most significant first.
pub open spec fn key_bytes(value: u32) -> Seq<u8> {
    seq![
        (value / 0x100_0000 % 0x100) as u8,
        (value / 0x1_0000 % 0x100) as u8,
        (value / 0x100 % 0x100) as u8,
        (value % 0x100) as u8,
    ]
}

/// Draws a 32-bit value with `rand::Rng::gen` from `rand::thread_rng()`.
/// Nothing is promised of the value.
#[verifier::external_body]
fn random_u32() -> u32 {
    rand::Rng::gen(&mut rand::thread_rng())
}

/// Draws sixteen bytes with `rand::random`. Nothing is promised of them.
#[verifier::external_body]
fn random_nonce() -> [u8; 16] {
    rand::random()
}

/// Splits a 32-bit value into its four bytes, most significant first.
pub fn u32_to_u8_vec(value: u32) -> (bytes: Vec<u8>)
    ensures
        bytes@ == key_bytes(value),
{
    let b0: u8 = (value >> 24 & 0xff) as u8;
    let b1: u8 = (value >> 16 & 0xff) as u8;
    let b2: u8 = (value >> 8 & 0xff) as u8;
    let b3: u8 = (value & 0xff) as u8;
    assert(b0 == value / 0x100_0000 % 0x100 && b1 == value / 0x1_0000 % 0x100 && b2 == value
        / 0x100 % 0x100 && b3 == value % 0x100) by (bit_vector)
        requires
            b0 == (value >> 24 & 0xff) as u8,
            b1 == (value >> 16 & 0xff) as u8,
            b2 == (value >> 8 & 0xff) as u8,
            b3 == (value & 0xff) as u8,
    ;
    let mut bytes: Vec<u8> = Vec::new();
    bytes.push(b0);
    bytes.push(b1);
    bytes.push(b2);
    bytes.push(b3);
    assert(bytes@ =~= key_bytes(value));
    bytes
}

/// A fresh 4-byte masking key: the bytes of a random 32-bit value.
pub fn random_i32_to_u8_vec() -> (key: Vec<u8>)
    ensures
        key@.len() == 4,
        exists|value: u32| key@ == key_bytes(value),
{
    let value = random_u32();
    u32_to_u8_vec(value)
}

/// A fresh handshake nonce: the Base64 text of sixteen random bytes.
pub fn generate_random_base64_str() -> (text: String)
    ensures
        exists|nonce: Seq<u8>| nonce.len() == 16 && text@ == base64_standard(nonce),
{
    let nonce = random_nonce();
    let text = base64_encode(array_as_slice(&nonce));
    assert(nonce@.len() == 16 && text@ == base64_standard(nonce@));
    text
}

} // verus!
