//! Big-endian integers as they appear in a frame header.

use vstd::arithmetic::div_mod::lemma_div_denominator;
use vstd::prelude::*;

verus! {

/// The number that the first two bytes of `bytes` spell in big-endian order.
pub open spec fn be16_value(bytes: Seq<u8>) -> nat
    recommends
        bytes.len() >= 2,
{
    (bytes[0] as nat) * 0x100 + (bytes[1] as nat)
}

/// The number that the first eight bytes of `bytes` spell in big-endian order.
pub open spec fn be64_value(bytes: Seq<u8>) -> nat
    recommends
        bytes.len() >= 8,
{
    (bytes[0] as nat) * 0x100_0000_0000_0000 + (bytes[1] as nat) * 0x1_0000_0000_0000
        + (bytes[2] as nat) * 0x100_0000_0000 + (bytes[3] as nat) * 0x1_0000_0000
        + (bytes[4] as nat) * 0x100_0000 + (bytes[5] as nat) * 0x1_0000
        + (bytes[6] as nat) * 0x100 + (bytes[7] as nat)
}

/// The two bytes that spell `value` in big-endian order.
pub open spec fn be16_bytes(value: nat) -> Seq<u8>
    recommends
        value < 0x1_0000,
{
    seq![(value / 0x100 % 0x100) as u8, (value % 0x100) as u8]
}

/// The eight bytes that spell `value` in big-endian order.
pub open spec fn be64_bytes(value: nat) -> Seq<u8>
    recommends
        value < 0x1_0000_0000_0000_0000,
{
    seq![
        (value / 0x100_0000_0000_0000 % 0x100) as u8,
        (value / 0x1_0000_0000_0000 % 0x100) as u8,
        (value / 0x100_0000_0000 % 0x100) as u8,
        (value / 0x1_0000_0000 % 0x100) as u8,
        (value / 0x100_0000 % 0x100) as u8,
        (value / 0x1_0000 % 0x100) as u8,
        (value / 0x100 % 0x100) as u8,
        (value % 0x100) as u8,
    ]
}

/// Reading back the two bytes written for a 16-bit value yields that value.
pub proof fn lemma_be16_round_trip(value: nat)
    requires
        value < 0x1_0000,
    ensures
        be16_bytes(value).len() == 2,
        be16_value(be16_bytes(value)) == value,
{
}

/// Dividing by 256 repeatedly reaches the same quotients as dividing by the
/// powers of 256 at once.
proof fn lemma_quotients(value: int)
    requires
        0 <= value,
    ensures
        value / 0x100 / 0x100 == value / 0x1_0000,
        value / 0x1_0000 / 0x100 == value / 0x100_0000,
        value / 0x100_0000 / 0x100 == value / 0x1_0000_0000,
        value / 0x1_0000_0000 / 0x100 == value / 0x100_0000_0000,
        value / 0x100_0000_0000 / 0x100 == value / 0x1_0000_0000_0000,
        value / 0x1_0000_0000_0000 / 0x100 == value / 0x100_0000_0000_0000,
{
    lemma_div_denominator(value, 0x100, 0x100);
    lemma_div_denominator(value, 0x1_0000, 0x100);
    lemma_div_denominator(value, 0x100_0000, 0x100);
    lemma_div_denominator(value, 0x1_0000_0000, 0x100);
    lemma_div_denominator(value, 0x100_0000_0000, 0x100);
    lemma_div_denominator(value, 0x1_0000_0000_0000, 0x100);
}

/// Reading back the eight bytes written for a 64-bit value yields that value.
pub proof fn lemma_be64_round_trip(value: nat)
    requires
        value < 0x1_0000_0000_0000_0000,
    ensures
        be64_bytes(value).len() == 8,
        be64_value(be64_bytes(value)) == value,
{
    lemma_quotients(value as int);
    let q1 = value / 0x100;
    let q2 = value / 0x1_0000;
    let q3 = value / 0x100_0000;
    let q4 = value / 0x1_0000_0000;
    let q5 = value / 0x100_0000_0000;
    let q6 = value / 0x1_0000_0000_0000;
    let q7 = value / 0x100_0000_0000_0000;
    assert(value == q1 * 0x100 + value % 0x100);
    assert(q1 == q2 * 0x100 + q1 % 0x100);
    assert(q2 == q3 * 0x100 + q2 % 0x100);
    assert(q3 == q4 * 0x100 + q3 % 0x100);
    assert(q4 == q5 * 0x100 + q4 % 0x100);
    assert(q5 == q6 * 0x100 + q5 % 0x100);
    assert(q6 == q7 * 0x100 + q6 % 0x100);
    assert(q7 < 0x100);
}

/// Calls `bytes::Buf::get_u16` on the slice. That method reads the first two
/// bytes as a big-endian integer and panics when fewer than two remain, which
/// the precondition rules out.
#[verifier::external_body]
pub(crate) fn get_u16(bytes: &[u8]) -> (value: u16)
    requires
        bytes@.len() >= 2,
    ensures
        value as nat == be16_value(bytes@),
{
    let mut cursor = bytes;
    bytes::Buf::get_u16(&mut cursor)
}

/// Calls `bytes::Buf::get_u64` on the slice. That method reads the first
/// eight bytes as a big-endian integer and panics when fewer than eight
/// remain, which the precondition rules out.
#[verifier::external_body]
pub(crate) fn get_u64(bytes: &[u8]) -> (value: u64)
    requires
        bytes@.len() >= 8,
    ensures
        value as nat == be64_value(bytes@),
{
    let mut cursor = bytes;
    bytes::Buf::get_u64(&mut cursor)
}

/// Appends the two big-endian bytes of `value` to `buf`.
pub fn put_u16(buf: &mut Vec<u8>, value: u16)
    ensures
        final(buf)@ == old(buf)@ + be16_bytes(value as nat),
{
    let hi: u8 = (value >> 8) as u8;
    let lo: u8 = (value & 0xff) as u8;
    assert(hi == value / 0x100 % 0x100 && lo == value % 0x100) by (bit_vector)
        requires
            hi == (value >> 8) as u8,
            lo == (value & 0xff) as u8,
    ;
    buf.push(hi);
    buf.push(lo);
    assert(buf@ =~= old(buf)@ + be16_bytes(value as nat));
}

/// Appends the eight big-endian bytes of `value` to `buf`.
pub fn put_u64(buf: &mut Vec<u8>, value: u64)
    ensures
        final(buf)@ == old(buf)@ + be64_bytes(value as nat),
{
    let b0: u8 = ((value >> 56) & 0xff) as u8;
    let b1: u8 = ((value >> 48) & 0xff) as u8;
    let b2: u8 = ((value >> 40) & 0xff) as u8;
    let b3: u8 = ((value >> 32) & 0xff) as u8;
    let b4: u8 = ((value >> 24) & 0xff) as u8;
    let b5: u8 = ((value >> 16) & 0xff) as u8;
    let b6: u8 = ((value >> 8) & 0xff) as u8;
    let b7: u8 = (value & 0xff) as u8;
    assert(b0 == value / 0x100_0000_0000_0000 % 0x100 && b1 == value / 0x1_0000_0000_0000 % 0x100
        && b2 == value / 0x100_0000_0000 % 0x100 && b3 == value / 0x1_0000_0000 % 0x100) by (bit_vector)
        requires
            b0 == ((value >> 56) & 0xff) as u8,
            b1 == ((value >> 48) & 0xff) as u8,
            b2 == ((value >> 40) & 0xff) as u8,
            b3 == ((value >> 32) & 0xff) as u8,
    ;
    assert(b4 == value / 0x100_0000 % 0x100 && b5 == value / 0x1_0000 % 0x100 && b6 == value
        / 0x100 % 0x100 && b7 == value % 0x100) by (bit_vector)
        requires
            b4 == ((value >> 24) & 0xff) as u8,
            b5 == ((value >> 16) & 0xff) as u8,
            b6 == ((value >> 8) & 0xff) as u8,
            b7 == (value & 0xff) as u8,
    ;
    buf.push(b0);
    buf.push(b1);
    buf.push(b2);
    buf.push(b3);
    buf.push(b4);
    buf.push(b5);
    buf.push(b6);
    buf.push(b7);
    assert(buf@ =~= old(buf)@ + be64_bytes(value as nat));
}

} // verus!
