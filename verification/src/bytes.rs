//! Little-endian integers in byte buffers.

use vstd::prelude::*;

verus! {

/// The unsigned 16-bit number at position `at`.
pub open spec fn u16_at(buf: Seq<u8>, at: int) -> u16 {
    (buf[at] + 256 * buf[at + 1]) as u16
}

/// The unsigned 32-bit number at position `at`.
pub open spec fn u32_at(buf: Seq<u8>, at: int) -> u32 {
    (buf[at] + 256 * buf[at + 1] + 65536 * buf[at + 2] + 16777216 * buf[at + 3]) as u32
}

pub open spec fn u16_bytes(v: u16) -> Seq<u8> {
    seq![(v % 256) as u8, (v / 256) as u8]
}

pub open spec fn u32_bytes(v: u32) -> Seq<u8> {
    seq![
        (v % 256) as u8,
        (v / 256 % 256) as u8,
        (v / 65536 % 256) as u8,
        (v / 16777216) as u8,
    ]
}

/// The two's complement reading of 16 bits.
pub open spec fn signed_16(v: u16) -> i16 {
    if v < 0x8000 {
        v as i16
    } else {
        (v - 0x10000) as i16
    }
}

/// The 16 bits of a two's complement number.
pub open spec fn unsigned_16(v: i16) -> u16 {
    if v >= 0 {
        v as u16
    } else {
        (v + 0x10000) as u16
    }
}

/// The two's complement reading of 32 bits.
pub open spec fn signed_32(v: u32) -> i32 {
    if v < 0x8000_0000 {
        v as i32
    } else {
        (v - 0x1_0000_0000) as i32
    }
}

pub fn read_u16(buf: &[u8], at: usize) -> (v: u16)
    requires
        at + 2 <= buf@.len(),
    ensures
        v == u16_at(buf@, at as int),
{
    buf[at] as u16 + 256 * (buf[at + 1] as u16)
}

pub fn read_u32(buf: &[u8], at: usize) -> (v: u32)
    requires
        at + 4 <= buf@.len(),
    ensures
        v == u32_at(buf@, at as int),
{
    buf[at] as u32 + 256 * (buf[at + 1] as u32) + 65536 * (buf[at + 2] as u32) + 16777216 * (buf[at
        + 3] as u32)
}

pub fn push_u16(buf: &mut Vec<u8>, v: u16)
    ensures
        final(buf)@ == old(buf)@ + u16_bytes(v),
{
    buf.push((v % 256) as u8);
    buf.push((v / 256) as u8);
    assert(buf@ == old(buf)@ + u16_bytes(v));
}

pub fn push_u32(buf: &mut Vec<u8>, v: u32)
    ensures
        final(buf)@ == old(buf)@ + u32_bytes(v),
{
    buf.push((v % 256) as u8);
    buf.push((v / 256 % 256) as u8);
    buf.push((v / 65536 % 256) as u8);
    buf.push((v / 16777216) as u8);
    assert(buf@ == old(buf)@ + u32_bytes(v));
}

pub fn as_signed_16(v: u16) -> (s: i16)
    ensures
        s == signed_16(v),
{
    if v < 0x8000 {
        v as i16
    } else {
        (v as i32 - 0x10000) as i16
    }
}

pub fn as_unsigned_16(v: i16) -> (u: u16)
    ensures
        u == unsigned_16(v),
{
    if v >= 0 {
        v as u16
    } else {
        (v as i32 + 0x10000) as u16
    }
}

pub fn as_signed_32(v: u32) -> (s: i32)
    ensures
        s == signed_32(v),
{
    if v < 0x8000_0000 {
        v as i32
    } else {
        (v as i64 - 0x1_0000_0000) as i32
    }
}

/// A 16-bit number is read back from the bytes it was written to.
pub proof fn u16_round_trip(front: Seq<u8>, v: u16, back: Seq<u8>)
    ensures
        u16_at(front + u16_bytes(v) + back, front.len() as int) == v,
        signed_16(unsigned_16(signed_16(v))) == signed_16(v),
{
    let buf = front + u16_bytes(v) + back;
    let at = front.len() as int;
    assert(buf[at] == u16_bytes(v)[0]);
    assert(buf[at + 1] == u16_bytes(v)[1]);
}

/// A 32-bit number is read back from the bytes it was written to.
#[verifier::spinoff_prover]
pub proof fn u32_round_trip(front: Seq<u8>, v: u32, back: Seq<u8>)
    ensures
        u32_at(front + u32_bytes(v) + back, front.len() as int) == v,
{
    let buf = front + u32_bytes(v) + back;
    let at = front.len() as int;
    assert(buf[at] == u32_bytes(v)[0]);
    assert(buf[at + 1] == u32_bytes(v)[1]);
    assert(buf[at + 2] == u32_bytes(v)[2]);
    assert(buf[at + 3] == u32_bytes(v)[3]);
    four_bytes_make_up(v);
}

/// A number is the sum of its four bytes, each at its weight.
#[verifier::spinoff_prover]
proof fn four_bytes_make_up(v: u32)
    ensures
        v % 256 + 256 * (v / 256 % 256) + 65536 * (v / 65536 % 256) + 16777216 * (v / 16777216)
            == v,
        v / 16777216 < 256,
{
    assert(v / 65536 == (v / 256) / 256);
    assert(v / 16777216 == (v / 65536) / 256);
}

} // verus!
