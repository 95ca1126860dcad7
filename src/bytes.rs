//! Fixed-width integer fields read from byte sequences.
use vstd::prelude::*;

verus! {

/// Unsigned 16-bit little-endian field at `i`.
pub open spec fn u16_le(b: Seq<u8>, i: int) -> int {
    b[i] + b[i + 1] * 256
}

/// Unsigned 16-bit big-endian field at `i`.
pub open spec fn u16_be(b: Seq<u8>, i: int) -> int {
    b[i] * 256 + b[i + 1]
}

/// Unsigned 24-bit little-endian field at `i`.
pub open spec fn u24_le(b: Seq<u8>, i: int) -> int {
    b[i] + b[i + 1] * 256 + b[i + 2] * 65536
}

/// Unsigned 24-bit big-endian field at `i`.
pub open spec fn u24_be(b: Seq<u8>, i: int) -> int {
    b[i] * 65536 + b[i + 1] * 256 + b[i + 2]
}

/// Unsigned 32-bit little-endian field at `i`.
pub open spec fn u32_le(b: Seq<u8>, i: int) -> int {
    u16_le(b, i) + u16_le(b, i + 2) * 65536
}

/// Unsigned 32-bit big-endian field at `i`.
pub open spec fn u32_be(b: Seq<u8>, i: int) -> int {
    u16_be(b, i) * 65536 + u16_be(b, i + 2)
}

/// Unsigned 64-bit little-endian field at `i`.
pub open spec fn u64_le(b: Seq<u8>, i: int) -> int {
    u32_le(b, i) + u32_le(b, i + 4) * 0x1_0000_0000
}

/// Unsigned 64-bit big-endian field at `i`.
pub open spec fn u64_be(b: Seq<u8>, i: int) -> int {
    u32_be(b, i) * 0x1_0000_0000 + u32_be(b, i + 4)
}

/// Two's-complement reading of an unsigned `bits`-wide value.
pub open spec fn signed(v: int, bits: nat) -> int {
    if v >= pow2(bits) / 2 {
        v - pow2(bits)
    } else {
        v
    }
}

/// `2^n`.
pub open spec fn pow2(n: nat) -> int
    decreases n,
{
    if n == 0 {
        1
    } else {
        2 * pow2((n - 1) as nat)
    }
}

/// The powers of two that the field widths use.
pub proof fn lemma_pow2_values()
    ensures
        pow2(8) == 0x100,
        pow2(16) == 0x1_0000,
        pow2(24) == 0x100_0000,
        pow2(32) == 0x1_0000_0000,
{
    reveal_with_fuel(pow2, 33);
}

/// Reads the unsigned 16-bit little-endian field at `i`.
pub fn read_u16_le(b: &[u8], i: usize) -> (r: u16)
    requires
        i + 2 <= b@.len(),
    ensures
        r == u16_le(b@, i as int),
{
    b[i] as u16 + (b[i + 1] as u16) * 256
}

/// Reads the unsigned 16-bit big-endian field at `i`.
pub fn read_u16_be(b: &[u8], i: usize) -> (r: u16)
    requires
        i + 2 <= b@.len(),
    ensures
        r == u16_be(b@, i as int),
{
    (b[i] as u16) * 256 + b[i + 1] as u16
}

/// Reads the unsigned 24-bit little-endian field at `i`.
pub fn read_u24_le(b: &[u8], i: usize) -> (r: u32)
    requires
        i + 3 <= b@.len(),
    ensures
        r == u24_le(b@, i as int),
{
    b[i] as u32 + (b[i + 1] as u32) * 256 + (b[i + 2] as u32) * 65536
}

/// Reads the unsigned 24-bit big-endian field at `i`.
pub fn read_u24_be(b: &[u8], i: usize) -> (r: u32)
    requires
        i + 3 <= b@.len(),
    ensures
        r == u24_be(b@, i as int),
{
    (b[i] as u32) * 65536 + (b[i + 1] as u32) * 256 + b[i + 2] as u32
}

/// Reads the unsigned 32-bit little-endian field at `i`.
pub fn read_u32_le(b: &[u8], i: usize) -> (r: u32)
    requires
        i + 4 <= b@.len(),
    ensures
        r == u32_le(b@, i as int),
{
    let lo = read_u16_le(b, i);
    assert(b@.len() == b.len());
    let hi = read_u16_le(b, i + 2);
    lo as u32 + (hi as u32) * 65536
}

/// Reads the unsigned 32-bit big-endian field at `i`.
pub fn read_u32_be(b: &[u8], i: usize) -> (r: u32)
    requires
        i + 4 <= b@.len(),
    ensures
        r == u32_be(b@, i as int),
{
    let hi = read_u16_be(b, i);
    assert(b@.len() == b.len());
    let lo = read_u16_be(b, i + 2);
    (hi as u32) * 65536 + lo as u32
}

/// Reads the unsigned 64-bit little-endian field at `i`.
pub fn read_u64_le(b: &[u8], i: usize) -> (r: u64)
    requires
        i + 8 <= b@.len(),
    ensures
        r == u64_le(b@, i as int),
{
    let lo = read_u32_le(b, i);
    assert(b@.len() == b.len());
    let hi = read_u32_le(b, i + 4);
    lo as u64 + (hi as u64) * 0x1_0000_0000
}

/// Reads the unsigned 64-bit big-endian field at `i`.
pub fn read_u64_be(b: &[u8], i: usize) -> (r: u64)
    requires
        i + 8 <= b@.len(),
    ensures
        r == u64_be(b@, i as int),
{
    let hi = read_u32_be(b, i);
    assert(b@.len() == b.len());
    let lo = read_u32_be(b, i + 4);
    (hi as u64) * 0x1_0000_0000 + lo as u64
}

/// Two's-complement reading of a 16-bit field.
pub fn to_signed16(v: u16) -> (r: i32)
    ensures
        r == signed(v as int, 16),
{
    proof {
        lemma_pow2_values();
    }
    if v >= 0x8000 {
        v as i32 - 0x1_0000
    } else {
        v as i32
    }
}

/// Two's-complement reading of a 24-bit field.
pub fn to_signed24(v: u32) -> (r: i32)
    requires
        v < 0x100_0000,
    ensures
        r == signed(v as int, 24),
{
    proof {
        lemma_pow2_values();
    }
    if v >= 0x80_0000 {
        v as i32 - 0x100_0000
    } else {
        v as i32
    }
}

/// Two's-complement reading of a 32-bit field.
pub fn to_signed32(v: u32) -> (r: i32)
    ensures
        r == signed(v as int, 32),
{
    proof {
        lemma_pow2_values();
    }
    if v >= 0x8000_0000 {
        (v as i64 - 0x1_0000_0000) as i32
    } else {
        v as i32
    }
}

} // verus!
