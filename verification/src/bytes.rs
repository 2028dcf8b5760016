//! Fixed-width integers read from byte sequences, little- and big-endian.
use vstd::prelude::*;

verus! {

/// Unsigned value of two little-endian bytes.
pub open spec fn le_u16_spec(b0: u8, b1: u8) -> int {
    b0 as int + 256 * (b1 as int)
}

/// Unsigned value of four little-endian bytes.
pub open spec fn le_u32_spec(b0: u8, b1: u8, b2: u8, b3: u8) -> int {
    b0 as int + 256 * (b1 as int) + 65536 * (b2 as int) + 16777216 * (b3 as int)
}

/// Two's-complement reading of a 32-bit unsigned value.
pub open spec fn signed32(v: int) -> int {
    if v < 0x8000_0000 { v } else { v - 0x1_0000_0000 }
}

/// Two's-complement reading of a 16-bit unsigned value.
pub open spec fn signed16(v: int) -> int {
    if v < 0x8000 { v } else { v - 0x1_0000 }
}

/// `u16::from_le_bytes([b0, b1])`.
pub fn le_u16(b0: u8, b1: u8) -> (res: u16)
    ensures
        res as int == le_u16_spec(b0, b1),
{
    b0 as u16 + 256 * (b1 as u16)
}

/// `u32::from_le_bytes([b0, b1, b2, b3])`.
pub fn le_u32(b0: u8, b1: u8, b2: u8, b3: u8) -> (res: u32)
    ensures
        res as int == le_u32_spec(b0, b1, b2, b3),
{
    b0 as u32 + 256 * (b1 as u32) + 65536 * (b2 as u32) + 16777216 * (b3 as u32)
}

/// Reinterprets a 32-bit unsigned value as two's-complement signed.
pub fn to_signed32(v: u32) -> (res: i32)
    ensures
        res as int == signed32(v as int),
{
    if v < 0x8000_0000 {
        v as i32
    } else {
        let d = (v - 0x8000_0000) as i32;
        d - 0x4000_0000 - 0x4000_0000
    }
}

/// Reinterprets a 16-bit unsigned value as two's-complement signed.
pub fn to_signed16(v: u16) -> (res: i16)
    ensures
        res as int == signed16(v as int),
{
    if v < 0x8000 {
        v as i16
    } else {
        let d = (v - 0x8000) as i16;
        d - 0x4000 - 0x4000
    }
}

/// `i32::from_le_bytes([b0, b1, b2, b3])`.
pub fn le_i32(b0: u8, b1: u8, b2: u8, b3: u8) -> (res: i32)
    ensures
        res as int == signed32(le_u32_spec(b0, b1, b2, b3)),
{
    to_signed32(le_u32(b0, b1, b2, b3))
}

/// `u16::from_be_bytes([b0, b1])`.
pub fn be_u16(b0: u8, b1: u8) -> (res: u16)
    ensures
        res as int == le_u16_spec(b1, b0),
{
    le_u16(b1, b0)
}

/// `i16::from_be_bytes([b0, b1])`.
pub fn be_i16(b0: u8, b1: u8) -> (res: i16)
    ensures
        res as int == signed16(le_u16_spec(b1, b0)),
{
    to_signed16(le_u16(b1, b0))
}

/// `i32::from_be_bytes([b0, b1, b2, b3])`.
pub fn be_i32(b0: u8, b1: u8, b2: u8, b3: u8) -> (res: i32)
    ensures
        res as int == signed32(le_u32_spec(b3, b2, b1, b0)),
{
    to_signed32(le_u32(b3, b2, b1, b0))
}

/// Unsigned big-endian value of a byte string.
pub open spec fn be_value(b: Seq<u8>) -> nat
    decreases b.len(),
{
    if b.len() == 0 {
        0
    } else {
        be_value(b.drop_last()) * 256 + b.last() as nat
    }
}

/// `256^n`.
pub open spec fn pow256(n: nat) -> nat
    decreases n,
{
    if n == 0 {
        1
    } else {
        256 * pow256((n - 1) as nat)
    }
}

/// A big-endian value of `n` bytes is below `256^n`.
pub proof fn lemma_be_value_bound(b: Seq<u8>)
    ensures
        be_value(b) < pow256(b.len()),
    decreases b.len(),
{
    if b.len() > 0 {
        lemma_be_value_bound(b.drop_last());
        let v = be_value(b.drop_last());
        let p = pow256((b.len() - 1) as nat);
        assert(v * 256 + b.last() < p * 256) by (nonlinear_arith)
            requires
                v < p,
                b.last() < 256,
        ;
    }
}

/// `256^a <= 256^b` when `a <= b`.
pub proof fn lemma_pow256_monotonic(a: nat, b: nat)
    requires
        a <= b,
    ensures
        pow256(a) <= pow256(b),
    decreases b,
{
    if a < b {
        lemma_pow256_monotonic(a, (b - 1) as nat);
    }
}

/// `u64::from_be_bytes` of the eight bytes `b[at..at + 8]`.
pub fn be_u64_at(b: &[u8], at: usize) -> (res: u64)
    requires
        at + 8 <= b.len(),
    ensures
        res as nat == be_value(b@.subrange(at as int, at + 8)),
{
    let mut v: u64 = 0;
    let mut k: usize = 0;
    while k < 8
        invariant
            k <= 8,
            at + 8 <= b.len(),
            v as nat == be_value(b@.subrange(at as int, at + k)),
        decreases 8 - k,
    {
        proof {
            let s = b@.subrange(at as int, at + k + 1);
            assert(s.drop_last() == b@.subrange(at as int, at + k));
            lemma_be_value_bound(s);
            lemma_pow256_monotonic(s.len(), 8);
            reveal_with_fuel(pow256, 9);
            assert(pow256(8) == 18446744073709551616);
        }
        v = v * 256 + b[at + k] as u64;
        k += 1;
    }
    v
}

} // verus!
