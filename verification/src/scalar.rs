use vstd::prelude::*;

verus! {

// Real numbers are held as the bit patterns of IEEE-754 single-precision values.
/// The sign bit.
pub const SIGN: u32 = 0x8000_0000;

/// Positive infinity; the patterns above it, sign bit aside, are not numbers.
pub const INFINITY: u32 = 0x7f80_0000;

pub const ZERO: u32 = 0;

pub const ONE: u32 = 0x3f80_0000;

pub const TWO: u32 = 0x4000_0000;

pub const THREE: u32 = 0x4040_0000;

pub const FIVE: u32 = 0x40a0_0000;

pub const TEN: u32 = 0x4120_0000;

pub const HUNDRED: u32 = 0x42c8_0000;

pub const THOUSAND: u32 = 0x447a_0000;

pub const HALF: u32 = 0x3f00_0000;

pub const QUARTER: u32 = 0x3e80_0000;

pub const FIFTH: u32 = 0x3e4c_cccd;

/// The value is a number greater than zero.
pub open spec fn positive(bits: u32) -> bool {
    0 < bits <= INFINITY
}

/// The value is a number less than zero.
pub open spec fn negative(bits: u32) -> bool {
    SIGN < bits <= SIGN + INFINITY
}

/// Whether the value is a number greater than zero.
pub fn is_positive(bits: u32) -> (r: bool)
    ensures
        r == positive(bits),
{
    0 < bits && bits <= INFINITY
}

/// Whether the value is a number less than zero.
pub fn is_negative(bits: u32) -> (r: bool)
    ensures
        r == negative(bits),
{
    SIGN < bits && bits <= 0xff80_0000
}

/// The value with its sign changed.
pub open spec fn negated(bits: u32) -> u32 {
    bits ^ SIGN
}

/// Changes the sign of the value.
pub fn negate(bits: u32) -> (r: u32)
    ensures
        r == negated(bits),
{
    bits ^ SIGN
}

/// Changing the sign twice gives the value back, and turns a number above zero into one
/// below zero and the other way round.
pub proof fn lemma_negated(bits: u32)
    ensures
        negated(negated(bits)) == bits,
        positive(bits) <==> negative(negated(bits)),
        negative(bits) <==> positive(negated(bits)),
{
    assert((bits ^ 0x8000_0000u32) ^ 0x8000_0000u32 == bits) by (bit_vector);
    assert((0 < bits && bits <= 0x7f80_0000u32) <==> (0x8000_0000u32 < (bits ^ 0x8000_0000u32) && (
    bits ^ 0x8000_0000u32) <= 0xff80_0000u32)) by (bit_vector);
    assert((0x8000_0000u32 < bits && bits <= 0xff80_0000u32) <==> (0 < (bits ^ 0x8000_0000u32) && (
    bits ^ 0x8000_0000u32) <= 0x7f80_0000u32)) by (bit_vector);
}

} // verus!
