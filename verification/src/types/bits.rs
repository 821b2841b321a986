//! Reversal of the bit order inside one byte, as the binary format applies it
//! to every header and numeric byte.

use vstd::prelude::*;

verus! {

/// The byte whose bit `7 - i` is bit `i` of `b`.
pub open spec fn reversed(b: u8) -> u8 {
    ((b & 0x01) << 7) | ((b & 0x02) << 5) | ((b & 0x04) << 3) | ((b & 0x08) << 1)
        | ((b & 0x10) >> 1) | ((b & 0x20) >> 3) | ((b & 0x40) >> 5) | ((b & 0x80) >> 7)
}

/// Reversing the bits of a byte twice gives the byte back.
pub proof fn lemma_reversed_involution(b: u8)
    ensures
        reversed(reversed(b)) == b,
{
    assert(reversed(reversed(b)) == b) by (bit_vector);
}

/// Calls `bit_reverse::ParallelReverse::swap_bits` on a `u8`. Trusted: the
/// result holds the bits of `b` in the opposite order, bit `i` at `7 - i`.
#[verifier::external_body]
pub(crate) fn swap_bits(b: u8) -> (r: u8)
    ensures
        r == reversed(b),
{
    bit_reverse::ParallelReverse::swap_bits(b)
}

} // verus!
