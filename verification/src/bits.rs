//! Single bits.

use vstd::prelude::*;

verus! {

/// The value of a bit at a specific index.
pub open spec fn bit(value: u8, index: int) -> u8 {
    (value >> index) & 1
}

/// The value of a bit at a specific index.
pub fn get_bit(value: u8, index: u8) -> (r: u8)
    requires
        index < 8,
    ensures
        r == bit(value, index as int),
        r == 0 || r == 1,
{
    assert((value >> index) & 1 == 0 || (value >> index) & 1 == 1) by (bit_vector);
    (value >> index) & 0x1
}

/// A byte is the sum of its bits.
pub proof fn law_bits_make_value(value: u8)
    ensures
        value == bit(value, 0) + 2 * bit(value, 1) + 4 * bit(value, 2) + 8 * bit(value, 3) + 16
            * bit(value, 4) + 32 * bit(value, 5) + 64 * bit(value, 6) + 128 * bit(value, 7),
{
    assert(value == ((value >> 0u8) & 1) + 2 * ((value >> 1u8) & 1) + 4 * ((value >> 2u8) & 1) + 8
        * ((value >> 3u8) & 1) + 16 * ((value >> 4u8) & 1) + 32 * ((value >> 5u8) & 1) + 64 * ((
    value >> 6u8) & 1) + 128 * ((value >> 7u8) & 1)) by (bit_vector);
}

} // verus!
