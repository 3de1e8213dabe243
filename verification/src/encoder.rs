//! Wheel-encoder arithmetic for the motor controller's 32-bit counters.
//!
//! The controller reports each wheel's encoder as a free-running 32-bit
//! counter, transmitted as four big-endian bytes. The counter wraps
//! around at either end, so the distance traveled between two samples is
//! the difference of the two readings interpreted modulo 2^32, mapped
//! into the signed range.

use vstd::prelude::*;

verus! {

/// The difference `a - b` of two counter readings, taken modulo 2^32 and
/// interpreted as a signed step count in `[-2^31, 2^31)`.
pub open spec fn wrapped_diff(a: u32, b: u32) -> int {
    let d = (a - b) % 0x1_0000_0000;
    if d >= 0x8000_0000 {
        d - 0x1_0000_0000
    } else {
        d
    }
}

/// The value of a 32-bit counter transmitted as four big-endian bytes.
pub open spec fn big_endian_value(b0: u8, b1: u8, b2: u8, b3: u8) -> int {
    b0 * 0x1_00_00_00 + b1 * 0x1_00_00 + b2 * 0x1_00 + b3
}

/// Signed number of encoder steps between two counter samples, robust
/// against the counter wrapping around between the samples.
pub fn encoder_diff(a: &u32, b: &u32) -> (r: i32)
    ensures
        r as int == wrapped_diff(*a, *b),
{
    let d: u32 = a.wrapping_sub(*b);
    proof {
        assert(d == (*a - *b) % 0x1_0000_0000) by {
            if *a >= *b {
                assert((*a - *b) % 0x1_0000_0000 == *a - *b) by {
                    vstd::arithmetic::div_mod::lemma_small_mod((*a - *b) as nat, 0x1_0000_0000);
                };
            } else {
                vstd::arithmetic::div_mod::lemma_mod_add_multiples_vanish(*a - *b, 0x1_0000_0000);
                vstd::arithmetic::div_mod::lemma_small_mod((*a - *b + 0x1_0000_0000) as nat, 0x1_0000_0000);
            }
        };
    }
    if d <= 0x7fff_ffff {
        d as i32
    } else {
        ((d as i64) - 0x1_0000_0000i64) as i32
    }
}

/// Reassembles a 32-bit encoder counter from the four big-endian bytes
/// read off the controller's consecutive registers.
pub fn encoder_value(bytes: &Vec<u8>) -> (r: u32)
    requires
        bytes@.len() == 4,
    ensures
        r as int == big_endian_value(bytes@[0], bytes@[1], bytes@[2], bytes@[3]),
{
    let r: u32 = (bytes[0] as u32) * 0x1_00_00_00 + (bytes[1] as u32) * 0x1_00_00
        + (bytes[2] as u32) * 0x1_00 + (bytes[3] as u32);
    r
}

} // verus!
