//! Values taken out of processor registers.

use vstd::prelude::*;

verus! {

/// Bits 8 to 15 of `rax`: the register `ah`.
pub open spec fn ah_of(rax: u64) -> u8 {
    ((rax / 256) % 256) as u8
}

/// The value of `ah`, given that of `rax`.
pub fn get_ah_value(rax: u64) -> (ah: u8)
    ensures
        ah == ah_of(rax),
{
    let shifted: u64 = rax >> 8;
    let masked: u64 = shifted & 0xFF;
    proof {
        assert((rax >> 8) & 0xFF == (rax / 256) % 256) by (bit_vector);
    }
    masked as u8
}

} // verus!
