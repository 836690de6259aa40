use vstd::prelude::*;

verus! {

/// A 128-bit unsigned integer split into two 64-bit halves.
#[derive(Debug, Clone, Copy, PartialEq, Eq, Structural, PartialOrd, Ord)]
pub struct UInt128 {
    pub low: u64,
    pub high: u64,
}

/// The value a [`UInt128`] stands for.
pub open spec fn uint128_value(v: UInt128) -> int {
    v.high * 0x1_0000_0000_0000_0000 + v.low
}

impl UInt128 {
    /// The full 128-bit product of two `u64` values.
    pub fn multiply(a: u64, b: u64) -> (r: Self)
        ensures
            uint128_value(r) == a * b,
    {
        let a2 = a as u128;
        let b2 = b as u128;
        assert(a2 * b2 <= 0xffff_ffff_ffff_ffff * 0xffff_ffff_ffff_ffffu128) by (nonlinear_arith)
            requires
                a2 <= 0xffff_ffff_ffff_ffffu128,
                b2 <= 0xffff_ffff_ffff_ffffu128,
        ;
        let res = a2 * b2;
        let low = #[verifier::truncate] (res as u64);
        let high = #[verifier::truncate] ((res >> 64u32) as u64);
        assert(high as int * 0x1_0000_0000_0000_0000 + low as int == res) by (bit_vector)
            requires
                low == #[verifier::truncate] (res as u64),
                high == #[verifier::truncate] ((res >> 64u32) as u64),
        ;
        Self { low, high }
    }
}

} // verus!
