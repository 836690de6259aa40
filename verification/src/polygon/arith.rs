use vstd::prelude::*;

verus! {

/// The bound on a product of two `i32` values.
pub proof fn lemma_i32_product_bounds(a: i32, b: i32)
    ensures
        -0x4000_0000_0000_0000 + 0x8000_0000 <= (a as int) * (b as int) <= 0x4000_0000_0000_0000,
{
    assert(-0x8000_0000 <= a <= 0x7fff_ffff);
    assert(-0x8000_0000 <= b <= 0x7fff_ffff);
    assert(-0x4000_0000_0000_0000 + 0x8000_0000 <= (a as int) * (b as int) <= 0x4000_0000_0000_0000)
        by (nonlinear_arith)
        requires
            -0x8000_0000 <= a <= 0x7fff_ffff,
            -0x8000_0000 <= b <= 0x7fff_ffff,
    ;
}

} // verus!
