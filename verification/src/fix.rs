//! The TFM `fix_word`: a 32-bit fixed-point number in units of 2^-20.

use vstd::prelude::*;

verus! {

/// A fixed-point number in units of 2^-20, before scaling by the design size.
#[derive(Debug, Clone, Copy, PartialEq, Eq, Structural, PartialOrd, Ord, Hash)]
pub struct Fix(pub i32);

/// `v * z / 2^20`, rounded down (toward minus infinity), as TeX's
/// `store_scaled` (tex.web §571-572) gives it for either sign of `v`.
pub open spec fn spec_to_sp(v: int, z: int) -> int {
    (v * z) / 1048576
}

impl Fix {
    /// The value in TeX `sp` (2^-16 pt) when the design size is `z_sp` sp:
    /// the product `v * z / 2^20` rounded down (tex.web §571,
    /// `store_scaled`, computed exactly), cut to 32 bits.
    pub fn to_sp(self, z_sp: i32) -> (r: i32)
        ensures
            r == (spec_to_sp(self.0 as int, z_sp as int) as i32),
    {
        let z = z_sp as i64;
        let v = self.0 as i64;
        let p: i64 = mul_i64(v, z);
        let q: i64 = p >> 20u32;
        proof {
            lemma_shift_is_floor_div(p);
        }
        q as i32
    }
}

fn mul_i64(a: i64, b: i64) -> (r: i64)
    requires
        -2147483648 <= a <= 2147483647,
        -2147483648 <= b <= 2147483647,
    ensures
        r == a * b,
{
    assert(-4611686018427387904 <= a * b <= 4611686018427387904) by (nonlinear_arith)
        requires
            -2147483648 <= a <= 2147483647,
            -2147483648 <= b <= 2147483647,
    ;
    a * b
}

proof fn lemma_shift_is_floor_div(p: i64)
    ensures
        (p >> 20u32) as int == (p as int) / 1048576,
{
    assert((p >> 20u32) as int == (p as int) / 1048576) by (bit_vector);
}

} // verus!
