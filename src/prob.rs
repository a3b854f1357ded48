//! Fixed-point probabilities and ratios.

use vstd::prelude::*;

verus! {

/// The fixed-point unit: `FIXED_ONE` stands for 1.0 in a `Prob` or a `Ratio`.
pub const FIXED_ONE: u64 = 1_000_000_000;

/// A probability in billionths: `Prob(FIXED_ONE)` is certainty.
#[derive(Debug, Clone, Copy, PartialEq, Eq, Structural)]
pub struct Prob(pub u64);

/// A signed scaling factor in billionths: `Ratio(FIXED_ONE as i64)` is the identity.
#[derive(Debug, Clone, Copy, PartialEq, Eq, Structural)]
pub struct Ratio(pub i64);

impl Prob {
    /// A probability lies in `[0, 1]`.
    pub open spec fn valid(self) -> bool {
        self.0 <= FIXED_ONE
    }

    /// Certainty, the weight of the implicit root scenario.
    pub fn one() -> (r: Prob)
        ensures
            r.0 == FIXED_ONE,
    {
        Prob(FIXED_ONE)
    }

    /// The product of two probabilities, rounded down to the fixed-point grid.
    pub open spec fn spec_mul(self, other: Prob) -> Prob {
        Prob(((self.0 as nat) * (other.0 as nat) / (FIXED_ONE as nat)) as u64)
    }

    pub fn mul(self, other: Prob) -> (r: Prob)
        requires
            self.valid(),
            other.valid(),
        ensures
            r == self.spec_mul(other),
            r.valid(),
            r.0 <= self.0,
            r.0 <= other.0,
    {
        let a = self.0 as u128;
        let b = other.0 as u128;
        proof {
            assert(a * b <= (FIXED_ONE as int) * (FIXED_ONE as int)) by (nonlinear_arith)
                requires
                    a <= FIXED_ONE,
                    b <= FIXED_ONE,
            ;
            assert(a * b / (FIXED_ONE as int) <= a) by (nonlinear_arith)
                requires
                    b <= FIXED_ONE,
            ;
            assert(a * b / (FIXED_ONE as int) <= b) by (nonlinear_arith)
                requires
                    a <= FIXED_ONE,
            ;
        }
        let p = a * b / (FIXED_ONE as u128);
        Prob(p as u64)
    }
}

/// The integer nearest to `n / d`, halves rounded away from zero (`d > 0`).
pub open spec fn round_div(n: int, d: int) -> int {
    if n >= 0 {
        (n + d / 2) / d
    } else {
        -((-n + d / 2) / d)
    }
}

/// `v` clamped into the range of `i64`.
pub open spec fn clamp_i64(v: int) -> i64 {
    if v > i64::MAX {
        i64::MAX
    } else if v < i64::MIN {
        i64::MIN
    } else {
        v as i64
    }
}

/// `x` scaled by `r`, rounded half away from zero.
pub open spec fn scaled(x: int, r: Ratio) -> int {
    round_div(x * r.0, FIXED_ONE as int)
}

/// `v` lies in the range of `i64`.
pub open spec fn fits_i64(v: int) -> bool {
    i64::MIN <= v <= i64::MAX
}

/// Clamps an `i128` into the range of `i64`.
pub fn saturate_i64(v: i128) -> (r: i64)
    ensures
        r == clamp_i64(v as int),
{
    if v > i64::MAX as i128 {
        i64::MAX
    } else if v < i64::MIN as i128 {
        i64::MIN
    } else {
        v as i64
    }
}

/// Scales the magnitude `mag` (with sign `neg`) by `r`.
fn scale_signed(neg: bool, mag: u64, r: Ratio) -> (out: i128)
    requires
        !neg || mag <= 0x8000_0000_0000_0000u64,
    ensures
        out == scaled(if neg { -(mag as int) } else { mag as int }, r),
        -0x10_0000_0000_0000_0000_0000_0000 < out < 0x10_0000_0000_0000_0000_0000_0000,
{
    let r_neg = r.0 < 0;
    let r_mag: u64 = if r_neg {
        (-(r.0 as i128)) as u64
    } else {
        r.0 as u64
    };
    let m = mag as u128;
    let q = r_mag as u128;
    proof {
        assert(m * q <= 0xffff_ffff_ffff_ffff * 0xffff_ffff_ffff_ffff) by (nonlinear_arith)
            requires
                m <= 0xffff_ffff_ffff_ffffu128,
                q <= 0xffff_ffff_ffff_ffffu128,
        ;
    }
    let prod = m * q;
    let half = (FIXED_ONE / 2) as u128;
    let rounded: u128 = (prod + half) / (FIXED_ONE as u128);
    let x: Ghost<int> = Ghost(if neg { -(mag as int) } else { mag as int });
    proof {
        assert(prod + half <= 0xffff_ffff_ffff_ffff * 0xffff_ffff_ffff_ffff + half);
        assert(rounded <= prod);
        if neg == r_neg {
            assert(x@ * r.0 == prod as int) by (nonlinear_arith)
                requires
                    x@ == (if neg { -(mag as int) } else { mag as int }),
                    r.0 == (if r_neg { -(r_mag as int) } else { r_mag as int }),
                    neg == r_neg,
                    prod as int == (mag as int) * (r_mag as int),
            ;
        } else {
            assert(x@ * r.0 == -(prod as int)) by (nonlinear_arith)
                requires
                    x@ == (if neg { -(mag as int) } else { mag as int }),
                    r.0 == (if r_neg { -(r_mag as int) } else { r_mag as int }),
                    neg != r_neg,
                    prod as int == (mag as int) * (r_mag as int),
            ;
        }
    }
    proof {
        let t = prod + half;
        assert(t < 0x1_0000_0000_0000_0000_0000_0000_0000_0000);
        assert(t / (FIXED_ONE as int) < 0x10_0000_0000_0000_0000_0000_0000) by (nonlinear_arith)
            requires
                0 <= t < 0x1_0000_0000_0000_0000_0000_0000_0000_0000,
        ;
    }
    if neg == r_neg {
        rounded as i128
    } else {
        -(rounded as i128)
    }
}

/// `x` scaled by `r`, exactly as `scaled` states; the result may lie
/// outside the range of `i64`.
pub fn scale_i64(x: i64, r: Ratio) -> (out: i128)
    ensures
        out == scaled(x as int, r),
        -0x10_0000_0000_0000_0000_0000_0000 < out < 0x10_0000_0000_0000_0000_0000_0000,
{
    if x < 0 {
        scale_signed(true, (-(x as i128)) as u64, r)
    } else {
        scale_signed(false, x as u64, r)
    }
}

/// `x` scaled by `r`, exactly as `scaled` states.
pub fn scale_u64(x: u64, r: Ratio) -> (out: i128)
    ensures
        out == scaled(x as int, r),
        -0x10_0000_0000_0000_0000_0000_0000 < out < 0x10_0000_0000_0000_0000_0000_0000,
{
    scale_signed(false, x, r)
}

} // verus!
