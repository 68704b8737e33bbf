//! Exact number representations for the clustering pipeline.
//!
//! Input coordinates are dyadic fixed-point values `num / 2^exp`, the value
//! domain of binary floating-point data. Derived geometry (cell corners,
//! representative points) consists of exact fractions `num / den`. Bounds on
//! magnitude and on the fractional exponent keep every intermediate product
//! of the pipeline inside `i128`, so all arithmetic is exact.

use vstd::arithmetic::power2::{
    lemma2_to64, lemma2_to64_rest, lemma_pow2_adds, lemma_pow2_pos, lemma_pow2_strictly_increases,
    lemma_pow2_unfold, pow2,
};
use vstd::prelude::*;

verus! {

/// Magnitude bound for coordinates: every well-formed `Dyadic` value lies in
/// `[-2^COORD_MAG_EXP, 2^COORD_MAG_EXP]`.
pub const COORD_MAG_EXP: u32 = 40;

/// Largest fractional exponent a coordinate may carry.
pub const COORD_EXP_MAX: u32 = 62;

/// A dyadic fixed-point number with value `num / 2^exp`.
///
/// Binary floating-point inputs of moderate magnitude convert to this type
/// without rounding; all library arithmetic on it is exact.
#[derive(Clone, Copy, Debug, PartialEq, Eq, Structural)]
pub struct Dyadic {
    pub num: i64,
    pub exp: u32,
}

/// An exact fraction `num / den` with positive denominator. Cell corners and
/// representative points are reported in this form.
#[derive(Clone, Copy, Debug, PartialEq, Eq, Structural)]
pub struct Ratio {
    pub num: i128,
    pub den: i128,
}

impl Dyadic {
    /// Well-formedness: the fractional exponent is bounded and the value
    /// `num / 2^exp` lies within `[-2^COORD_MAG_EXP, 2^COORD_MAG_EXP]`.
    pub open spec fn wf(self) -> bool {
        &&& self.exp <= COORD_EXP_MAX
        &&& -(pow2((COORD_MAG_EXP + self.exp) as nat) as int) <= self.num as int
        &&& self.num as int <= pow2((COORD_MAG_EXP + self.exp) as nat) as int
    }

    /// `self <= other` as mathematical values, by cross-multiplication.
    pub open spec fn spec_le(self, other: Dyadic) -> bool {
        self.num * pow2(other.exp as nat) <= other.num * pow2(self.exp as nat)
    }

    /// `self == other` as mathematical values.
    pub open spec fn spec_eq_val(self, other: Dyadic) -> bool {
        self.num * pow2(other.exp as nat) == other.num * pow2(self.exp as nat)
    }

    /// The value is strictly positive (the denominator `2^exp` always is).
    pub open spec fn spec_pos(self) -> bool {
        self.num > 0
    }

    /// Builds a dyadic value, accepting exactly the well-formed range.
    pub fn new(num: i64, exp: u32) -> (r: Option<Dyadic>)
        ensures
            r matches Some(d) ==> d == (Dyadic { num, exp }) && d.wf(),
            r is None ==> !(Dyadic { num, exp }).wf(),
    {
        if exp > COORD_EXP_MAX {
            return None;
        }
        if COORD_MAG_EXP + exp <= 62 {
            let bound_wide = pow2_i128(COORD_MAG_EXP + exp);
            proof {
                lemma_pow2_strictly_increases((COORD_MAG_EXP + exp) as nat, 63);
                lemma2_to64();
                lemma2_to64_rest();
            }
            let bound = bound_wide as i64;
            if num > bound || num < -bound {
                return None;
            }
            Some(Dyadic { num, exp })
        } else {
            proof {
                lemma_pow2_at_least_63((COORD_MAG_EXP + exp) as nat);
            }
            Some(Dyadic { num, exp })
        }
    }

    /// The dyadic value of a small integer.
    pub fn from_int(v: i64) -> (r: Option<Dyadic>)
        ensures
            r matches Some(d) ==> d == (Dyadic { num: v, exp: 0u32 }) && d.wf(),
            r is None ==> !(Dyadic { num: v, exp: 0u32 }).wf(),
    {
        Dyadic::new(v, 0)
    }

    /// Zero.
    pub fn zero() -> (r: Dyadic)
        ensures
            r == (Dyadic { num: 0i64, exp: 0u32 }),
            r.wf(),
    {
        proof {
            lemma_pow2_pos(COORD_MAG_EXP as nat);
        }
        Dyadic { num: 0, exp: 0 }
    }

    /// One.
    pub fn one() -> (r: Dyadic)
        ensures
            r == (Dyadic { num: 1i64, exp: 0u32 }),
            r.wf(),
    {
        proof {
            lemma_pow2_pos(COORD_MAG_EXP as nat);
        }
        Dyadic { num: 1, exp: 0 }
    }

    /// Value comparison `self <= other`.
    pub fn le(&self, other: &Dyadic) -> (r: bool)
        requires
            self.wf(),
            other.wf(),
        ensures
            r == self.spec_le(*other),
    {
        let pa = pow2_i128(other.exp);
        let pb = pow2_i128(self.exp);
        proof {
            lemma_pow2_bound_62(other.exp as nat);
            lemma_pow2_bound_62(self.exp as nat);
            lemma_mul_magnitude(self.num as int, pow2(other.exp as nat) as int, i64::MAX as int + 1, pow2(62) as int);
            lemma_mul_magnitude(other.num as int, pow2(self.exp as nat) as int, i64::MAX as int + 1, pow2(62) as int);
            lemma2_to64();
            lemma2_to64_rest();
            lemma_pow2_adds(63, 62);
        }
        (self.num as i128) * pa <= (other.num as i128) * pb
    }

    /// Value equality `self == other`.
    pub fn eq_val(&self, other: &Dyadic) -> (r: bool)
        requires
            self.wf(),
            other.wf(),
        ensures
            r == self.spec_eq_val(*other),
    {
        let pa = pow2_i128(other.exp);
        let pb = pow2_i128(self.exp);
        proof {
            lemma_pow2_bound_62(other.exp as nat);
            lemma_pow2_bound_62(self.exp as nat);
            lemma_mul_magnitude(self.num as int, pow2(other.exp as nat) as int, i64::MAX as int + 1, pow2(62) as int);
            lemma_mul_magnitude(other.num as int, pow2(self.exp as nat) as int, i64::MAX as int + 1, pow2(62) as int);
            lemma2_to64();
            lemma2_to64_rest();
            lemma_pow2_adds(63, 62);
        }
        (self.num as i128) * pa == (other.num as i128) * pb
    }

    /// The value is strictly positive.
    pub fn is_pos(&self) -> (r: bool)
        ensures
            r == self.spec_pos(),
    {
        self.num > 0
    }
}

impl Ratio {
    /// Well-formedness: positive denominator.
    pub open spec fn wf(self) -> bool {
        self.den > 0
    }

    /// The fraction equals the dyadic value `d`.
    pub open spec fn spec_eq_dyadic(self, d: Dyadic) -> bool {
        self.num * pow2(d.exp as nat) == d.num * self.den
    }

    /// Zero as an exact fraction.
    pub fn zero() -> (r: Ratio)
        ensures
            r == (Ratio { num: 0i128, den: 1i128 }),
            r.wf(),
    {
        Ratio { num: 0, den: 1 }
    }
}

/// `2^e`, computed executably.
pub fn pow2_i128(e: u32) -> (r: i128)
    requires
        e <= 126,
    ensures
        r == pow2(e as nat),
        r >= 1,
{
    proof {
        lemma2_to64();
    }
    let mut r: i128 = 1;
    let mut i: u32 = 0;
    while i < e
        invariant
            i <= e <= 126,
            r == pow2(i as nat),
        decreases e - i,
    {
        proof {
            lemma_pow2_unfold((i + 1) as nat);
            lemma_pow2_within_i128((i + 1) as nat);
        }
        r = r * 2;
        i = i + 1;
    }
    proof {
        lemma_pow2_pos(e as nat);
    }
    r
}

/// `pow2(e) <= pow2(62)` for `e <= 62`.
pub proof fn lemma_pow2_bound_62(e: nat)
    requires
        e <= 62,
    ensures
        pow2(e) <= pow2(62),
{
    if e < 62 {
        lemma_pow2_strictly_increases(e, 62);
    }
}

/// `pow2(e) >= 2^63` for `e >= 63`, so it clears the whole `i64` range.
pub proof fn lemma_pow2_at_least_63(e: nat)
    requires
        e >= 63,
    ensures
        pow2(e) >= 0x8000000000000000,
{
    lemma2_to64_rest();
    if e > 63 {
        lemma_pow2_strictly_increases(63, e);
    }
}

/// `pow2(e)` fits in `i128` for `e <= 126`.
pub proof fn lemma_pow2_within_i128(e: nat)
    requires
        e <= 126,
    ensures
        pow2(e) <= 0x40000000000000000000000000000000,
{
    lemma2_to64();
    lemma2_to64_rest();
    lemma_pow2_adds(63, 63);
    assert(pow2(126) == 0x8000000000000000 * 0x8000000000000000);
    if e < 126 {
        lemma_pow2_strictly_increases(e, 126);
    }
}

/// Magnitude bound for a product: `|a| <= am` and `0 <= b <= bm` give
/// `|a * b| <= am * bm`.
pub proof fn lemma_mul_magnitude(a: int, b: int, am: int, bm: int)
    requires
        -am <= a <= am,
        0 <= b <= bm,
    ensures
        -(am * bm) <= a * b <= am * bm,
{
    assert(-(am * bm) <= a * b <= am * bm) by (nonlinear_arith)
        requires
            -am <= a <= am,
            0 <= b <= bm,
    ;
}

} // verus!
