//! The rounding engine: deterministic fixed-point rescale-and-round.
//!
//! When an integer accumulator must be narrowed back to a quantized type,
//! the value is multiplied by a fixed-point multiplier and shifted right;
//! the discarded bits are resolved by a [`RoundingPolicy`].  The general
//! form, `q_scale`, shifts the widened product `v * mult` right by
//! `shift + 31` bits (31 being the normalization constant of the
//! accumulator's fixed-point format).  The two-argument forms (`q_away`,
//! `q_even`, `q_to_plus_inf`) serve a legacy 30-bit fractional convention
//! and are derived from the general form, so the two can never disagree.

use vstd::prelude::*;

verus! {

use vstd::arithmetic::power2::pow2;
use vstd::arithmetic::power2::lemma_pow2_unfold;
use vstd::arithmetic::power2::lemma_pow2_strictly_increases;
use vstd::arithmetic::power2::lemma_pow2_adds;
use vstd::arithmetic::power2::lemma_pow2_pos;
use vstd::arithmetic::power2::lemma2_to64;
use vstd::arithmetic::power2::lemma2_to64_rest;
use vstd::arithmetic::div_mod::lemma_basic_div;
use vstd::arithmetic::div_mod::lemma_div_multiples_vanish;
use vstd::arithmetic::mul::lemma_mul_unary_negation;
use vstd::math::abs;

/// Tie-breaking rule applied when the discarded low bits of a rescale are
/// exactly half the denominator.  The set is closed: every member has a
/// defined meaning, so an unsupported configuration is unrepresentable.
#[derive(Clone, Copy, Debug, PartialEq, Eq, Structural)]
pub enum RoundingPolicy {
    /// Ties round toward zero.
    Zero,
    /// Ties round toward negative infinity.
    MinusInf,
    /// Ties round toward positive infinity.
    PlusInf,
    /// Ties round away from zero.
    Away,
    /// Ties round to the even neighbour.
    Even,
    /// Ties round to the odd neighbour.
    Odd,
}

/// Sign of an integer: -1, 0 or 1.
pub open spec fn sign_of(v: int) -> int {
    if v < 0 {
        -1
    } else if v == 0 {
        0
    } else {
        1
    }
}

/// Amount added to the magnitude of the value before the right shift.
/// `half` is half the shift's denominator; adding `half` rounds ties up in
/// magnitude, adding `half - 1` rounds them down.  `negative` is the sign
/// of the value being rounded and `truncated_odd` tells whether plain
/// truncation would leave an odd result.
pub open spec fn round_nudge(
    policy: RoundingPolicy,
    negative: bool,
    truncated_odd: bool,
    half: int,
) -> int {
    match policy {
        RoundingPolicy::Zero => half - 1,
        RoundingPolicy::MinusInf => if negative {
            half
        } else {
            half - 1
        },
        RoundingPolicy::PlusInf => if negative {
            half - 1
        } else {
            half
        },
        RoundingPolicy::Away => half,
        RoundingPolicy::Even => if truncated_odd {
            half
        } else {
            half - 1
        },
        RoundingPolicy::Odd => if truncated_odd {
            half - 1
        } else {
            half
        },
    }
}

/// Result of shifting `val` right by `shift` bits, rounding the discarded
/// bits under `policy`.  The nudge is applied to the magnitude and the
/// sign is restored afterwards, so policies are symmetric in magnitude.
pub open spec fn round_shift(val: int, shift: nat, policy: RoundingPolicy) -> int
    recommends
        shift >= 1,
{
    let d = pow2(shift) as int;
    let half = pow2((shift - 1) as nat) as int;
    let a = abs(val) as int;
    let truncated_odd = (a / d) % 2 == 1;
    sign_of(val) * ((a + round_nudge(policy, val < 0, truncated_odd, half)) / d)
}

/// The general rescale: `v * mult`, taken as a wide intermediate, shifted
/// right by `s + 31` bits under `policy`.
pub open spec fn q_scale_spec(v: int, mult: int, s: nat, policy: RoundingPolicy) -> int {
    round_shift(v * mult, s + 31, policy)
}

proof fn lemma_pow2_literals()
    ensures
        pow2(94) == 0x400000000000000000000000,
        pow2(96) == 0x1000000000000000000000000,
{
    lemma2_to64();
    lemma2_to64_rest();
    lemma_pow2_adds(64, 30);
    lemma_pow2_adds(64, 32);
}

/// A shift so large that even the widest accumulator product underflows
/// to zero, whatever the policy and sign.
proof fn lemma_round_shift_underflow(val: int, shift: nat, policy: RoundingPolicy)
    requires
        abs(val) <= pow2(94),
        shift >= 96,
    ensures
        round_shift(val, shift, policy) == 0,
{
    let d = pow2(shift) as int;
    let half = pow2((shift - 1) as nat) as int;
    let a = abs(val) as int;
    lemma_pow2_pos(shift);
    lemma_pow2_pos((shift - 1) as nat);
    lemma_pow2_strictly_increases(94, (shift - 1) as nat);
    lemma_pow2_unfold(shift);
    let truncated_odd = (a / d) % 2 == 1;
    let nudge = round_nudge(policy, val < 0, truncated_odd, half);
    assert(half - 1 <= nudge <= half);
    assert(0 <= a + nudge < d);
    lemma_basic_div(a + nudge, d);
}

/// Exact power of two as an i128.
fn pow2_i128(e: usize) -> (r: i128)
    requires
        e <= 95,
    ensures
        r == pow2(e as nat),
{
    let mut r: i128 = 1;
    let mut i: usize = 0;
    proof {
        lemma2_to64();
    }
    while i < e
        invariant
            i <= e,
            e <= 95,
            r == pow2(i as nat),
        decreases e - i,
    {
        proof {
            lemma_pow2_literals();
            lemma2_to64();
            lemma_pow2_adds(i as nat, 1);
            if i + 1 < 96 {
                lemma_pow2_strictly_increases((i + 1) as nat, 96);
            }
        }
        r = r * 2;
        i = i + 1;
    }
    r
}

/// Exact general rescale, computed at full width: the result is the
/// mathematical `q_scale` value, before any narrowing to the output type.
pub(crate) fn q_scale_round(v: i64, mult: i32, s: usize, policy: RoundingPolicy) -> (r: i128)
    ensures
        r == q_scale_spec(v as int, mult as int, s as nat, policy),
{
    proof {
        lemma_pow2_literals();
        assert((v as int) * (mult as int) <= 0x400000000000000000000000 && (v as int) * (
        mult as int) >= -0x400000000000000000000000) by (nonlinear_arith)
            requires
                -0x8000000000000000 <= v as int <= 0x7fffffffffffffff,
                -0x80000000 <= mult as int <= 0x7fffffff,
        ;
    }
    let val: i128 = (v as i128) * (mult as i128);
    if s >= 65 {
        proof {
            lemma_round_shift_underflow((v as int) * (mult as int), (s + 31) as nat, policy);
        }
        return 0;
    }
    let shift: usize = s + 31;
    let d: i128 = pow2_i128(shift);
    proof {
        lemma_pow2_pos(shift as nat);
        lemma_pow2_pos((shift - 1) as nat);
        lemma_pow2_unfold(shift as nat);
        lemma_div_multiples_vanish(pow2((shift - 1) as nat) as int, 2);
    }
    let half: i128 = d / 2;
    let neg: bool = val < 0;
    let a: i128 = if neg { -val } else { val };
    let truncated: i128 = a / d;
    let odd: bool = truncated % 2 == 1;
    let nudge: i128 = match policy {
        RoundingPolicy::Zero => half - 1,
        RoundingPolicy::MinusInf => if neg {
            half
        } else {
            half - 1
        },
        RoundingPolicy::PlusInf => if neg {
            half - 1
        } else {
            half
        },
        RoundingPolicy::Away => half,
        RoundingPolicy::Even => if odd {
            half
        } else {
            half - 1
        },
        RoundingPolicy::Odd => if odd {
            half - 1
        } else {
            half
        },
    };
    let q: i128 = (a + nudge) / d;
    let r: i128 = if neg { -q } else { q };
    proof {
        assert(a == abs((v as int) * (mult as int)));
        if val == 0 {
            lemma_basic_div(nudge as int, d as int);
        }
    }
    r
}

/// Fixed-point pseudo right shift: rescaling an accumulator by a
/// fixed-point multiplier and a right shift, with policy-directed
/// rounding of the discarded bits.
pub trait PseudoRightShift: Sized {
    /// Round half away from zero, legacy 30-bit fractional convention.
    fn q_away(self, mult: Self, shift: usize) -> Self;

    /// Round half to even, legacy 30-bit fractional convention.
    fn q_even(self, mult: Self, shift: usize) -> Self;

    /// Round half toward positive infinity, legacy 30-bit convention.
    fn q_to_plus_inf(self, mult: Self, shift: usize) -> Self;

    /// The general policy-driven rescale of `self * mult` by `shift + 31`
    /// bits.
    fn q_scale(self, mult: i32, shift: usize, policy: RoundingPolicy) -> Self;
}

impl PseudoRightShift for i32 {
    fn q_away(self, mult: i32, shift: usize) -> (r: i32)
        ensures
            ({
                let exact = q_scale_spec(self as int, mult as int, shift as nat,
                    RoundingPolicy::Away);
                i32::MIN <= exact <= i32::MAX ==> r == exact
            }),
    {
        let wide = q_scale_round(self as i64, mult, shift, RoundingPolicy::Away);
        narrow_i128(wide)
    }

    fn q_even(self, mult: i32, shift: usize) -> (r: i32)
        ensures
            ({
                let exact = q_scale_spec(self as int, mult as int, shift as nat,
                    RoundingPolicy::Even);
                i32::MIN <= exact <= i32::MAX ==> r == exact
            }),
    {
        let wide = q_scale_round(self as i64, mult, shift, RoundingPolicy::Even);
        narrow_i128(wide)
    }

    fn q_to_plus_inf(self, mult: i32, shift: usize) -> (r: i32)
        ensures
            ({
                let exact = q_scale_spec(self as int, mult as int, shift as nat,
                    RoundingPolicy::PlusInf);
                i32::MIN <= exact <= i32::MAX ==> r == exact
            }),
    {
        let wide = q_scale_round(self as i64, mult, shift, RoundingPolicy::PlusInf);
        narrow_i128(wide)
    }

    fn q_scale(self, mult: i32, shift: usize, policy: RoundingPolicy) -> (r: i32)
        ensures
            ({
                let exact = q_scale_spec(self as int, mult as int, shift as nat, policy);
                i32::MIN <= exact <= i32::MAX ==> r == exact
            }),
    {
        let wide = q_scale_round(self as i64, mult, shift, policy);
        narrow_i128(wide)
    }
}

/// Narrow an exact wide result to i32, truncating (as the accumulator
/// store does) when it cannot be represented.
fn narrow_i128(wide: i128) -> (r: i32)
    ensures
        i32::MIN <= wide <= i32::MAX ==> r == wide,
{
    if -0x80000000i128 <= wide && wide <= 0x7fffffffi128 {
        wide as i32
    } else {
        #[verifier::truncate]
        (wide as i32)
    }
}

/// Rounding symmetry: rounding half away from zero commutes with
/// negation, `Away(x) == -Away(-x)` for every value, multiplier and
/// shift.
pub proof fn lemma_away_symmetric(v: int, mult: int, s: nat)
    ensures
        q_scale_spec(-v, mult, s, RoundingPolicy::Away) == -q_scale_spec(v, mult, s,
            RoundingPolicy::Away),
{
    lemma_mul_unary_negation(v, mult);
}

/// Rounding symmetry: truncation toward zero commutes with negation,
/// `Zero(x) == -Zero(-x)` for every value, multiplier and shift.
pub proof fn lemma_zero_symmetric(v: int, mult: int, s: nat)
    ensures
        q_scale_spec(-v, mult, s, RoundingPolicy::Zero) == -q_scale_spec(v, mult, s,
            RoundingPolicy::Zero),
{
    lemma_mul_unary_negation(v, mult);
}

/// Rounding symmetry: rounding toward negative infinity mirrors rounding
/// toward positive infinity, `MinusInf(x) == -PlusInf(-x)` for every
/// value, multiplier and shift.
pub proof fn lemma_minus_inf_mirrors_plus_inf(v: int, mult: int, s: nat)
    ensures
        q_scale_spec(v, mult, s, RoundingPolicy::MinusInf) == -q_scale_spec(-v, mult, s,
            RoundingPolicy::PlusInf),
{
    lemma_mul_unary_negation(v, mult);
    let val = v * mult;
    let shift = (s + 31) as nat;
    let d = pow2(shift) as int;
    let half = pow2((shift - 1) as nat) as int;
    lemma_pow2_pos(shift);
    lemma_pow2_pos((shift - 1) as nat);
    lemma_pow2_unfold(shift);
    if val == 0 {
        lemma_basic_div(half, d);
        lemma_basic_div(half - 1, d);
    }
}

} // verus!
