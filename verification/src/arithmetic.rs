//! Arithmetic on two values of one scale.
//!
//! The checked operations report a result that does not fit in 64 bits as
//! `None`. The operators `+`, `-`, `*` and `/` keep the low 64 bits of the
//! result instead; `/` asks for a divisor other than zero.
use crate::{DecimalU64, ScaleMetrics};
use std::ops::{Add, AddAssign, Div, Mul, Sub, SubAssign};
use vstd::prelude::*;
use vstd::std_specs::ops::{AddSpecImpl, DivSpecImpl, MulSpecImpl, SubSpecImpl};

verus! {

/// The low 64 bits of `x`.
pub open spec fn wrap(x: int) -> u64 {
    (x % 0x1_0000_0000_0000_0000) as u64
}

/// `x` where it fits in 64 bits.
pub open spec fn checked(x: int) -> Option<u64> {
    if 0 <= x <= u64::MAX {
        Some(x as u64)
    } else {
        None
    }
}

/// The unscaled product of two values with the scale factor `factor`,
/// cut off towards zero.
pub open spec fn product(a: nat, b: nat, factor: nat) -> nat {
    a * b / factor
}

/// The unscaled quotient of two values with the scale factor `factor`,
/// cut off towards zero.
pub open spec fn quotient(a: nat, b: nat, factor: nat) -> nat
    recommends
        b > 0,
{
    a * factor / b
}

impl<S: ScaleMetrics> DecimalU64<S> {
    /// The value with the unscaled integer `unscaled`, if there is one.
    pub open spec fn with_checked(unscaled: Option<u64>) -> Option<Self> {
        match unscaled {
            Some(unscaled) => Some(Self::with_raw(unscaled)),
            None => None,
        }
    }

    /// What [`checked_add`](Self::checked_add) returns.
    pub open spec fn checked_add_spec(self, other: Self) -> Option<Self> {
        Self::with_checked(checked((self@ + other@) as int))
    }

    /// What [`checked_sub`](Self::checked_sub) returns.
    pub open spec fn checked_sub_spec(self, other: Self) -> Option<Self> {
        Self::with_checked(checked(self@ - other@))
    }

    /// What [`checked_mul`](Self::checked_mul) returns.
    pub open spec fn checked_mul_spec(self, other: Self) -> Option<Self> {
        Self::with_checked(checked(product(self@, other@, S::SCALE_FACTOR as nat) as int))
    }

    /// What [`checked_div`](Self::checked_div) returns.
    pub open spec fn checked_div_spec(self, other: Self) -> Option<Self> {
        if other@ == 0 {
            None
        } else {
            Self::with_checked(checked(quotient(self@, other@, S::SCALE_FACTOR as nat) as int))
        }
    }

    /// The product, cut off towards zero to the scale of the operands;
    /// `None` where it does not fit in 64 bits.
    pub fn checked_mul(self, other: Self) -> (r: Option<Self>)
        ensures
            r == self.checked_mul_spec(other),
    {
        proof {
            S::lemma_scale_factor();
            crate::numeral_lemmas::lemma_pow10_positive(S::SCALE as nat);
            lemma_product_fits(self.unscaled, other.unscaled);
        }
        let product = (self.unscaled as u128) * (other.unscaled as u128);
        let scale_factor = S::SCALE_FACTOR as u128;
        let result = product / scale_factor;
        if result > u64::MAX as u128 {
            None
        } else {
            Some(Self::from_raw(result as u64))
        }
    }

    /// The sum; `None` where it does not fit in 64 bits.
    pub fn checked_add(self, other: Self) -> (r: Option<Self>)
        ensures
            r == self.checked_add_spec(other),
    {
        match self.unscaled.checked_add(other.unscaled) {
            Some(sum) => Some(Self::from_raw(sum)),
            None => None,
        }
    }

    /// The difference; `None` where `other` is the larger.
    pub fn checked_sub(self, other: Self) -> (r: Option<Self>)
        ensures
            r == self.checked_sub_spec(other),
    {
        match self.unscaled.checked_sub(other.unscaled) {
            Some(diff) => Some(Self::from_raw(diff)),
            None => None,
        }
    }

    /// The quotient, cut off towards zero to the scale of the operands;
    /// `None` where `other` is zero or the quotient does not fit in 64 bits.
    pub fn checked_div(self, other: Self) -> (r: Option<Self>)
        ensures
            r == self.checked_div_spec(other),
    {
        if other.unscaled == 0 {
            return None;
        }
        proof {
            lemma_product_fits(self.unscaled, S::SCALE_FACTOR);
        }
        let dividend = (self.unscaled as u128) * (S::SCALE_FACTOR as u128);
        let quotient = dividend / (other.unscaled as u128);
        if quotient > u64::MAX as u128 {
            None
        } else {
            Some(Self::from_raw(quotient as u64))
        }
    }
}

impl<S: ScaleMetrics> Mul for DecimalU64<S> {
    type Output = DecimalU64<S>;

    /// The low 64 bits of the product, which is cut off towards zero to the
    /// scale of the operands.
    fn mul(self, rhs: Self) -> (r: Self) {
        proof {
            S::lemma_scale_factor();
            crate::numeral_lemmas::lemma_pow10_positive(S::SCALE as nat);
            lemma_product_fits(self.unscaled, rhs.unscaled);
        }
        let product = (self.unscaled as u128) * (rhs.unscaled as u128);
        let scale_factor = S::SCALE_FACTOR as u128;
        Self::from_raw(low_bits(product / scale_factor))
    }
}

impl<S: ScaleMetrics> MulSpecImpl for DecimalU64<S> {
    open spec fn obeys_mul_spec() -> bool {
        true
    }

    open spec fn mul_req(self, rhs: Self) -> bool {
        true
    }

    open spec fn mul_spec(self, rhs: Self) -> Self {
        Self::with_raw(wrap(product(self@, rhs@, S::SCALE_FACTOR as nat) as int))
    }
}

impl<S: ScaleMetrics> Add for DecimalU64<S> {
    type Output = DecimalU64<S>;

    /// The low 64 bits of the sum.
    fn add(self, rhs: Self) -> (r: Self) {
        let sum = self.unscaled.wrapping_add(rhs.unscaled);
        Self::from_raw(sum)
    }
}

impl<S: ScaleMetrics> AddSpecImpl for DecimalU64<S> {
    open spec fn obeys_add_spec() -> bool {
        true
    }

    open spec fn add_req(self, rhs: Self) -> bool {
        true
    }

    open spec fn add_spec(self, rhs: Self) -> Self {
        Self::with_raw(wrap((self@ + rhs@) as int))
    }
}

impl<S: ScaleMetrics> Sub for DecimalU64<S> {
    type Output = DecimalU64<S>;

    /// The low 64 bits of the difference.
    fn sub(self, rhs: Self) -> (r: Self) {
        let diff = self.unscaled.wrapping_sub(rhs.unscaled);
        Self::from_raw(diff)
    }
}

impl<S: ScaleMetrics> SubSpecImpl for DecimalU64<S> {
    open spec fn obeys_sub_spec() -> bool {
        true
    }

    open spec fn sub_req(self, rhs: Self) -> bool {
        true
    }

    open spec fn sub_spec(self, rhs: Self) -> Self {
        Self::with_raw(wrap(self@ - rhs@))
    }
}

impl<S: ScaleMetrics> Div for DecimalU64<S> {
    type Output = DecimalU64<S>;

    /// The low 64 bits of the quotient, which is cut off towards zero to the
    /// scale of the operands. The divisor is not zero.
    fn div(self, rhs: Self) -> (r: Self) {
        proof {
            lemma_product_fits(self.unscaled, S::SCALE_FACTOR);
        }
        let dividend = (self.unscaled as u128) * (S::SCALE_FACTOR as u128);
        let quotient = dividend / (rhs.unscaled as u128);
        Self::from_raw(low_bits(quotient))
    }
}

impl<S: ScaleMetrics> DivSpecImpl for DecimalU64<S> {
    open spec fn obeys_div_spec() -> bool {
        true
    }

    open spec fn div_req(self, rhs: Self) -> bool {
        rhs@ != 0
    }

    open spec fn div_spec(self, rhs: Self) -> Self {
        Self::with_raw(wrap(quotient(self@, rhs@, S::SCALE_FACTOR as nat) as int))
    }
}

impl<S: ScaleMetrics> AddAssign for DecimalU64<S> {
    /// Adds `rhs` in place and keeps the low 64 bits of the sum.
    fn add_assign(&mut self, rhs: Self)
        ensures
            *final(self) == Self::with_raw(wrap((old(self)@ + rhs@) as int)),
    {
        self.unscaled = self.unscaled.wrapping_add(rhs.unscaled);
    }
}

impl<S: ScaleMetrics> SubAssign for DecimalU64<S> {
    /// Subtracts `rhs` in place and keeps the low 64 bits of the difference.
    fn sub_assign(&mut self, rhs: Self)
        ensures
            *final(self) == Self::with_raw(wrap(old(self)@ - rhs@)),
    {
        self.unscaled = self.unscaled.wrapping_sub(rhs.unscaled);
    }
}

/// The low 64 bits of a 128-bit number.
fn low_bits(x: u128) -> (low: u64)
    ensures
        low == wrap(x as int),
{
    (x % 0x1_0000_0000_0000_0000) as u64
}

/// The product of two 64-bit numbers fits in 128 bits.
pub proof fn lemma_product_fits(a: u64, b: u64)
    ensures
        a * b <= u128::MAX,
{
    assert(a * b <= 0xffff_ffff_ffff_ffff * 0xffff_ffff_ffff_ffff) by (nonlinear_arith)
        requires
            0 <= a <= 0xffff_ffff_ffff_ffff,
            0 <= b <= 0xffff_ffff_ffff_ffff,
    ;
}

} // verus!
