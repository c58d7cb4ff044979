//! Rounding a value to a multiple of a tick size.
//!
//! A policy is a type without state. It names, for a value and a positive
//! tick size, one multiple of the tick size: the next one below the value
//! ([`Floor`]), the next one above it ([`Ceil`]), or the one that half a tick
//! decides ([`HalfUp`]).
use crate::{DecimalU64, ScaleMetrics};
use vstd::prelude::*;

verus! {

/// The largest multiple of `tick` that is at most `value`.
pub open spec fn floor_to_tick(value: nat, tick: nat) -> nat
    recommends
        tick > 0,
{
    (value / tick) * tick
}

/// The smallest multiple of `tick` that is at least `value`.
pub open spec fn ceil_to_tick(value: nat, tick: nat) -> nat
    recommends
        tick > 0,
{
    (((value + tick - 1) as nat) / tick) * tick
}

/// `value` moved up by half a tick, the half rounded up, and then taken
/// down to a multiple of `tick`.
pub open spec fn half_up_to_tick(value: nat, tick: nat) -> nat
    recommends
        tick > 0,
{
    ((value + tick / 2 + tick % 2) / tick) * tick
}

/// A way of rounding a value to a multiple of a tick size.
pub trait RoundingPolicy {
    /// The multiple of `tick` that the policy picks for `value`, both in
    /// unscaled units.
    spec fn rounded(value: nat, tick: nat) -> nat;

    /// What the policy picks is a multiple of the tick size and at most one
    /// tick away from the value.
    proof fn lemma_rounded(value: nat, tick: nat)
        requires
            tick > 0,
        ensures
            Self::rounded(value, tick) % tick == 0,
            value - tick <= Self::rounded(value, tick) <= value + tick,
    ;

    /// Rounds `value` to a multiple of `tick_size`. The tick size is not
    /// zero, and the result fits in 64 bits.
    fn round<S: ScaleMetrics + Copy>(value: DecimalU64<S>, tick_size: DecimalU64<S>) -> (r:
        DecimalU64<S>)
        requires
            tick_size@ > 0,
            Self::rounded(value@, tick_size@) <= u64::MAX,
        ensures
            r@ == Self::rounded(value@, tick_size@),
    ;
}

/// A value that lies `tick / 2` or more above a multiple of the tick size
/// goes up to the next multiple, any other goes down: 0.125 at tick 0.01
/// becomes 0.13. With an even tick size this is the nearest multiple. With
/// an odd one `tick / 2` is cut off to a whole number, so the rounding leans
/// upwards.
pub struct HalfUp;

impl RoundingPolicy for HalfUp {
    open spec fn rounded(value: nat, tick: nat) -> nat {
        half_up_to_tick(value, tick)
    }

    proof fn lemma_rounded(value: nat, tick: nat) {
        lemma_half_up_to_tick(value, tick);
    }

    fn round<S: ScaleMetrics + Copy>(value: DecimalU64<S>, tick_size: DecimalU64<S>) -> (r:
        DecimalU64<S>) {
        let tick = tick_size.unscaled as u128;
        let half_tick = tick / 2 + (tick % 2);
        let ticks = (value.unscaled as u128 + half_tick) / tick;
        proof {
            lemma_multiple_below((value@ + tick_size@ / 2 + tick_size@ % 2) as nat, tick_size@);
        }
        DecimalU64::from_raw((ticks * tick) as u64)
    }
}

/// Always down: 0.129 at tick 0.01 becomes 0.12.
pub struct Floor;

impl RoundingPolicy for Floor {
    open spec fn rounded(value: nat, tick: nat) -> nat {
        floor_to_tick(value, tick)
    }

    proof fn lemma_rounded(value: nat, tick: nat) {
        lemma_floor_to_tick(value, tick);
    }

    fn round<S: ScaleMetrics + Copy>(value: DecimalU64<S>, tick_size: DecimalU64<S>) -> (r:
        DecimalU64<S>) {
        proof {
            lemma_multiple_below(value@, tick_size@);
        }
        DecimalU64::from_raw((value.unscaled / tick_size.unscaled) * tick_size.unscaled)
    }
}

/// Always up, unless the value is a multiple already: 0.121 at tick 0.01
/// becomes 0.13.
pub struct Ceil;

impl RoundingPolicy for Ceil {
    open spec fn rounded(value: nat, tick: nat) -> nat {
        ceil_to_tick(value, tick)
    }

    proof fn lemma_rounded(value: nat, tick: nat) {
        lemma_ceil_to_tick(value, tick);
    }

    fn round<S: ScaleMetrics + Copy>(value: DecimalU64<S>, tick_size: DecimalU64<S>) -> (r:
        DecimalU64<S>) {
        let tick = tick_size.unscaled as u128;
        let ticks = (value.unscaled as u128 + tick - 1) / tick;
        proof {
            lemma_multiple_below((value@ + tick_size@ - 1) as nat, tick_size@);
        }
        DecimalU64::from_raw((ticks * tick) as u64)
    }
}

impl<S: ScaleMetrics + Copy> DecimalU64<S> {
    /// Rounds the value to a multiple of `tick_size` as the policy `R` says.
    /// The tick size is not zero, and the result fits in 64 bits.
    pub fn round<R: RoundingPolicy>(self, tick_size: DecimalU64<S>) -> (r: DecimalU64<S>)
        requires
            tick_size@ > 0,
            R::rounded(self@, tick_size@) <= u64::MAX,
        ensures
            r@ == R::rounded(self@, tick_size@),
    {
        R::round(self, tick_size)
    }
}

/// Taking `x` down to a multiple of `tick` gives a multiple of `tick` that
/// is at most `x` and less than a tick below it.
pub proof fn lemma_multiple_below(x: nat, tick: nat)
    requires
        tick > 0,
    ensures
        ((x / tick) * tick) % tick == 0,
        x - tick < (x / tick) * tick <= x,
{
    vstd::arithmetic::div_mod::lemma_fundamental_div_mod(x as int, tick as int);
    vstd::arithmetic::div_mod::lemma_mod_multiples_basic((x / tick) as int, tick as int);
    assert((x / tick) * tick == tick * (x / tick)) by (nonlinear_arith);
}

/// Rounding down gives the one multiple of the tick size in the range
/// `(value - tick, value]`. It always fits in 64 bits when the value does.
pub proof fn lemma_floor_to_tick(value: nat, tick: nat)
    requires
        tick > 0,
    ensures
        floor_to_tick(value, tick) % tick == 0,
        value - tick < floor_to_tick(value, tick) <= value,
{
    lemma_multiple_below(value, tick);
}

/// Rounding up gives the one multiple of the tick size in the range
/// `[value, value + tick)`.
pub proof fn lemma_ceil_to_tick(value: nat, tick: nat)
    requires
        tick > 0,
    ensures
        ceil_to_tick(value, tick) % tick == 0,
        value <= ceil_to_tick(value, tick) < value + tick,
{
    lemma_multiple_below((value + tick - 1) as nat, tick);
}

/// Rounding half up gives the one multiple of the tick size in the range
/// `(value - tick / 2, value + tick / 2 + tick % 2]`. For an even tick size
/// that is the nearest multiple, the upper one of two that are equally near.
pub proof fn lemma_half_up_to_tick(value: nat, tick: nat)
    requires
        tick > 0,
    ensures
        half_up_to_tick(value, tick) % tick == 0,
        value - tick / 2 < half_up_to_tick(value, tick) <= value + tick / 2 + tick % 2,
{
    lemma_multiple_below(value + tick / 2 + tick % 2, tick);
}

/// Two different multiples of the tick size are at least a tick apart.
pub proof fn lemma_multiples_apart(low: nat, high: nat, tick: nat)
    requires
        tick > 0,
        low % tick == 0,
        high % tick == 0,
        low < high,
    ensures
        low + tick <= high,
{
    vstd::arithmetic::div_mod::lemma_fundamental_div_mod(low as int, tick as int);
    vstd::arithmetic::div_mod::lemma_fundamental_div_mod(high as int, tick as int);
    let a = low / tick;
    let b = high / tick;
    assert(tick * a + tick <= tick * b) by (nonlinear_arith)
        requires
            tick * a < tick * b,
            tick > 0,
    ;
}

/// Rounding down gives the largest multiple of the tick size that is at
/// most the value.
pub proof fn lemma_floor_is_largest(value: nat, tick: nat, multiple: nat)
    requires
        tick > 0,
        multiple % tick == 0,
        multiple <= value,
    ensures
        multiple <= floor_to_tick(value, tick),
{
    lemma_floor_to_tick(value, tick);
    if floor_to_tick(value, tick) < multiple {
        lemma_multiples_apart(floor_to_tick(value, tick), multiple, tick);
    }
}

/// Rounding up gives the smallest multiple of the tick size that is at
/// least the value.
pub proof fn lemma_ceil_is_smallest(value: nat, tick: nat, multiple: nat)
    requires
        tick > 0,
        multiple % tick == 0,
        value <= multiple,
    ensures
        ceil_to_tick(value, tick) <= multiple,
{
    lemma_ceil_to_tick(value, tick);
    if multiple < ceil_to_tick(value, tick) {
        lemma_multiples_apart(multiple, ceil_to_tick(value, tick), tick);
    }
}

/// With an even tick size, rounding half up gives the nearest multiple of
/// the tick size: no other multiple is nearer to the value, and one that is
/// as near lies below what the rounding gives.
pub proof fn lemma_half_up_is_nearest(value: nat, tick: nat, multiple: nat)
    requires
        tick > 0,
        tick % 2 == 0,
        multiple % tick == 0,
        multiple != half_up_to_tick(value, tick),
    ensures
        vstd::math::abs(half_up_to_tick(value, tick) - value) <= vstd::math::abs(multiple - value),
        vstd::math::abs(half_up_to_tick(value, tick) - value) == vstd::math::abs(multiple - value)
            ==> multiple < half_up_to_tick(value, tick),
{
    let rounded = half_up_to_tick(value, tick);
    lemma_half_up_to_tick(value, tick);
    if multiple < rounded {
        lemma_multiples_apart(multiple, rounded, tick);
    } else {
        lemma_multiples_apart(rounded, multiple, tick);
    }
}

} // verus!
