//! Laws of the arithmetic: what holds of every pair and triple of values.
use crate::{DecimalU64, ScaleMetrics};
use vstd::prelude::*;
use vstd::std_specs::ops::{AddSpec, DivSpec, MulSpec, SubSpec};

verus! {

/// Addition is commutative: `a + b == b + a`, and `checked_add` gives the
/// same for both orders.
pub proof fn lemma_add_commutative<S: ScaleMetrics>(a: DecimalU64<S>, b: DecimalU64<S>)
    ensures
        a.add_spec(b) == b.add_spec(a),
        a.checked_add_spec(b) == b.checked_add_spec(a),
{
}

/// Multiplication is commutative: `a * b == b * a`, and `checked_mul` gives
/// the same for both orders.
pub proof fn lemma_mul_commutative<S: ScaleMetrics>(a: DecimalU64<S>, b: DecimalU64<S>)
    ensures
        a.mul_spec(b) == b.mul_spec(a),
        a.checked_mul_spec(b) == b.checked_mul_spec(a),
{
    assert(a@ * b@ == b@ * a@) by (nonlinear_arith);
}

/// Addition with `+` is associative: `(a + b) + c == a + (b + c)`. This
/// holds with no condition, since both sides keep the low 64 bits of the
/// same sum.
pub proof fn lemma_add_associative<S: ScaleMetrics>(
    a: DecimalU64<S>,
    b: DecimalU64<S>,
    c: DecimalU64<S>,
)
    ensures
        a.add_spec(b).add_spec(c) == a.add_spec(b.add_spec(c)),
{
}

/// Checked addition is associative: where `a + b` and `b + c` both fit,
/// adding `c` to the first gives what adding `a` to the second gives.
pub proof fn lemma_checked_add_associative<S: ScaleMetrics>(
    a: DecimalU64<S>,
    b: DecimalU64<S>,
    c: DecimalU64<S>,
)
    requires
        a.checked_add_spec(b) is Some,
        b.checked_add_spec(c) is Some,
    ensures
        a.checked_add_spec(b).unwrap().checked_add_spec(c) == a.checked_add_spec(
            b.checked_add_spec(c).unwrap(),
        ),
{
}

/// Where a checked operation has a result, the operator gives the same.
pub proof fn lemma_checked_agrees_with_operator<S: ScaleMetrics>(
    a: DecimalU64<S>,
    b: DecimalU64<S>,
)
    ensures
        a.checked_add_spec(b) matches Some(sum) ==> sum == a.add_spec(b),
        a.checked_sub_spec(b) matches Some(difference) ==> difference == a.sub_spec(b),
        a.checked_mul_spec(b) matches Some(product) ==> product == a.mul_spec(b),
        a.checked_div_spec(b) matches Some(quotient) ==> quotient == a.div_spec(b),
{
}

/// Division by zero has no result: `checked_div` by a zero value is `None`.
pub proof fn lemma_checked_div_by_zero<S: ScaleMetrics>(a: DecimalU64<S>, b: DecimalU64<S>)
    requires
        b@ == 0,
    ensures
        a.checked_div_spec(b) is None,
{
}

} // verus!
