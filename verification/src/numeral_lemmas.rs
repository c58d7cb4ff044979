//! Facts about powers of ten and about the digits of a number.
use crate::numeral::{
    all_digits, decimal_digits, digit_byte, digit_value, digits_value, format_spec,
    fraction_digits, is_decimal_numeral, is_digit, padded_digits, parse_spec, pow10, scan_accepts,
    scan_accepts_before, scan_stops_at, zeros, Rejection, DIGIT_ZERO, DOT, SCALE_FACTORS,
};
use vstd::arithmetic::div_mod::{lemma_div_denominator, lemma_mod_breakdown};
use vstd::prelude::*;

verus! {

/// Every power of ten is positive.
pub proof fn lemma_pow10_positive(n: nat)
    ensures
        pow10(n) > 0,
    decreases n,
{
    if n > 0 {
        lemma_pow10_positive((n - 1) as nat);
    }
}

/// Exponents add when powers of ten are multiplied.
pub proof fn lemma_pow10_adds(a: nat, b: nat)
    ensures
        pow10(a + b) == pow10(a) * pow10(b),
    decreases a,
{
    if a == 0 {
        assert(pow10(0) * pow10(b) == pow10(b)) by (nonlinear_arith)
            requires
                pow10(0) == 1,
        ;
    } else {
        lemma_pow10_adds((a - 1) as nat, b);
        assert(pow10(a + b) == 10 * pow10((a - 1 + b) as nat));
        assert(10 * (pow10((a - 1) as nat) * pow10(b)) == (10 * pow10((a - 1) as nat)) * pow10(b))
            by (nonlinear_arith);
    }
}

/// Powers of ten grow with the exponent.
pub proof fn lemma_pow10_increases(a: nat, b: nat)
    requires
        a <= b,
    ensures
        pow10(a) <= pow10(b),
    decreases b,
{
    if a < b {
        lemma_pow10_increases(a, (b - 1) as nat);
    }
}

/// The scale factor of a supported scale is at most `10^8`.
pub proof fn lemma_scale_factor_bound(scale: nat)
    requires
        scale <= 8,
    ensures
        0 < pow10(scale) <= 100_000_000,
{
    lemma_pow10_positive(scale);
    lemma_pow10_increases(scale, 8);
    reveal_with_fuel(pow10, 9);
}

/// The table of scale factors holds the powers of ten.
pub proof fn lemma_scale_factors()
    ensures
        forall|i: int| 0 <= i <= 8 ==> #[trigger] SCALE_FACTORS[i] == pow10(i as nat),
{
    reveal_with_fuel(pow10, 10);
}

/// A number has at least one digit, and its digits are digits.
pub proof fn lemma_decimal_digits(n: nat)
    ensures
        decimal_digits(n).len() >= 1,
        all_digits(decimal_digits(n)),
    decreases n,
{
    if n >= 10 {
        lemma_decimal_digits(n / 10);
    }
}

/// Padding to a width gives exactly that many digits.
pub proof fn lemma_padded_digits(n: nat, width: nat)
    ensures
        padded_digits(n, width).len() == width,
        all_digits(padded_digits(n, width)),
    decreases width,
{
    if width > 0 {
        lemma_padded_digits(n / 10, (width - 1) as nat);
    }
}

/// The first of `width` padded digits is the quotient by `10^(width - 1)`;
/// the others are the padded digits of the remainder.
pub proof fn lemma_padded_digits_leading(n: nat, width: nat)
    requires
        width >= 1,
        n < pow10(width),
    ensures
        n / pow10((width - 1) as nat) < 10,
        padded_digits(n, width) == seq![digit_byte(n / pow10((width - 1) as nat))] + padded_digits(
            n % pow10((width - 1) as nat),
            (width - 1) as nat,
        ),
    decreases width,
{
    let high = pow10((width - 1) as nat);
    lemma_pow10_positive((width - 1) as nat);
    assert(n / high < 10) by (nonlinear_arith)
        requires
            n < 10 * high,
            high > 0,
    ;
    if width == 1 {
        assert(high == 1);
        assert(n < 10) by {
            reveal_with_fuel(pow10, 2);
        }
        assert(padded_digits(n / 10, 0) =~= Seq::<u8>::empty());
        assert(padded_digits(n % 1, 0) =~= Seq::<u8>::empty());
        assert(padded_digits(n, 1) =~= seq![digit_byte(n)]);
        assert(n / 1 == n && n % 1 == 0);
        assert(padded_digits(n, width) =~= seq![digit_byte(n / 1)] + padded_digits(n % 1, 0));
    } else {
        let low = pow10((width - 2) as nat);
        lemma_pow10_positive((width - 2) as nat);
        assert(high == 10 * low);
        assert(n / 10 < high);
        lemma_padded_digits_leading(n / 10, (width - 1) as nat);
        // (n / 10) / low == n / (10 * low)
        lemma_div_denominator(n as int, 10, low as int);
        // n % (10 * low) == 10 * ((n / 10) % low) + n % 10
        lemma_mod_breakdown(n as int, 10, low as int);
        let rest = n % high;
        assert(rest / 10 == (n / 10) % low);
        assert(rest % 10 == n % 10);
        assert(padded_digits(rest, (width - 1) as nat) == padded_digits(
            rest / 10,
            (width - 2) as nat,
        ).push(digit_byte(rest % 10)));
        assert(padded_digits(n, width) =~= seq![digit_byte(n / high)] + padded_digits(
            rest,
            (width - 1) as nat,
        ));
    }
}

/// A number below `10^width` has at most `width` digits.
pub proof fn lemma_decimal_digits_bound(n: nat, width: nat)
    requires
        width >= 1,
        n < pow10(width),
    ensures
        decimal_digits(n).len() <= width,
    decreases width,
{
    if n >= 10 {
        if width == 1 {
            reveal_with_fuel(pow10, 2);
        } else {
            lemma_decimal_digits_bound(n / 10, (width - 1) as nat);
        }
    }
}

/// The text of a 64-bit value at a supported scale has at most 29 bytes:
/// twenty digits, the separator and eight fractional digits.
pub proof fn lemma_format_len_bound(unscaled: nat, scale: nat)
    requires
        unscaled <= u64::MAX,
        scale <= 8,
    ensures
        format_spec(unscaled, scale).len() <= 29,
{
    lemma_format_len(unscaled, scale);
    lemma_pow10_positive(scale);
    let integer = unscaled / pow10(scale);
    assert(integer <= unscaled) by (nonlinear_arith)
        requires
            integer == unscaled / pow10(scale),
            pow10(scale) > 0,
    ;
    assert(u64::MAX < pow10(20)) by {
        reveal_with_fuel(pow10, 21);
    }
    lemma_decimal_digits_bound(integer, 20);
}

/// How long the text of a value is.
pub proof fn lemma_format_len(unscaled: nat, scale: nat)
    ensures
        format_spec(unscaled, scale).len() == decimal_digits(unscaled / pow10(scale)).len() + (if scale
            == 0 {
            0nat
        } else {
            scale + 1
        }),
        format_spec(unscaled, scale).len() >= 1,
{
    lemma_decimal_digits(unscaled / pow10(scale));
    lemma_padded_digits(unscaled % pow10(scale), scale);
}

/// What one more byte adds to the value, to the count of fractional digits
/// and to the presence of a separator.
pub proof fn lemma_scan_step(s: Seq<u8>, i: int)
    requires
        0 <= i < s.len(),
    ensures
        digits_value(s.take(i + 1)) == if is_digit(s[i]) {
            10 * digits_value(s.take(i)) + digit_value(s[i])
        } else {
            digits_value(s.take(i))
        },
        fraction_digits(s.take(i + 1)) == if is_digit(s[i]) && s.take(i).contains(DOT) {
            fraction_digits(s.take(i)) + 1
        } else {
            fraction_digits(s.take(i))
        },
        s.take(i + 1).contains(DOT) <==> s.take(i).contains(DOT) || s[i] == DOT,
{
    let shorter = s.take(i);
    let longer = s.take(i + 1);
    assert(longer.drop_last() =~= shorter);
    assert(longer.last() == s[i]);
    if shorter.contains(DOT) {
        let k = choose|k: int| 0 <= k < shorter.len() && shorter[k] == DOT;
        assert(longer[k] == DOT);
    }
    if s[i] == DOT {
        assert(longer[i] == DOT);
    }
    if longer.contains(DOT) {
        let k = choose|k: int| 0 <= k < longer.len() && longer[k] == DOT;
        if k < i {
            assert(shorter[k] == DOT);
        }
    }
}

/// A scan stops at one position at most.
pub proof fn lemma_scan_stop_unique(s: Seq<u8>, i: int, j: int)
    requires
        scan_stops_at(s, i),
        scan_stops_at(s, j),
    ensures
        i == j,
{
    if i < j {
        assert(scan_accepts(s, i));
    } else if j < i {
        assert(scan_accepts(s, j));
    }
}

/// What a text is read as when the scan stops at `i`.
pub proof fn lemma_parse_stopped(s: Seq<u8>, scale: nat, i: int)
    requires
        scan_stops_at(s, i),
    ensures
        parse_spec(s, scale) == if is_digit(s[i]) {
            Err::<u64, Rejection>(Rejection::Overflow)
        } else {
            Err::<u64, Rejection>(Rejection::InvalidCharacter(s[i]))
        },
{
    let j = choose|j: int| scan_stops_at(s, j);
    lemma_scan_stop_unique(s, i, j);
}

/// What a text is read as when the scan reaches its end.
pub proof fn lemma_parse_scanned(s: Seq<u8>, scale: nat)
    requires
        scan_accepts_before(s, s.len() as int),
    ensures
        parse_spec(s, scale) == if fraction_digits(s) > scale || digits_value(s) * pow10(
            (scale - fraction_digits(s)) as nat,
        ) > u64::MAX {
            Err::<u64, Rejection>(Rejection::Overflow)
        } else {
            Ok::<u64, Rejection>(
                (digits_value(s) * pow10((scale - fraction_digits(s)) as nat)) as u64,
            )
        },
{
    assert forall|i: int| !scan_stops_at(s, i) by {
        if 0 <= i < s.len() {
            assert(scan_accepts(s, i));
        }
    }
}

/// The digits of a number write that number.
pub proof fn lemma_digits_value_of_decimal_digits(n: nat)
    ensures
        digits_value(decimal_digits(n)) == n,
    decreases n,
{
    let digits = decimal_digits(n);
    if n < 10 {
        assert(digits.drop_last() =~= Seq::<u8>::empty());
        assert(digits_value(digits.drop_last()) == 0);
    } else {
        lemma_digits_value_of_decimal_digits(n / 10);
        assert(digits.drop_last() =~= decimal_digits(n / 10));
    }
}

/// Padded digits write the number, as far as the width goes.
pub proof fn lemma_digits_value_of_padded_digits(n: nat, width: nat)
    requires
        n < pow10(width),
    ensures
        digits_value(padded_digits(n, width)) == n,
    decreases width,
{
    let digits = padded_digits(n, width);
    if width > 0 {
        lemma_digits_value_of_padded_digits(n / 10, (width - 1) as nat);
        assert(digits.drop_last() =~= padded_digits(n / 10, (width - 1) as nat));
    }
}

/// A run of digits writes a number below ten to the power of its length.
pub proof fn lemma_digits_value_bound(s: Seq<u8>)
    requires
        all_digits(s),
    ensures
        digits_value(s) < pow10(s.len()),
    decreases s.len(),
{
    if s.len() > 0 {
        lemma_digits_value_bound(s.drop_last());
    }
}

/// Digits appended to a text shift its number to the left and add theirs.
pub proof fn lemma_digits_value_concat(a: Seq<u8>, b: Seq<u8>)
    requires
        all_digits(b),
    ensures
        digits_value(a + b) == digits_value(a) * pow10(b.len()) + digits_value(b),
    decreases b.len(),
{
    if b.len() == 0 {
        assert(a + b =~= a);
        assert(digits_value(a) * 1 == digits_value(a)) by (nonlinear_arith);
    } else {
        let shorter = b.drop_last();
        lemma_digits_value_concat(a, shorter);
        assert((a + b).drop_last() =~= a + shorter);
        assert((a + b).last() == b.last());
        assert(10 * (digits_value(a) * pow10(shorter.len())) == digits_value(a) * (10 * pow10(
            shorter.len(),
        ))) by (nonlinear_arith);
    }
}

/// A separator at the end of a text adds nothing to its number.
pub proof fn lemma_digits_value_separator(a: Seq<u8>)
    ensures
        digits_value(a.push(DOT)) == digits_value(a),
{
    assert(a.push(DOT).drop_last() =~= a);
}

/// The number that a text writes does not shrink as the text goes on.
pub proof fn lemma_digits_value_increases(s: Seq<u8>, i: int)
    requires
        0 <= i <= s.len(),
    ensures
        digits_value(s.take(i)) <= digits_value(s),
    decreases s.len() - i,
{
    if i < s.len() {
        lemma_digits_value_increases(s, i + 1);
        lemma_scan_step(s, i);
    } else {
        assert(s.take(i) =~= s);
    }
}

/// A run of digits has no fractional digits.
pub proof fn lemma_fraction_digits_of_digits(s: Seq<u8>)
    requires
        all_digits(s),
    ensures
        !s.contains(DOT),
        fraction_digits(s) == 0,
    decreases s.len(),
{
    if s.len() > 0 {
        lemma_fraction_digits_of_digits(s.drop_last());
    }
    if s.contains(DOT) {
        let k = choose|k: int| 0 <= k < s.len() && s[k] == DOT;
        assert(is_digit(s[k]));
    }
}

/// Digits behind the one separator of a text are its fractional digits.
pub proof fn lemma_fraction_digits_of_literal(integer: Seq<u8>, fraction: Seq<u8>)
    requires
        all_digits(integer),
        all_digits(fraction),
    ensures
        fraction_digits(integer.push(DOT) + fraction) == fraction.len(),
    decreases fraction.len(),
{
    let head = integer.push(DOT);
    if fraction.len() == 0 {
        assert(head + fraction =~= head);
        assert(head.drop_last() =~= integer);
        lemma_fraction_digits_of_digits(integer);
    } else {
        let shorter = fraction.drop_last();
        lemma_fraction_digits_of_literal(integer, shorter);
        assert((head + fraction).drop_last() =~= head + shorter);
        assert((head + shorter)[integer.len() as int] == DOT);
    }
}

/// A run of digits that begins with a digit other than zero writes a
/// positive number.
pub proof fn lemma_digits_value_positive(s: Seq<u8>)
    requires
        all_digits(s),
        s.len() >= 1,
        s[0] != DIGIT_ZERO,
    ensures
        digits_value(s) >= 1,
    decreases s.len(),
{
    if s.len() > 1 {
        lemma_digits_value_positive(s.drop_last());
    } else {
        assert(s.last() == s[0]);
    }
}

/// A number in ordinary decimal digits is the digits of what it writes.
pub proof fn lemma_decimal_digits_of_numeral(s: Seq<u8>)
    requires
        is_decimal_numeral(s),
    ensures
        decimal_digits(digits_value(s)) == s,
    decreases s.len(),
{
    let shorter = s.drop_last();
    if s.len() == 1 {
        assert(digits_value(shorter) == 0);
        assert(decimal_digits(digits_value(s)) =~= s);
    } else {
        assert(is_decimal_numeral(shorter));
        lemma_decimal_digits_of_numeral(shorter);
        lemma_digits_value_positive(shorter);
        assert(decimal_digits(digits_value(s)) =~= s);
    }
}

/// A run of digits is the padded digits of what it writes.
pub proof fn lemma_padded_digits_of_digits(s: Seq<u8>)
    requires
        all_digits(s),
    ensures
        padded_digits(digits_value(s), s.len()) == s,
    decreases s.len(),
{
    if s.len() > 0 {
        lemma_padded_digits_of_digits(s.drop_last());
        assert(padded_digits(digits_value(s), s.len()) =~= s);
    } else {
        assert(padded_digits(digits_value(s), s.len()) =~= s);
    }
}

/// A number times `10^count`, padded to `count` more digits, is the padded
/// number with `count` zeros behind it.
pub proof fn lemma_padded_digits_shifted(n: nat, width: nat, count: nat)
    ensures
        padded_digits(n * pow10(count), width + count) == padded_digits(n, width) + zeros(count),
    decreases count,
{
    if count == 0 {
        assert(n * 1 == n) by (nonlinear_arith);
        assert(padded_digits(n, width) + zeros(0) =~= padded_digits(n, width));
    } else {
        let less = (count - 1) as nat;
        lemma_padded_digits_shifted(n, width, less);
        let shifted = n * pow10(count);
        assert(shifted == 10 * (n * pow10(less))) by (nonlinear_arith)
            requires
                shifted == n * pow10(count),
                pow10(count) == 10 * pow10(less),
        ;
        assert(shifted / 10 == n * pow10(less));
        assert(shifted % 10 == 0);
        assert(padded_digits(shifted, width + count) == padded_digits(
            shifted / 10,
            (width + count - 1) as nat,
        ).push(digit_byte(shifted % 10)));
        assert((padded_digits(n, width) + zeros(less)).push(DIGIT_ZERO) =~= padded_digits(n, width)
            + zeros(count));
    }
}

} // verus!
