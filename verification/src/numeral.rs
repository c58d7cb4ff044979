//! The mathematics of decimal text: what a run of ASCII digits denotes, how a
//! fixed-point value is written, and how a decimal literal is read.
//!
//! Everything here is ghost code. Values are natural numbers, text is a
//! sequence of bytes, and a scale is the number of fractional digits.
use vstd::prelude::*;

verus! {

/// The decimal separator, `.`.
pub const DOT: u8 = 46;

/// The digit `0`; the digit `d` is the byte `DIGIT_ZERO + d`.
pub const DIGIT_ZERO: u8 = 48;

/// The largest scale a descriptor may have.
pub const MAX_SCALE: u8 = 8;

/// The powers of ten from `10^0` to `10^MAX_SCALE`.
pub const SCALE_FACTORS: [u64; 9] = [1, 10, 100, 1000, 10000, 100000, 1000000, 10000000, 100000000];

/// Ten to the power `n`.
pub open spec fn pow10(n: nat) -> nat
    decreases n,
{
    if n == 0 {
        1
    } else {
        10 * pow10((n - 1) as nat)
    }
}

/// Whether `b` is one of the bytes `0` to `9`.
pub open spec fn is_digit(b: u8) -> bool {
    DIGIT_ZERO <= b <= DIGIT_ZERO + 9
}

/// The number that the digit byte `b` stands for.
pub open spec fn digit_value(b: u8) -> nat
    recommends
        is_digit(b),
{
    (b - DIGIT_ZERO) as nat
}

/// The byte that writes the one-digit number `d`.
pub open spec fn digit_byte(d: nat) -> u8
    recommends
        d < 10,
{
    (DIGIT_ZERO + d) as u8
}

/// Whether every byte of `s` is a digit.
pub open spec fn all_digits(s: Seq<u8>) -> bool {
    forall|i: int| 0 <= i < s.len() ==> is_digit(#[trigger] s[i])
}

/// `n` in ordinary decimal digits: at least one digit, no leading zero
/// except for the number zero itself.
pub open spec fn decimal_digits(n: nat) -> Seq<u8>
    decreases n,
{
    if n < 10 {
        seq![digit_byte(n)]
    } else {
        decimal_digits(n / 10).push(digit_byte(n % 10))
    }
}

/// The last `width` decimal digits of `n`, padded with zeros on the left.
pub open spec fn padded_digits(n: nat, width: nat) -> Seq<u8>
    decreases width,
{
    if width == 0 {
        Seq::empty()
    } else {
        padded_digits(n / 10, (width - 1) as nat).push(digit_byte(n % 10))
    }
}

/// The text of the value `unscaled / 10^scale`: the integer part in ordinary
/// digits, then, for a positive scale, the separator and exactly `scale`
/// fractional digits.
pub open spec fn format_spec(unscaled: nat, scale: nat) -> Seq<u8> {
    let integer = decimal_digits(unscaled / pow10(scale));
    if scale == 0 {
        integer
    } else {
        integer + seq![DOT] + padded_digits(unscaled % pow10(scale), scale)
    }
}

/// The number written by the digits of `s`, read from left to right; bytes
/// that are not digits do not count.
pub open spec fn digits_value(s: Seq<u8>) -> nat
    decreases s.len(),
{
    if s.len() == 0 {
        0
    } else if is_digit(s.last()) {
        10 * digits_value(s.drop_last()) + digit_value(s.last())
    } else {
        digits_value(s.drop_last())
    }
}

/// How many digits of `s` stand after its first separator.
pub open spec fn fraction_digits(s: Seq<u8>) -> nat
    decreases s.len(),
{
    if s.len() == 0 {
        0
    } else if is_digit(s.last()) && s.drop_last().contains(DOT) {
        fraction_digits(s.drop_last()) + 1
    } else {
        fraction_digits(s.drop_last())
    }
}

/// Whether a scan from the left takes the byte at `i`: a separator always, a
/// digit as long as the digits up to and including it still fit in 64 bits.
pub open spec fn scan_accepts(s: Seq<u8>, i: int) -> bool {
    s[i] == DOT || (is_digit(s[i]) && digits_value(s.take(i + 1)) <= u64::MAX)
}

/// Whether the scan takes every byte before position `n`.
pub open spec fn scan_accepts_before(s: Seq<u8>, n: int) -> bool {
    forall|j: int| 0 <= j < n ==> scan_accepts(s, j)
}

/// Whether `i` is the position at which the scan of `s` stops.
pub open spec fn scan_stops_at(s: Seq<u8>, i: int) -> bool {
    &&& 0 <= i < s.len()
    &&& scan_accepts_before(s, i)
    &&& !scan_accepts(s, i)
}

/// Why a text is not the literal of a value.
#[derive(Debug, Clone, Copy, PartialEq, Eq, Structural)]
pub enum Rejection {
    /// A byte that is neither a digit nor the separator.
    InvalidCharacter(u8),
    /// The value does not fit: too large for 64 bits at the target scale, or
    /// written with more fractional digits than the scale has.
    Overflow,
}

/// What reading `s` as a literal at `scale` gives.
///
/// The scan stops at the first byte that it does not take: a digit there
/// means that the number outgrew 64 bits, any other byte is an invalid
/// character. A text that is scanned to its end denotes its digits, shifted
/// to the target scale.
pub open spec fn parse_spec(s: Seq<u8>, scale: nat) -> Result<u64, Rejection> {
    if exists|i: int| scan_stops_at(s, i) {
        let i = choose|i: int| scan_stops_at(s, i);
        if is_digit(s[i]) {
            Err(Rejection::Overflow)
        } else {
            Err(Rejection::InvalidCharacter(s[i]))
        }
    } else if fraction_digits(s) > scale {
        Err(Rejection::Overflow)
    } else {
        let unscaled = digits_value(s) * pow10((scale - fraction_digits(s)) as nat);
        if unscaled > u64::MAX {
            Err(Rejection::Overflow)
        } else {
            Ok(unscaled as u64)
        }
    }
}

/// `n` times the digit `0`.
pub open spec fn zeros(n: nat) -> Seq<u8> {
    Seq::new(n, |i: int| DIGIT_ZERO)
}

/// Whether `s` is a number in ordinary decimal digits: at least one digit,
/// and no leading zero unless the zero is the only digit.
pub open spec fn is_decimal_numeral(s: Seq<u8>) -> bool {
    &&& s.len() >= 1
    &&& all_digits(s)
    &&& (s.len() == 1 || s[0] != DIGIT_ZERO)
}

/// Whether every byte of `s` is a digit or the separator.
pub open spec fn all_decimal_bytes(s: Seq<u8>) -> bool {
    forall|i: int| 0 <= i < s.len() ==> (#[trigger] s[i]) == DOT || is_digit(s[i])
}

/// The literal with the digits `integer` before the separator and the
/// digits `fraction` behind it.
pub open spec fn literal(integer: Seq<u8>, fraction: Seq<u8>) -> Seq<u8> {
    integer.push(DOT) + fraction
}

/// The value, in units of `10^-scale`, of the literal with the digits
/// `integer` before the separator and `fraction` behind it.
pub open spec fn literal_value(integer: Seq<u8>, fraction: Seq<u8>, scale: nat) -> nat
    recommends
        fraction.len() <= scale,
{
    digits_value(integer) * pow10(scale) + digits_value(fraction) * pow10(
        (scale - fraction.len()) as nat,
    )
}

/// The text of that value: the integer part without leading zeros, and the
/// fraction filled up with zeros to `scale` digits.
pub open spec fn literal_text(integer: Seq<u8>, fraction: Seq<u8>, scale: nat) -> Seq<u8>
    recommends
        fraction.len() <= scale,
{
    let whole = decimal_digits(digits_value(integer));
    if scale == 0 {
        whole
    } else {
        whole + seq![DOT] + (fraction + zeros((scale - fraction.len()) as nat))
    }
}

/// The characters that the ASCII bytes `bytes` spell.
pub open spec fn ascii_text(bytes: Seq<u8>) -> Seq<char> {
    Seq::new(bytes.len(), |i: int| bytes[i] as char)
}

} // verus!
