//! Fixed-point decimal numbers in a single `u64`.
//!
//! A [`DecimalU64<S>`] holds the integer `value * 10^S::SCALE`; the scale is
//! part of the type and takes no room in the value. Parsing, formatting,
//! arithmetic and rounding work on that integer alone, so every result is
//! exact or reported as not representable.
use crate::error::{lossy_text, utf8_lossy, Error, ErrorView};
use crate::numeral::{
    ascii_text, decimal_digits, digit_byte, format_spec, padded_digits, parse_spec, pow10,
    Rejection, DIGIT_ZERO, DOT, MAX_SCALE,
};
use crate::numeral_lemmas::{
    lemma_decimal_digits, lemma_format_len, lemma_format_len_bound, lemma_padded_digits,
    lemma_padded_digits_leading, lemma_pow10_positive, lemma_scale_factor_bound,
};
use crate::parse::parse_unscaled;
use std::marker::PhantomData;
use std::str::FromStr;
use vstd::prelude::*;
use vstd::std_specs::convert::TryFromSpecImpl;
use vstd::utf8::{
    decode_utf8, encode_utf8, encode_utf8_decode_utf8, encode_utf8_valid_utf8, valid_utf8,
};

pub mod arithmetic;
pub mod arithmetic_laws;
mod compare;
pub mod error;
pub mod numeral;
pub mod numeral_lemmas;
pub mod parse;
pub mod round;
pub mod round_trip;

verus! {

/// A scale descriptor: the number of fractional digits of a decimal type and
/// the matching power of ten.
pub trait ScaleMetrics {
    /// The number of fractional digits.
    const SCALE: u8;

    /// `10^SCALE`: one unit of the integer part, in unscaled units.
    const SCALE_FACTOR: u64;

    /// The two constants agree, and the scale is one of those the library
    /// supports. Every descriptor has to prove this.
    proof fn lemma_scale_factor()
        ensures
            Self::SCALE <= MAX_SCALE,
            Self::SCALE_FACTOR == pow10(Self::SCALE as nat),
    ;
}

/// The scale with no fractional digits.
#[derive(Debug, Default, Copy, Clone, Eq, PartialEq, Ord, PartialOrd, Hash)]
pub struct U0;

impl ScaleMetrics for U0 {
    const SCALE: u8 = 0;

    const SCALE_FACTOR: u64 = 1;

    proof fn lemma_scale_factor() {
        reveal_with_fuel(pow10, 1);
    }
}

/// The scale with one fractional digit.
#[derive(Debug, Default, Copy, Clone, Eq, PartialEq, Ord, PartialOrd, Hash)]
pub struct U1;

impl ScaleMetrics for U1 {
    const SCALE: u8 = 1;

    const SCALE_FACTOR: u64 = 10;

    proof fn lemma_scale_factor() {
        reveal_with_fuel(pow10, 2);
    }
}

/// The scale with two fractional digits.
#[derive(Debug, Default, Copy, Clone, Eq, PartialEq, Ord, PartialOrd, Hash)]
pub struct U2;

impl ScaleMetrics for U2 {
    const SCALE: u8 = 2;

    const SCALE_FACTOR: u64 = 100;

    proof fn lemma_scale_factor() {
        reveal_with_fuel(pow10, 3);
    }
}

/// The scale with three fractional digits.
#[derive(Debug, Default, Copy, Clone, Eq, PartialEq, Ord, PartialOrd, Hash)]
pub struct U3;

impl ScaleMetrics for U3 {
    const SCALE: u8 = 3;

    const SCALE_FACTOR: u64 = 1000;

    proof fn lemma_scale_factor() {
        reveal_with_fuel(pow10, 4);
    }
}

/// The scale with four fractional digits.
#[derive(Debug, Default, Copy, Clone, Eq, PartialEq, Ord, PartialOrd, Hash)]
pub struct U4;

impl ScaleMetrics for U4 {
    const SCALE: u8 = 4;

    const SCALE_FACTOR: u64 = 10000;

    proof fn lemma_scale_factor() {
        reveal_with_fuel(pow10, 5);
    }
}

/// The scale with five fractional digits.
#[derive(Debug, Default, Copy, Clone, Eq, PartialEq, Ord, PartialOrd, Hash)]
pub struct U5;

impl ScaleMetrics for U5 {
    const SCALE: u8 = 5;

    const SCALE_FACTOR: u64 = 100000;

    proof fn lemma_scale_factor() {
        reveal_with_fuel(pow10, 6);
    }
}

/// The scale with six fractional digits.
#[derive(Debug, Default, Copy, Clone, Eq, PartialEq, Ord, PartialOrd, Hash)]
pub struct U6;

impl ScaleMetrics for U6 {
    const SCALE: u8 = 6;

    const SCALE_FACTOR: u64 = 1000000;

    proof fn lemma_scale_factor() {
        reveal_with_fuel(pow10, 7);
    }
}

/// The scale with seven fractional digits.
#[derive(Debug, Default, Copy, Clone, Eq, PartialEq, Ord, PartialOrd, Hash)]
pub struct U7;

impl ScaleMetrics for U7 {
    const SCALE: u8 = 7;

    const SCALE_FACTOR: u64 = 10000000;

    proof fn lemma_scale_factor() {
        reveal_with_fuel(pow10, 8);
    }
}

/// The scale with eight fractional digits.
#[derive(Debug, Default, Copy, Clone, Eq, PartialEq, Ord, PartialOrd, Hash)]
pub struct U8;

impl ScaleMetrics for U8 {
    const SCALE: u8 = 8;

    const SCALE_FACTOR: u64 = 100000000;

    proof fn lemma_scale_factor() {
        reveal_with_fuel(pow10, 9);
    }
}

/// A decimal number with `S::SCALE` fractional digits, stored as the
/// unsigned integer `unscaled`; it stands for `unscaled / S::SCALE_FACTOR`.
#[derive(Debug, Hash, Ord)]
pub struct DecimalU64<S> {
    /// The value in units of `10^-S::SCALE`.
    pub unscaled: u64,
    /// Ties the value to its scale descriptor.
    pub phantom: PhantomData<S>,
}

impl<S> View for DecimalU64<S> {
    type V = nat;

    /// The unscaled integer, as a natural number.
    open spec fn view(&self) -> nat {
        self.unscaled as nat
    }
}

impl<S> Clone for DecimalU64<S> {
    fn clone(&self) -> (r: Self)
        ensures
            r == *self,
    {
        *self
    }
}

impl<S> Copy for DecimalU64<S> {

}

impl<S> Default for DecimalU64<S> {
    /// Zero.
    fn default() -> (r: Self)
        ensures
            r@ == 0,
    {
        DecimalU64 { unscaled: 0, phantom: PhantomData }
    }
}

/// The error that a rejected literal is reported with: the offending byte
/// as a character, or the whole text as `String::from_utf8_lossy` reads it.
pub open spec fn rejection_error(rejection: Rejection, bytes: Seq<u8>) -> ErrorView {
    match rejection {
        Rejection::InvalidCharacter(byte) => ErrorView::InvalidCharacterInput(byte as char),
        Rejection::Overflow => ErrorView::Overflow(utf8_lossy(bytes)),
    }
}

impl<S: ScaleMetrics> TryFrom<&[u8]> for DecimalU64<S> {
    type Error = Error;

    /// Reads an ASCII decimal literal: digits, with an optional separator
    /// and at most `S::SCALE` digits behind it.
    fn try_from(bytes: &[u8]) -> (r: Result<Self, Error>)
        ensures
            match parse_spec(bytes@, S::SCALE as nat) {
                Ok(unscaled) => r matches Ok(value) && value.unscaled == unscaled,
                Err(rejection) => r matches Err(e) && e@ == rejection_error(rejection, bytes@),
            },
            valid_utf8(bytes@) ==> (r matches Err(Error::Overflow(text)) ==> text@ == decode_utf8(
                bytes@,
            )),
    {
        proof {
            S::lemma_scale_factor();
        }
        match parse_unscaled(bytes, S::SCALE) {
            Ok(unscaled) => Ok(Self::from_raw(unscaled)),
            Err(Rejection::InvalidCharacter(byte)) => Err(
                Error::InvalidCharacterInput(byte as char),
            ),
            Err(Rejection::Overflow) => Err(Error::Overflow(lossy_text(bytes))),
        }
    }
}

/// The result of `try_from` may hold a `String`, which no ghost expression
/// builds; what `try_from` returns is stated on the function itself.
impl<S: ScaleMetrics> TryFromSpecImpl<&[u8]> for DecimalU64<S> {
    open spec fn obeys_try_from_spec() -> bool {
        false
    }

    open spec fn try_from_spec(bytes: &[u8]) -> Result<Self, Error> {
        arbitrary()
    }
}

impl<S: ScaleMetrics> FromStr for DecimalU64<S> {
    type Err = Error;

    /// Reads a decimal literal from the bytes of `s`. A literal that does
    /// not fit is reported with `s` itself.
    fn from_str(s: &str) -> (r: Result<Self, Error>)
        ensures
            match parse_spec(encode_utf8(s@), S::SCALE as nat) {
                Ok(unscaled) => r matches Ok(value) && value.unscaled == unscaled,
                Err(Rejection::InvalidCharacter(byte)) => r matches Err(e) && e@
                    == ErrorView::InvalidCharacterInput(byte as char),
                Err(Rejection::Overflow) => r matches Err(e) && e@ == ErrorView::Overflow(s@),
            },
    {
        proof {
            encode_utf8_valid_utf8(s@);
            encode_utf8_decode_utf8(s@);
        }
        Self::try_from(s.as_bytes())
    }
}

impl<S: ScaleMetrics> DecimalU64<S> {
    /// The value with the unscaled integer `unscaled`.
    pub open spec fn with_raw(unscaled: u64) -> Self {
        DecimalU64 { unscaled, phantom: PhantomData }
    }

    /// The value whose unscaled integer is `unscaled`, taken as it is.
    pub fn from_raw(unscaled: u64) -> (r: Self)
        ensures
            r == Self::with_raw(unscaled),
    {
        DecimalU64 { unscaled, phantom: PhantomData }
    }

    /// The value zero.
    pub fn zero() -> (r: Self)
        ensures
            r@ == 0,
    {
        Self::from_raw(0)
    }

    /// The value one: a whole unit, `S::SCALE_FACTOR` unscaled.
    pub fn one() -> (r: Self)
        ensures
            r@ == S::SCALE_FACTOR,
    {
        Self::from_raw(S::SCALE_FACTOR)
    }

    /// The value two.
    pub fn two() -> (r: Self)
        ensures
            r@ == 2 * S::SCALE_FACTOR,
    {
        proof {
            S::lemma_scale_factor();
            lemma_scale_factor_bound(S::SCALE as nat);
        }
        Self::from_raw(2 * S::SCALE_FACTOR)
    }

    /// The value three.
    pub fn three() -> (r: Self)
        ensures
            r@ == 3 * S::SCALE_FACTOR,
    {
        proof {
            S::lemma_scale_factor();
            lemma_scale_factor_bound(S::SCALE as nat);
        }
        Self::from_raw(3 * S::SCALE_FACTOR)
    }

    /// The value four.
    pub fn four() -> (r: Self)
        ensures
            r@ == 4 * S::SCALE_FACTOR,
    {
        proof {
            S::lemma_scale_factor();
            lemma_scale_factor_bound(S::SCALE as nat);
        }
        Self::from_raw(4 * S::SCALE_FACTOR)
    }

    /// The value five.
    pub fn five() -> (r: Self)
        ensures
            r@ == 5 * S::SCALE_FACTOR,
    {
        proof {
            S::lemma_scale_factor();
            lemma_scale_factor_bound(S::SCALE as nat);
        }
        Self::from_raw(5 * S::SCALE_FACTOR)
    }

    /// The value six.
    pub fn six() -> (r: Self)
        ensures
            r@ == 6 * S::SCALE_FACTOR,
    {
        proof {
            S::lemma_scale_factor();
            lemma_scale_factor_bound(S::SCALE as nat);
        }
        Self::from_raw(6 * S::SCALE_FACTOR)
    }

    /// The value seven.
    pub fn seven() -> (r: Self)
        ensures
            r@ == 7 * S::SCALE_FACTOR,
    {
        proof {
            S::lemma_scale_factor();
            lemma_scale_factor_bound(S::SCALE as nat);
        }
        Self::from_raw(7 * S::SCALE_FACTOR)
    }

    /// The value eight.
    pub fn eight() -> (r: Self)
        ensures
            r@ == 8 * S::SCALE_FACTOR,
    {
        proof {
            S::lemma_scale_factor();
            lemma_scale_factor_bound(S::SCALE as nat);
        }
        Self::from_raw(8 * S::SCALE_FACTOR)
    }

    /// The value nine.
    pub fn nine() -> (r: Self)
        ensures
            r@ == 9 * S::SCALE_FACTOR,
    {
        proof {
            S::lemma_scale_factor();
            lemma_scale_factor_bound(S::SCALE as nat);
        }
        Self::from_raw(9 * S::SCALE_FACTOR)
    }

    /// The value ten.
    pub fn ten() -> (r: Self)
        ensures
            r@ == 10 * S::SCALE_FACTOR,
    {
        proof {
            S::lemma_scale_factor();
            lemma_scale_factor_bound(S::SCALE as nat);
        }
        Self::from_raw(10 * S::SCALE_FACTOR)
    }

    /// The largest value of the type: `u64::MAX` unscaled.
    pub fn max() -> (r: Self)
        ensures
            r@ == u64::MAX,
    {
        Self::from_raw(u64::MAX)
    }

    /// The unscaled integer.
    pub fn raw(&self) -> (unscaled: u64)
        ensures
            unscaled == self.unscaled,
    {
        self.unscaled
    }

    /// The integer part and the fractional part, the latter in units of
    /// `10^-S::SCALE`.
    pub fn split(&self) -> (parts: (u64, u64))
        ensures
            parts.0 == self@ / (S::SCALE_FACTOR as nat),
            parts.1 == self@ % (S::SCALE_FACTOR as nat),
    {
        proof {
            S::lemma_scale_factor();
            lemma_pow10_positive(S::SCALE as nat);
        }
        let integer_part = self.unscaled / S::SCALE_FACTOR;
        let fractional_part = self.unscaled % S::SCALE_FACTOR;
        (integer_part, fractional_part)
    }

    /// Writes the text of the value to the front of `buffer` and returns its
    /// length. The bytes behind the text stay as they were.
    pub fn write_to(&self, buffer: &mut [u8]) -> (len: usize)
        requires
            old(buffer)@.len() >= format_spec(self@, S::SCALE as nat).len(),
        ensures
            len == format_spec(self@, S::SCALE as nat).len(),
            final(buffer)@.len() == old(buffer)@.len(),
            final(buffer)@.subrange(0, len as int) == format_spec(self@, S::SCALE as nat),
            forall|i: int| len <= i < old(buffer)@.len() ==> final(buffer)@[i] == old(buffer)@[i],
    {
        let (int_part, frac_part) = self.split();
        let ghost scale = S::SCALE as nat;
        let ghost integer = decimal_digits(int_part as nat);
        let ghost fraction = padded_digits(frac_part as nat, scale);
        let ghost initial = buffer@;
        let size = buffer.len();
        proof {
            S::lemma_scale_factor();
            lemma_pow10_positive(scale);
            lemma_format_len(self@, scale);
            lemma_decimal_digits(int_part as nat);
            lemma_padded_digits(frac_part as nat, scale);
        }
        let mut pos: usize = 0;

        if int_part == 0 {
            buffer[pos] = DIGIT_ZERO;
            pos += 1;
        } else {
            // Count the digits of the integer part, then write them from the
            // last to the first.
            let mut tmp = int_part;
            let mut digit_count: usize = 0;
            while tmp != 0
                invariant
                    integer.len() <= size,
                    tmp != 0 ==> digit_count + decimal_digits(tmp as nat).len() == integer.len(),
                    tmp == 0 ==> digit_count == integer.len(),
                decreases tmp,
            {
                digit_count += 1;
                tmp /= 10;
            }
            pos += digit_count;
            let mut idx = pos;
            tmp = int_part;
            while tmp != 0
                invariant
                    buffer@.len() == size,
                    initial.len() == size,
                    pos == integer.len(),
                    pos <= size,
                    idx <= pos,
                    tmp != 0 ==> idx == decimal_digits(tmp as nat).len(),
                    tmp != 0 ==> decimal_digits(tmp as nat) + buffer@.subrange(idx as int, pos as int)
                        == integer,
                    tmp == 0 ==> idx == 0 && buffer@.subrange(0, pos as int) == integer,
                    forall|i: int| pos <= i < size ==> buffer@[i] == initial[i],
                decreases tmp,
            {
                proof {
                    lemma_decimal_digits(tmp as nat / 10);
                }
                idx -= 1;
                buffer[idx] = DIGIT_ZERO + (tmp % 10) as u8;
                tmp /= 10;
            }
        }

        if S::SCALE > 0 {
            // The fractional digits, from the first to the last.
            let ghost start = pos + 1;
            buffer[pos] = DOT;
            pos += 1;
            let mut divisor = S::SCALE_FACTOR / 10;
            let mut frac = frac_part;
            let mut written: u8 = 0;
            while written < S::SCALE
                invariant
                    scale == S::SCALE,
                    fraction == padded_digits(frac_part as nat, scale),
                    fraction.len() == scale,
                    buffer@.len() == size,
                    initial.len() == size,
                    written <= S::SCALE,
                    start == integer.len() + 1,
                    pos == start + written,
                    start + scale <= size,
                    written < scale ==> divisor == pow10((scale - written - 1) as nat),
                    frac < pow10((scale - written) as nat),
                    fraction.subrange(written as int, scale as int) == padded_digits(
                        frac as nat,
                        (scale - written) as nat,
                    ),
                    buffer@.subrange(0, start as int) == integer + seq![DOT],
                    buffer@.subrange(start as int, pos as int) == fraction.subrange(
                        0,
                        written as int,
                    ),
                    forall|i: int| pos <= i < size ==> buffer@[i] == initial[i],
                decreases S::SCALE - written,
            {
                let ghost width = (scale - written) as nat;
                proof {
                    lemma_pow10_positive((width - 1) as nat);
                    lemma_padded_digits_leading(frac as nat, width);
                    lemma_padded_digits(frac as nat % divisor as nat, (width - 1) as nat);
                }
                let digit = frac / divisor;
                buffer[pos] = DIGIT_ZERO + (digit as u8);
                pos += 1;
                frac %= divisor;
                written += 1;
                proof {
                    let rest = fraction.subrange(written - 1, scale as int);
                    assert(rest[0] == digit_byte(digit as nat));
                    assert(rest.subrange(1, rest.len() as int) =~= padded_digits(
                        frac as nat,
                        (width - 1) as nat,
                    ));
                }
                divisor /= 10;
            }
            proof {
                assert(buffer@.subrange(0, pos as int) =~= buffer@.subrange(0, start as int)
                    + buffer@.subrange(start as int, pos as int));
            }
        }
        pos
    }

    /// The text of the value, as [`write_to`](Self::write_to) writes it.
    pub fn to_string(&self) -> (text: String)
        ensures
            text@ == ascii_text(format_spec(self@, S::SCALE as nat)),
    {
        proof {
            S::lemma_scale_factor();
            lemma_format_len_bound(self@, S::SCALE as nat);
        }
        let mut buf = [0u8; 64];
        let len = self.write_to(&mut buf);
        let mut text = String::new();
        let mut i: usize = 0;
        while i < len
            invariant
                i <= len <= 64,
                text@ == ascii_text(buf@.subrange(0, i as int)),
            decreases len - i,
        {
            text.push(buf[i] as char);
            i += 1;
        }
        text
    }
}

} // verus!
