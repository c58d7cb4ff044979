//! Reading and writing undo each other.
//!
//! The text of a value reads back as that value, and a literal that is read
//! and written again comes back with the same number in it: the integer part
//! without leading zeros, the fraction filled up to the scale.
use crate::numeral::{
    all_decimal_bytes, all_digits, ascii_text, decimal_digits, digits_value, format_spec,
    fraction_digits, is_decimal_numeral, literal, literal_text, literal_value, padded_digits,
    parse_spec, pow10, scan_accepts, scan_accepts_before, zeros, Rejection, DOT,
};
use crate::numeral_lemmas::{
    lemma_decimal_digits, lemma_decimal_digits_of_numeral, lemma_digits_value_bound,
    lemma_digits_value_concat, lemma_digits_value_increases, lemma_digits_value_of_decimal_digits,
    lemma_digits_value_of_padded_digits, lemma_digits_value_separator,
    lemma_fraction_digits_of_digits, lemma_fraction_digits_of_literal, lemma_padded_digits,
    lemma_padded_digits_of_digits, lemma_padded_digits_shifted, lemma_parse_scanned,
    lemma_pow10_adds, lemma_pow10_positive,
};
use vstd::arithmetic::div_mod::{lemma_fundamental_div_mod, lemma_fundamental_div_mod_converse};
use vstd::prelude::*;
use vstd::utf8::{encode_utf8, is_ascii_chars, is_ascii_chars_encode_utf8};

verus! {

/// A text of digits and separators whose number fits in 64 bits is scanned
/// to its end.
pub proof fn lemma_scan_reaches_end(s: Seq<u8>)
    requires
        all_decimal_bytes(s),
        digits_value(s) <= u64::MAX,
    ensures
        scan_accepts_before(s, s.len() as int),
{
    assert forall|i: int| 0 <= i < s.len() implies scan_accepts(s, i) by {
        lemma_digits_value_increases(s, i + 1);
        assert(s[i] == DOT || crate::numeral::is_digit(s[i]));
    }
}

/// The number and the fractional digits of the literal `integer.fraction`.
pub proof fn lemma_literal(integer: Seq<u8>, fraction: Seq<u8>)
    requires
        all_digits(integer),
        all_digits(fraction),
    ensures
        all_decimal_bytes(literal(integer, fraction)),
        digits_value(literal(integer, fraction)) == digits_value(integer) * pow10(fraction.len())
            + digits_value(fraction),
        fraction_digits(literal(integer, fraction)) == fraction.len(),
{
    let head = integer.push(DOT);
    lemma_digits_value_separator(integer);
    lemma_digits_value_concat(head, fraction);
    lemma_fraction_digits_of_literal(integer, fraction);
    let text = literal(integer, fraction);
    assert forall|i: int| 0 <= i < text.len() implies (#[trigger] text[i]) == DOT
        || crate::numeral::is_digit(text[i]) by {
        if i < integer.len() {
            assert(text[i] == integer[i]);
        } else if i > integer.len() {
            assert(text[i] == fraction[i - integer.len() - 1]);
        }
    }
}

/// The text of a value reads back as the value: for every 64-bit `unscaled`
/// and every scale, `parse(format(unscaled)) == unscaled`.
pub proof fn lemma_parse_of_format(unscaled: u64, scale: nat)
    ensures
        parse_spec(format_spec(unscaled as nat, scale), scale) == Ok::<u64, Rejection>(unscaled),
{
    let power = pow10(scale);
    lemma_pow10_positive(scale);
    let whole = unscaled as nat / power;
    let part = unscaled as nat % power;
    let integer = decimal_digits(whole);
    let fraction = padded_digits(part, scale);
    let text = format_spec(unscaled as nat, scale);
    lemma_decimal_digits(whole);
    lemma_padded_digits(part, scale);
    lemma_digits_value_of_decimal_digits(whole);
    lemma_digits_value_of_padded_digits(part, scale);
    lemma_fundamental_div_mod(unscaled as int, power as int);
    assert(whole * power == power * whole) by (nonlinear_arith);
    if scale == 0 {
        assert(text == integer);
        assert(power == 1);
        assert(whole == unscaled as nat / 1);
        lemma_fraction_digits_of_digits(integer);
        assert(all_decimal_bytes(text));
    } else {
        assert(text =~= literal(integer, fraction));
        lemma_literal(integer, fraction);
    }
    assert(digits_value(text) == unscaled);
    assert(fraction_digits(text) == scale);
    lemma_scan_reaches_end(text);
    lemma_parse_scanned(text, scale);
    assert(digits_value(text) * pow10(0) == digits_value(text)) by (nonlinear_arith)
        requires
            pow10(0) == 1,
    ;
}

/// The text of a value is made of digits and separators.
pub proof fn lemma_format_bytes(unscaled: nat, scale: nat)
    ensures
        all_decimal_bytes(format_spec(unscaled, scale)),
{
    let integer = decimal_digits(unscaled / pow10(scale));
    let fraction = padded_digits(unscaled % pow10(scale), scale);
    lemma_decimal_digits(unscaled / pow10(scale));
    lemma_padded_digits(unscaled % pow10(scale), scale);
    let text = format_spec(unscaled, scale);
    assert forall|i: int| 0 <= i < text.len() implies (#[trigger] text[i]) == DOT
        || crate::numeral::is_digit(text[i]) by {
        if i < integer.len() {
            assert(text[i] == integer[i]);
        } else if scale > 0 && i > integer.len() {
            assert(text[i] == fraction[i - integer.len() - 1]);
        }
    }
}

/// Digits and separators are ASCII: as characters they encode to themselves.
pub proof fn lemma_ascii_text(bytes: Seq<u8>)
    requires
        all_decimal_bytes(bytes),
    ensures
        encode_utf8(ascii_text(bytes)) == bytes,
{
    let chars = ascii_text(bytes);
    assert forall|i: int| 0 <= i < chars.len() implies '\0' <= #[trigger] chars[i] <= '\u{7f}' by {
        assert(bytes[i] == DOT || crate::numeral::is_digit(bytes[i]));
    }
    assert(is_ascii_chars(chars));
    is_ascii_chars_encode_utf8(chars);
    assert forall|i: int| 0 <= i < bytes.len() implies encode_utf8(chars)[i] == bytes[i] by {
        assert(bytes[i] == DOT || crate::numeral::is_digit(bytes[i]));
        assert(chars[i] as u8 == encode_utf8(chars)[i]);
    }
    assert(encode_utf8(chars) =~= bytes);
}

/// The string of a value reads back as the value: what `to_string` returns
/// for `unscaled`, `from_str` reads as `unscaled`.
pub proof fn lemma_parse_of_string(unscaled: u64, scale: nat)
    ensures
        parse_spec(encode_utf8(ascii_text(format_spec(unscaled as nat, scale))), scale) == Ok::<
            u64,
            Rejection,
        >(unscaled),
{
    lemma_format_bytes(unscaled as nat, scale);
    lemma_ascii_text(format_spec(unscaled as nat, scale));
    lemma_parse_of_format(unscaled, scale);
}

/// What the value of a literal splits into at its scale.
proof fn lemma_literal_value(integer: Seq<u8>, fraction: Seq<u8>, scale: nat)
    requires
        all_digits(fraction),
        fraction.len() <= scale,
    ensures
        literal_value(integer, fraction, scale) == (digits_value(integer) * pow10(fraction.len())
            + digits_value(fraction)) * pow10((scale - fraction.len()) as nat),
        literal_value(integer, fraction, scale) / pow10(scale) == digits_value(integer),
        literal_value(integer, fraction, scale) % pow10(scale) == digits_value(fraction) * pow10(
            (scale - fraction.len()) as nat,
        ),
{
    let count = fraction.len();
    let fill = (scale - count) as nat;
    let whole = digits_value(integer);
    let part = digits_value(fraction);
    lemma_pow10_adds(count, fill);
    lemma_pow10_positive(scale);
    lemma_pow10_positive(fill);
    lemma_digits_value_bound(fraction);
    assert((whole * pow10(count) + part) * pow10(fill) == whole * (pow10(count) * pow10(fill))
        + part * pow10(fill)) by (nonlinear_arith);
    assert(part * pow10(fill) < pow10(count) * pow10(fill)) by (nonlinear_arith)
        requires
            part < pow10(count),
            pow10(fill) > 0,
    ;
    lemma_fundamental_div_mod_converse(
        literal_value(integer, fraction, scale) as int,
        pow10(scale) as int,
        whole as int,
        (part * pow10(fill)) as int,
    );
}

/// A literal that is read and written again keeps its number: the literal
/// `integer.fraction` with at most `scale` fractional digits, whose value
/// fits in 64 bits, is read as that value, and the text of the value is the
/// integer part without leading zeros, the separator, and the fraction
/// filled up with zeros to exactly `scale` digits.
pub proof fn lemma_format_of_parse(integer: Seq<u8>, fraction: Seq<u8>, scale: nat)
    requires
        all_digits(integer),
        all_digits(fraction),
        fraction.len() <= scale,
        literal_value(integer, fraction, scale) <= u64::MAX,
    ensures
        parse_spec(literal(integer, fraction), scale) == Ok::<u64, Rejection>(
            literal_value(integer, fraction, scale) as u64,
        ),
        format_spec(literal_value(integer, fraction, scale), scale) == literal_text(
            integer,
            fraction,
            scale,
        ),
{
    let text = literal(integer, fraction);
    let count = fraction.len();
    let fill = (scale - count) as nat;
    let value = literal_value(integer, fraction, scale);
    lemma_literal(integer, fraction);
    lemma_literal_value(integer, fraction, scale);
    lemma_pow10_positive(fill);
    assert(digits_value(text) <= value) by (nonlinear_arith)
        requires
            value == digits_value(text) * pow10(fill),
            pow10(fill) > 0,
    ;
    lemma_scan_reaches_end(text);
    lemma_parse_scanned(text, scale);
    // The text of the value.
    lemma_padded_digits_shifted(digits_value(fraction), count, fill);
    lemma_padded_digits_of_digits(fraction);
    assert(count + fill == scale);
}

/// The same for a literal without a separator: the digits `integer` are
/// read as that number of whole units, and written with a fraction of
/// zeros.
pub proof fn lemma_format_of_parse_integer(integer: Seq<u8>, scale: nat)
    requires
        all_digits(integer),
        literal_value(integer, Seq::empty(), scale) <= u64::MAX,
    ensures
        parse_spec(integer, scale) == Ok::<u64, Rejection>(
            literal_value(integer, Seq::empty(), scale) as u64,
        ),
        format_spec(literal_value(integer, Seq::empty(), scale), scale) == literal_text(
            integer,
            Seq::empty(),
            scale,
        ),
{
    let none = Seq::<u8>::empty();
    let value = literal_value(integer, none, scale);
    lemma_format_of_parse(integer, none, scale);
    lemma_fraction_digits_of_digits(integer);
    lemma_pow10_positive(scale);
    assert(digits_value(none) == 0);
    assert(value == digits_value(integer) * pow10(scale)) by (nonlinear_arith)
        requires
            value == digits_value(integer) * pow10(scale) + 0 * pow10(scale),
    ;
    assert(digits_value(integer) <= value) by (nonlinear_arith)
        requires
            value == digits_value(integer) * pow10(scale),
            pow10(scale) > 0,
    ;
    assert(all_decimal_bytes(integer));
    lemma_scan_reaches_end(integer);
    lemma_parse_scanned(integer, scale);
}

/// An integer part in ordinary decimal digits is written as it stands: the
/// literal `integer.fraction` then comes back letter for letter, with zeros
/// behind it.
pub proof fn lemma_format_of_parse_numeral(integer: Seq<u8>, fraction: Seq<u8>, scale: nat)
    requires
        is_decimal_numeral(integer),
        all_digits(fraction),
        fraction.len() <= scale,
        0 < scale,
        literal_value(integer, fraction, scale) <= u64::MAX,
    ensures
        format_spec(literal_value(integer, fraction, scale), scale) == literal(integer, fraction)
            + zeros((scale - fraction.len()) as nat),
{
    lemma_format_of_parse(integer, fraction, scale);
    lemma_decimal_digits_of_numeral(integer);
    assert(literal_text(integer, fraction, scale) =~= literal(integer, fraction) + zeros(
        (scale - fraction.len()) as nat,
    ));
}

} // verus!
