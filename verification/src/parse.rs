//! Reading a decimal literal, byte by byte.
use crate::numeral::{
    digits_value, fraction_digits, parse_spec, scan_accepts, scan_accepts_before, Rejection,
    DIGIT_ZERO, DOT, MAX_SCALE, SCALE_FACTORS,
};
use crate::numeral_lemmas::{
    lemma_parse_scanned, lemma_parse_stopped, lemma_scale_factors, lemma_scan_step,
};
use vstd::prelude::*;

verus! {

/// Reads `bytes` as a decimal literal and returns the value in units of
/// `10^-scale`.
///
/// The bytes are scanned from the left. Digits build up the number, a
/// separator marks where the fraction begins (a later one changes nothing),
/// and any other byte is rejected. The scan also stops at the digit that
/// takes the number past 64 bits. A literal with fewer fractional digits
/// than `scale` is filled up with zeros; one with more does not fit.
pub fn parse_unscaled(bytes: &[u8], scale: u8) -> (r: Result<u64, Rejection>)
    requires
        scale <= MAX_SCALE,
    ensures
        r == parse_spec(bytes@, scale as nat),
{
    let mut unscaled: u64 = 0;
    let mut in_fraction = false;
    let mut scale_counter: usize = 0;
    let mut i: usize = 0;
    while i < bytes.len()
        invariant
            i <= bytes@.len(),
            scan_accepts_before(bytes@, i as int),
            unscaled == digits_value(bytes@.take(i as int)),
            in_fraction == bytes@.take(i as int).contains(DOT),
            scale_counter == fraction_digits(bytes@.take(i as int)),
            scale_counter <= i,
        decreases bytes@.len() - i,
    {
        let byte = bytes[i];
        proof {
            lemma_scan_step(bytes@, i as int);
        }
        if DIGIT_ZERO <= byte && byte <= DIGIT_ZERO + 9 {
            let digit = (byte - DIGIT_ZERO) as u64;
            let shifted = match unscaled.checked_mul(10) {
                Some(shifted) => shifted,
                None => {
                    proof {
                        lemma_parse_stopped(bytes@, scale as nat, i as int);
                    }
                    return Err(Rejection::Overflow);
                },
            };
            unscaled = match shifted.checked_add(digit) {
                Some(sum) => sum,
                None => {
                    proof {
                        lemma_parse_stopped(bytes@, scale as nat, i as int);
                    }
                    return Err(Rejection::Overflow);
                },
            };
            if in_fraction {
                scale_counter += 1;
            }
        } else if byte == DOT {
            in_fraction = true;
        } else {
            proof {
                lemma_parse_stopped(bytes@, scale as nat, i as int);
            }
            return Err(Rejection::InvalidCharacter(byte));
        }
        assert(scan_accepts(bytes@, i as int));
        i += 1;
    }
    proof {
        assert(bytes@.take(i as int) =~= bytes@);
        lemma_parse_scanned(bytes@, scale as nat);
        lemma_scale_factors();
    }
    if scale_counter > scale as usize {
        return Err(Rejection::Overflow);
    }
    let factor = SCALE_FACTORS[scale as usize - scale_counter];
    match unscaled.checked_mul(factor) {
        Some(value) => Ok(value),
        None => Err(Rejection::Overflow),
    }
}

} // verus!
