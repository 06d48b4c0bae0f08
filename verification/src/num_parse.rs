//! Fallible entry points over the literal parser: a raw signed integer
//! reading, and a classified constant.

use vstd::prelude::*;
use crate::literal::{
    lit_result, parse_literal, spec_classify, classify_width, ParseError, SIGNED_MAGNITUDE_CAP,
};

verus! {

/// A classified constant: minimal bit width, magnitude, sign flag.
/// `value` holds only the magnitude; the sign lives in `signed`.
#[derive(Debug, Clone)]
pub struct Constant {
    pub bitwidth: u32,
    pub value: u64,
    pub signed: bool,
}

/// What `parse_int` returns: the literal's magnitude with its sign
/// applied, as a signed 128-bit value, or the parse error.
pub open spec fn spec_parse_int(s: Seq<char>) -> Result<i128, ParseError> {
    match lit_result(s) {
        Ok((m, sg)) => if sg {
            Ok((-(m as int)) as i128)
        } else {
            Ok(m as i128)
        },
        Err(e) => Err(e),
    }
}

/// Reads a numeric literal as a signed integer. The magnitude is capped
/// at `u64::MAX` by the literal grammar, so the result always fits.
pub fn parse_int(input: &str) -> (r: Result<i128, ParseError>)
    ensures
        r == spec_parse_int(input@),
{
    match parse_literal(input) {
        Ok((m, sg)) => if sg {
            Ok(-(m as i128))
        } else {
            Ok(m as i128)
        },
        Err(e) => Err(e),
    }
}

/// What `create_constant` returns: the parsed magnitude and sign with the
/// minimal width attached, or the parse error; a signed magnitude above
/// `2^63` is rejected as out of range, never truncated.
pub open spec fn spec_create_constant(s: Seq<char>) -> Result<Constant, ParseError> {
    match lit_result(s) {
        Ok((m, sg)) => if sg && m > SIGNED_MAGNITUDE_CAP {
            Err(ParseError::OutOfRange)
        } else {
            Ok(
                Constant {
                    bitwidth: spec_classify(sg, m as int),
                    value: m,
                    signed: sg,
                },
            )
        },
        Err(e) => Err(e),
    }
}

/// Parses a literal token and classifies it, exactly as
/// `spec_create_constant` states.
pub fn create_constant(val: &str) -> (r: Result<Constant, ParseError>)
    ensures
        r == spec_create_constant(val@),
{
    match parse_literal(val) {
        Ok((m, sg)) => if sg && m > SIGNED_MAGNITUDE_CAP {
            Err(ParseError::OutOfRange)
        } else {
            Ok(
                Constant {
                    bitwidth: classify_width(sg, m),
                    value: m,
                    signed: sg,
                },
            )
        },
        Err(e) => Err(e),
    }
}

/// Out-of-range magnitudes are rejected, never silently truncated: a
/// digit string worth more than `u64::MAX` fails the parse outright,
/// and a signed magnitude above `2^63` fails classification.
pub proof fn lemma_out_of_range_rejected(s: Seq<char>)
    ensures
        (crate::literal::digits_ok(crate::literal::lit_digits(s), crate::literal::lit_radix(s))
            && crate::literal::digits_val(
            crate::literal::lit_digits(s),
            crate::literal::lit_radix(s),
        ) > u64::MAX) ==> lit_result(s) == Err::<(u64, bool), ParseError>(ParseError::TooLarge),
        forall|m: u64|
            lit_result(s) == Ok::<(u64, bool), ParseError>((m, true)) && m
                > SIGNED_MAGNITUDE_CAP ==> spec_create_constant(s) == Err::<
                Constant,
                ParseError,
            >(ParseError::OutOfRange),
{
}

} // verus!
