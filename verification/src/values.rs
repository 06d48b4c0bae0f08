//! The constant representation carried by the specification model.

use vstd::prelude::*;
use vstd::pervasive::unreached;
use crate::literal::{lit_result, parse_literal, spec_classify, classify_width, SIGNED_MAGNITUDE_CAP};

verus! {

/// The inferred integer representation of a constant: a bit width among
/// {8, 32, 64} and a signedness. The width is always the minimal standard
/// width that holds the associated magnitude; 16 is never produced.
#[derive(Debug, Clone)]
pub struct IntegralType {
    pub bitwidth: u32,
    pub signed: bool,
}

/// A classified constant. `value` holds only the magnitude; the sign
/// lives in `ty.signed`.
#[derive(Debug, Clone)]
pub struct Constant {
    pub value: u64,
    pub ty: IntegralType,
}

/// The inputs on which `make_constant` is defined: the literal parses,
/// and a signed magnitude stays within `2^63`.
pub open spec fn make_constant_defined(s: Seq<char>) -> bool {
    match lit_result(s) {
        Ok((m, sg)) => !sg || m <= SIGNED_MAGNITUDE_CAP,
        Err(_) => false,
    }
}

/// Parses and classifies a literal token that is known to be valid and in
/// range: the result carries the literal's magnitude and sign, with the
/// minimal width attached.
pub fn make_constant(val: &str) -> (c: Constant)
    requires
        make_constant_defined(val@),
    ensures
        lit_result(val@) == Ok::<(u64, bool), crate::literal::ParseError>((c.value, c.ty.signed)),
        c.ty.bitwidth == spec_classify(c.ty.signed, c.value as int),
{
    match parse_literal(val) {
        Ok((m, sg)) => Constant {
            value: m,
            ty: IntegralType { bitwidth: classify_width(sg, m), signed: sg },
        },
        Err(_) => unreached(),
    }
}

/// Out-of-range magnitudes are rejected at this interface too, never
/// silently truncated: a literal whose `-`-signed magnitude exceeds
/// `2^63`, like one whose digit string exceeds `u64::MAX` or does not
/// parse at all, lies outside `make_constant`'s domain, so no constant
/// is ever produced for it. (`create_constant` reports the error for
/// such inputs instead.)
pub proof fn lemma_make_constant_excludes_out_of_range(s: Seq<char>)
    ensures
        match lit_result(s) {
            Ok((m, sg)) => (sg && m > SIGNED_MAGNITUDE_CAP) ==> !make_constant_defined(s),
            Err(_) => !make_constant_defined(s),
        },
{
}

} // verus!
