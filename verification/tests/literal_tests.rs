use kaxel::literal::{parse_literal, str_eq, trim_str, ParseError};
use kaxel::num_parse::{create_constant, parse_int};
use kaxel::values::make_constant;

#[test]
fn radix_prefix_determines_base() {
    assert_eq!(parse_literal("0x1_00"), Ok((256, false)));
    assert_eq!(parse_literal("0b1010"), Ok((10, false)));
    assert_eq!(parse_literal("0o17"), Ok((15, false)));
    assert_eq!(parse_literal("-42"), Ok((42, true)));
    assert_eq!(parse_literal("100"), Ok((100, false)));
}

#[test]
fn radix_prefixes_are_case_insensitive() {
    assert_eq!(parse_literal("0X1f"), Ok((31, false)));
    assert_eq!(parse_literal("0B11"), Ok((3, false)));
    assert_eq!(parse_literal("0O755"), Ok((493, false)));
    assert_eq!(parse_literal("0xAbCd"), Ok((43981, false)));
}

#[test]
fn underscores_are_removed_without_changing_value() {
    assert_eq!(parse_literal("1_000"), Ok((1000, false)));
    assert_eq!(parse_literal("0b10_10"), Ok((10, false)));
    assert_eq!(parse_literal("0x_FF"), Ok((255, false)));
    assert_eq!(parse_literal("-4_2"), Ok((42, true)));
}

#[test]
fn whitespace_is_trimmed() {
    assert_eq!(parse_literal("  42  "), Ok((42, false)));
    assert_eq!(parse_literal("\t0x10\n"), Ok((16, false)));
    assert_eq!(parse_literal("- 7"), Ok((7, true)));
}

#[test]
fn sign_is_never_combined_with_a_radix_prefix() {
    assert_eq!(parse_literal("-0x10"), Err(ParseError::InvalidDigit));
    assert_eq!(parse_literal("-0b1"), Err(ParseError::InvalidDigit));
}

#[test]
fn empty_digit_strings_are_rejected() {
    assert_eq!(parse_literal(""), Err(ParseError::EmptyDigits));
    assert_eq!(parse_literal("   "), Err(ParseError::EmptyDigits));
    assert_eq!(parse_literal("___"), Err(ParseError::EmptyDigits));
    assert_eq!(parse_literal("0x"), Err(ParseError::EmptyDigits));
    assert_eq!(parse_literal("-"), Err(ParseError::EmptyDigits));
}

#[test]
fn non_digit_characters_are_rejected() {
    assert_eq!(parse_literal("12g"), Err(ParseError::InvalidDigit));
    assert_eq!(parse_literal("0b102"), Err(ParseError::InvalidDigit));
    assert_eq!(parse_literal("0o8"), Err(ParseError::InvalidDigit));
    assert_eq!(parse_literal("+42"), Err(ParseError::InvalidDigit));
    assert_eq!(parse_literal("ff"), Err(ParseError::InvalidDigit));
}

#[test]
fn decimal_digits_above_radix_are_invalid_in_binary() {
    assert_eq!(parse_literal("0b2"), Err(ParseError::InvalidDigit));
}

#[test]
fn overflow_beyond_64_bits_is_rejected() {
    assert_eq!(
        parse_literal("18446744073709551615"),
        Ok((u64::MAX, false))
    );
    assert_eq!(
        parse_literal("18446744073709551616"),
        Err(ParseError::TooLarge)
    );
    assert_eq!(
        parse_literal("0xFFFFFFFFFFFFFFFF"),
        Ok((u64::MAX, false))
    );
    assert_eq!(
        parse_literal("0x10000000000000000"),
        Err(ParseError::TooLarge)
    );
}

#[test]
fn unsigned_classification_is_minimal() {
    let c = create_constant("255").unwrap();
    assert_eq!((c.bitwidth, c.value, c.signed), (8, 255, false));
    let c = create_constant("256").unwrap();
    assert_eq!((c.bitwidth, c.value, c.signed), (32, 256, false));
    let c = create_constant("4294967295").unwrap();
    assert_eq!((c.bitwidth, c.value, c.signed), (32, 4294967295, false));
    let c = create_constant("4294967296").unwrap();
    assert_eq!((c.bitwidth, c.value, c.signed), (64, 4294967296, false));
    let c = create_constant("0").unwrap();
    assert_eq!((c.bitwidth, c.value, c.signed), (8, 0, false));
}

#[test]
fn signed_classification_is_minimal() {
    // the signed cap at width w is 2^(w-1): 128 still fits in 8 bits
    let c = create_constant("-127").unwrap();
    assert_eq!((c.bitwidth, c.value, c.signed), (8, 127, true));
    let c = create_constant("-128").unwrap();
    assert_eq!((c.bitwidth, c.value, c.signed), (8, 128, true));
    let c = create_constant("-129").unwrap();
    assert_eq!((c.bitwidth, c.value, c.signed), (32, 129, true));
    let c = create_constant("-2147483647").unwrap();
    assert_eq!((c.bitwidth, c.value, c.signed), (32, 2147483647, true));
    let c = create_constant("-2147483648").unwrap();
    assert_eq!((c.bitwidth, c.value, c.signed), (32, 2147483648, true));
    let c = create_constant("-2147483649").unwrap();
    assert_eq!((c.bitwidth, c.value, c.signed), (64, 2147483649, true));
}

#[test]
fn out_of_range_magnitudes_are_rejected_not_truncated() {
    let c = create_constant("-9223372036854775808").unwrap();
    assert_eq!((c.bitwidth, c.value, c.signed), (64, 9223372036854775808, true));
    assert_eq!(
        create_constant("-9223372036854775809").map(|c| c.value),
        Err(ParseError::OutOfRange)
    );
    assert_eq!(
        create_constant("-18446744073709551616").map(|c| c.value),
        Err(ParseError::TooLarge)
    );
    assert_eq!(
        create_constant("18446744073709551616").map(|c| c.value),
        Err(ParseError::TooLarge)
    );
}

#[test]
fn parse_int_applies_the_sign() {
    assert_eq!(parse_int("-42"), Ok(-42));
    assert_eq!(parse_int("0x10"), Ok(16));
    assert_eq!(parse_int("9223372036854775808"), Ok(9223372036854775808i128));
    assert_eq!(parse_int("-18446744073709551615"), Ok(-(u64::MAX as i128)));
    assert_eq!(parse_int("1_2"), Ok(12));
    assert_eq!(parse_int("xyz"), Err(ParseError::InvalidDigit));
}

#[test]
fn make_constant_classifies_valid_literals() {
    let c = make_constant("0x1");
    assert_eq!((c.value, c.ty.bitwidth, c.ty.signed), (1, 8, false));
    let c = make_constant("-2");
    assert_eq!((c.value, c.ty.bitwidth, c.ty.signed), (2, 8, true));
    let c = make_constant("0xFFFFFFFF");
    assert_eq!((c.value, c.ty.bitwidth, c.ty.signed), (4294967295, 32, false));
}

#[test]
fn string_helpers_behave() {
    assert!(str_eq("enums", "enums"));
    assert!(!str_eq("enums", "enum"));
    assert!(!str_eq("a", "b"));
    assert_eq!(trim_str("  a b  "), "a b".to_string());
    assert_eq!(trim_str(""), "".to_string());
    assert_eq!(trim_str(" \t "), "".to_string());
}
