use kaxel::emit::{CppEmitter, Emitter, TYPES_PREAMBLE};
use kaxel::registry::{Enumerant, EnumerantId, Spec};
use kaxel::values::{Constant, IntegralType};

fn enumerant(name: &str, value: u64, bitwidth: u32, signed: bool) -> Enumerant {
    Enumerant {
        name: EnumerantId(name.to_string()),
        value: Constant {
            value,
            ty: IntegralType { bitwidth, signed },
        },
        alias: None,
    }
}

fn spec_of(enums: Vec<Enumerant>) -> Spec {
    Spec {
        enum_groups: Vec::new(),
        enums_list: enums,
    }
}

#[test]
fn emit_types_is_the_fixed_preamble() {
    assert_eq!(CppEmitter.emit_types(), TYPES_PREAMBLE);
}

#[test]
fn unsigned_values_render_as_prefixed_uppercase_hex() {
    let sp = spec_of(vec![
        enumerant("ZERO", 0, 8, false),
        enumerant("FF", 255, 8, false),
        enumerant("BIG", u64::MAX, 64, false),
        enumerant("MIXED", 0xAb12, 32, false),
    ]);
    let out = CppEmitter.emit_enums(&sp);
    assert_eq!(
        out,
        "constexpr uint8_t ZERO = 0x0;\n\
         constexpr uint8_t FF = 0xFF;\n\
         constexpr uint64_t BIG = 0xFFFFFFFFFFFFFFFF;\n\
         constexpr uint32_t MIXED = 0xAB12;\n"
    );
}

#[test]
fn signed_values_render_as_decimal_with_a_minus() {
    let sp = spec_of(vec![
        enumerant("NEG", 2, 8, true),
        enumerant("MIN64", 9223372036854775808, 64, true),
        enumerant("NEG1000", 1000, 32, true),
    ]);
    let out = CppEmitter.emit_enums(&sp);
    assert_eq!(
        out,
        "constexpr int8_t NEG = -2;\n\
         constexpr int64_t MIN64 = -9223372036854775808;\n\
         constexpr int32_t NEG1000 = -1000;\n"
    );
}

#[test]
fn the_type_table_is_closed_with_a_generic_fallback() {
    let sp = spec_of(vec![
        enumerant("A", 1, 8, false),
        enumerant("B", 1, 32, false),
        enumerant("C", 1, 64, false),
        enumerant("D", 1, 8, true),
        enumerant("E", 1, 32, true),
        enumerant("F", 1, 64, true),
        // classification never produces 16, but the table stays closed
        enumerant("G", 1, 16, false),
    ]);
    let out = CppEmitter.emit_enums(&sp);
    for line in [
        "constexpr uint8_t A = 0x1;",
        "constexpr uint32_t B = 0x1;",
        "constexpr uint64_t C = 0x1;",
        "constexpr int8_t D = -1;",
        "constexpr int32_t E = -1;",
        "constexpr int64_t F = -1;",
        "constexpr auto G = 0x1;",
    ] {
        assert!(out.contains(line), "missing {line}");
    }
}

#[test]
fn the_header_is_preamble_then_declarations_in_order() {
    let sp = spec_of(vec![
        enumerant("FIRST", 1, 8, false),
        enumerant("SECOND", 2, 8, false),
    ]);
    let out = CppEmitter.emit(&sp);
    let expected_prefix = format!("#include <cstdint>\n\n{TYPES_PREAMBLE}\n");
    assert!(out.starts_with(&expected_prefix));
    assert_eq!(
        &out[expected_prefix.len()..],
        "constexpr uint8_t FIRST = 0x1;\nconstexpr uint8_t SECOND = 0x2;\n"
    );
}

#[test]
fn emitting_twice_is_byte_identical() {
    let sp = spec_of(vec![
        enumerant("A", 10, 8, false),
        enumerant("B", 20, 8, true),
    ]);
    let first = CppEmitter.emit(&sp);
    let second = CppEmitter.emit(&sp);
    assert_eq!(first, second);
    assert_eq!(first.as_bytes(), second.as_bytes());
}

#[test]
fn an_empty_specification_emits_only_the_preamble() {
    let sp = spec_of(vec![]);
    let out = CppEmitter.emit(&sp);
    assert_eq!(out, format!("#include <cstdint>\n\n{TYPES_PREAMBLE}\n"));
}
