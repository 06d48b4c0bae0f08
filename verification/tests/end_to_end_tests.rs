//! Scenarios that run the real XML decoder through `build_spec`.

use kaxel::emit::{CppEmitter, Emitter};
use kaxel::registry::{build_spec, Api, ApiProfile, ApiVersion, BuildError, SpecOptions};

fn opts(api: Api) -> SpecOptions {
    SpecOptions {
        api,
        version: ApiVersion("3.3".to_string()),
        profile: ApiProfile::Core,
    }
}

fn bytes(s: &str) -> Vec<u8> {
    s.as_bytes().to_vec()
}

#[test]
fn two_enumerants_one_grouped() {
    let doc = bytes(
        r#"<registry>
            <enums>
                <enum name="FOO" value="0x1" group="X"/>
                <enum name="BAR" value="-2"/>
            </enums>
        </registry>"#,
    );
    let sp = build_spec(&doc, opts(Api::OpenGL)).unwrap();

    assert_eq!(sp.enums_list.len(), 2);
    let foo = &sp.enums_list[0];
    assert_eq!(foo.name.0, "FOO");
    assert_eq!(foo.value.value, 1);
    assert_eq!(foo.value.ty.bitwidth, 8);
    assert!(!foo.value.ty.signed);
    let bar = &sp.enums_list[1];
    assert_eq!(bar.name.0, "BAR");
    assert_eq!(bar.value.value, 2);
    assert_eq!(bar.value.ty.bitwidth, 8);
    assert!(bar.value.ty.signed);

    assert_eq!(sp.enum_groups.len(), 1);
    assert_eq!(sp.enum_groups[0].name.as_deref(), Some("X"));
    let members: Vec<String> = sp.enum_groups[0].enums.iter().map(|id| id.0.clone()).collect();
    assert_eq!(members, vec!["FOO"]);

    let header = CppEmitter.emit(&sp);
    assert!(header.contains("constexpr uint8_t FOO = 0x1;\n"));
    assert!(header.contains("constexpr int8_t BAR = -2;\n"));
}

#[test]
fn foreign_api_entries_are_dropped_whole() {
    let doc = bytes(
        r#"<registry>
            <enums>
                <enum api="gles2" name="ES_ONLY" value="0x10" group="X"/>
                <enum name="EVERYWHERE" value="0x20" group="X"/>
            </enums>
        </registry>"#,
    );
    let sp = build_spec(&doc, opts(Api::OpenGL)).unwrap();
    assert_eq!(sp.enums_list.len(), 1);
    assert_eq!(sp.enums_list[0].name.0, "EVERYWHERE");
    let members: Vec<String> = sp.enum_groups[0].enums.iter().map(|id| id.0.clone()).collect();
    assert_eq!(members, vec!["EVERYWHERE"]);
}

#[test]
fn comments_and_unknown_sections_are_ignored() {
    let doc = bytes(
        r#"<?xml version="1.0" encoding="UTF-8"?>
        <!-- vendor header -->
        <registry>
            <types><type>typedef something</type></types>
            <enums namespace="GL">
                <!-- a comment between candidates -->
                <enum name="ONLY" value="7"/>
            </enums>
            <commands><command/></commands>
        </registry>"#,
    );
    let sp = build_spec(&doc, opts(Api::OpenGL)).unwrap();
    assert_eq!(sp.enums_list.len(), 1);
    assert_eq!(sp.enums_list[0].name.0, "ONLY");
}

#[test]
fn multiple_sections_accumulate_in_document_order() {
    let doc = bytes(
        r#"<registry>
            <enums><enum name="A" value="1"/></enums>
            <enums><enum name="B" value="2"/></enums>
        </registry>"#,
    );
    let sp = build_spec(&doc, opts(Api::OpenGL)).unwrap();
    let names: Vec<String> = sp.enums_list.iter().map(|e| e.name.0.clone()).collect();
    assert_eq!(names, vec!["A", "B"]);
}

#[test]
fn a_document_without_a_registry_fails() {
    let doc = bytes(r#"<catalogue></catalogue>"#);
    let r = build_spec(&doc, opts(Api::OpenGL));
    assert!(matches!(r, Err(BuildError::MissingRoot)));
}

#[test]
fn malformed_markup_fails() {
    let doc = bytes(r#"<registry><enums><enum name="E" value="1"/>"#);
    let r = build_spec(&doc, opts(Api::OpenGL));
    assert!(r.is_err());
}

#[test]
fn an_empty_input_fails() {
    let r = build_spec(&Vec::new(), opts(Api::OpenGL));
    assert!(r.is_err());
}

#[test]
fn a_bad_value_surfaces_the_offending_entry() {
    let doc = bytes(
        r#"<registry><enums><enum name="E" value="0xZZ"/></enums></registry>"#,
    );
    match build_spec(&doc, opts(Api::OpenGL)) {
        Err(BuildError::BadValue { name, value, .. }) => {
            assert_eq!(name, "E");
            assert_eq!(value, "0xZZ");
        },
        other => panic!("expected BadValue, got {:?}", other.map(|s| s.enums_list.len())),
    }
}
