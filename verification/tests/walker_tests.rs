use kaxel::events::{Attribute, Event};
use kaxel::literal::ParseError;
use kaxel::registry::{
    build_spec_from_events, Api, ApiProfile, ApiVersion, BuildError, EnumerantGroup, Spec,
    SpecOptions,
};

fn opts(api: Api) -> SpecOptions {
    SpecOptions {
        api,
        version: ApiVersion("3.3".to_string()),
        profile: ApiProfile::Core,
    }
}

fn attr(name: &str, value: &str) -> Attribute {
    Attribute {
        name: name.to_string(),
        value: value.to_string(),
    }
}

fn start(name: &str, attributes: Vec<Attribute>) -> Event {
    Event::StartElement {
        name: name.to_string(),
        attributes,
    }
}

fn end(name: &str) -> Event {
    Event::EndElement {
        name: name.to_string(),
    }
}

fn names(sp: &Spec) -> Vec<String> {
    sp.enums_list.iter().map(|e| e.name.0.clone()).collect()
}

fn group<'a>(sp: &'a Spec, name: &str) -> Option<&'a EnumerantGroup> {
    sp.enum_groups
        .iter()
        .find(|g| g.name.as_deref() == Some(name))
}

fn group_members(sp: &Spec, name: &str) -> Vec<String> {
    group(sp, name)
        .map(|g| g.enums.iter().map(|id| id.0.clone()).collect())
        .unwrap_or_default()
}

#[test]
fn document_order_is_preserved() {
    let events = vec![
        Event::StartDocument,
        start("registry", vec![]),
        start("enums", vec![]),
        start("enum", vec![attr("name", "A"), attr("value", "1"), attr("group", "G")]),
        end("enum"),
        start("enum", vec![attr("name", "C"), attr("value", "3")]),
        end("enum"),
        start("enum", vec![attr("name", "B"), attr("value", "2"), attr("group", "G")]),
        end("enum"),
        end("enums"),
        end("registry"),
        Event::EndDocument,
    ];
    let sp = build_spec_from_events(&events, &opts(Api::OpenGL)).unwrap();
    assert_eq!(names(&sp), vec!["A", "C", "B"]);
    // per-group insertion order is kept, independent of the list
    assert_eq!(group_members(&sp, "G"), vec!["A", "B"]);
}

#[test]
fn group_attribute_splits_on_commas_with_trimming() {
    let events = vec![
        Event::StartDocument,
        start("registry", vec![]),
        start("enums", vec![]),
        start("enum", vec![attr("name", "E"), attr("value", "7"), attr("group", "A, B,C")]),
        end("enums"),
        Event::EndDocument,
    ];
    let sp = build_spec_from_events(&events, &opts(Api::OpenGL)).unwrap();
    assert_eq!(group_members(&sp, "A"), vec!["E"]);
    assert_eq!(group_members(&sp, "B"), vec!["E"]);
    assert_eq!(group_members(&sp, "C"), vec!["E"]);
    assert_eq!(sp.enum_groups.len(), 3);
    assert!(group(&sp, "A, B,C").is_none());
}

#[test]
fn entry_without_group_attribute_joins_no_group() {
    let events = vec![
        Event::StartDocument,
        start("registry", vec![]),
        start("enums", vec![]),
        start("enum", vec![attr("name", "E"), attr("value", "7")]),
        end("enums"),
        Event::EndDocument,
    ];
    let sp = build_spec_from_events(&events, &opts(Api::OpenGL)).unwrap();
    assert_eq!(names(&sp), vec!["E"]);
    assert!(sp.enum_groups.is_empty());
}

#[test]
fn api_scoping_excludes_foreign_entries_entirely() {
    let events = vec![
        Event::StartDocument,
        start("registry", vec![]),
        start("enums", vec![]),
        start(
            "enum",
            vec![attr("api", "gles2"), attr("name", "ES"), attr("value", "1"), attr("group", "G")],
        ),
        start("enum", vec![attr("name", "GL"), attr("value", "2")]),
        end("enums"),
        Event::EndDocument,
    ];
    let sp = build_spec_from_events(&events, &opts(Api::OpenGL)).unwrap();
    // the gles2 entry is absent from the list and from every group
    assert_eq!(names(&sp), vec!["GL"]);
    assert!(sp.enum_groups.is_empty());
}

#[test]
fn api_scoping_matches_the_fixed_family_table() {
    let mk = |api_token: &str| {
        vec![
            Event::StartDocument,
            start("registry", vec![]),
            start("enums", vec![]),
            start("enum", vec![attr("api", api_token), attr("name", "E"), attr("value", "1")]),
            end("enums"),
            Event::EndDocument,
        ]
    };
    // accepted under their own family
    for (token, api) in [
        ("gl", Api::OpenGL),
        ("gles1", Api::OpenGLES),
        ("gles2", Api::OpenGLES),
        ("glsc2", Api::OpenGLSC),
    ] {
        let sp = build_spec_from_events(&mk(token), &opts(api)).unwrap();
        assert_eq!(names(&sp), vec!["E"], "token {token} should match");
    }
    // the empty token applies to every family
    let sp = build_spec_from_events(&mk(""), &opts(Api::OpenGL)).unwrap();
    assert_eq!(names(&sp), vec!["E"]);
    // a token of another family, or of no family, is skipped
    for (token, api) in [
        ("gles1", Api::OpenGL),
        ("gl", Api::OpenGLES),
        ("gl", Api::OpenGLSC),
        ("webgl", Api::OpenGL),
    ] {
        let sp = build_spec_from_events(&mk(token), &opts(api)).unwrap();
        assert!(names(&sp).is_empty(), "token {token} should be skipped");
    }
}

#[test]
fn missing_document_start_fails() {
    let r = build_spec_from_events(&vec![], &opts(Api::OpenGL));
    assert!(matches!(r, Err(BuildError::MissingStartDocument)));
    let r = build_spec_from_events(&vec![start("registry", vec![])], &opts(Api::OpenGL));
    assert!(matches!(r, Err(BuildError::MissingStartDocument)));
}

#[test]
fn missing_root_container_fails() {
    let r = build_spec_from_events(
        &vec![Event::StartDocument, Event::EndDocument],
        &opts(Api::OpenGL),
    );
    assert!(matches!(r, Err(BuildError::MissingRoot)));
}

#[test]
fn unclosed_section_fails() {
    let r = build_spec_from_events(
        &vec![
            Event::StartDocument,
            start("registry", vec![]),
            start("enums", vec![]),
            Event::EndDocument,
        ],
        &opts(Api::OpenGL),
    );
    assert!(matches!(r, Err(BuildError::SectionNotClosed)));
}

#[test]
fn reader_failure_is_fatal() {
    let r = build_spec_from_events(
        &vec![Event::StartDocument, Event::ReadError],
        &opts(Api::OpenGL),
    );
    assert!(matches!(r, Err(BuildError::Malformed)));
}

#[test]
fn missing_name_is_fatal() {
    let r = build_spec_from_events(
        &vec![
            Event::StartDocument,
            start("registry", vec![]),
            start("enums", vec![]),
            start("enum", vec![attr("value", "1")]),
            end("enums"),
            Event::EndDocument,
        ],
        &opts(Api::OpenGL),
    );
    assert!(matches!(r, Err(BuildError::MissingName)));
}

#[test]
fn missing_value_is_fatal_and_names_the_entry() {
    let r = build_spec_from_events(
        &vec![
            Event::StartDocument,
            start("registry", vec![]),
            start("enums", vec![]),
            start("enum", vec![attr("name", "E")]),
            end("enums"),
            Event::EndDocument,
        ],
        &opts(Api::OpenGL),
    );
    match r {
        Err(BuildError::MissingValue { name }) => assert_eq!(name, "E"),
        other => panic!("expected MissingValue, got {:?}", other.map(|s| s.enums_list.len())),
    }
}

#[test]
fn unparsable_value_is_fatal_with_its_cause() {
    let r = build_spec_from_events(
        &vec![
            Event::StartDocument,
            start("registry", vec![]),
            start("enums", vec![]),
            start("enum", vec![attr("name", "E"), attr("value", "zzz")]),
            end("enums"),
            Event::EndDocument,
        ],
        &opts(Api::OpenGL),
    );
    match r {
        Err(BuildError::BadValue { name, value, cause }) => {
            assert_eq!(name, "E");
            assert_eq!(value, "zzz");
            assert_eq!(cause, ParseError::InvalidDigit);
        },
        other => panic!("expected BadValue, got {:?}", other.map(|s| s.enums_list.len())),
    }
}

#[test]
fn out_of_range_value_is_fatal() {
    let r = build_spec_from_events(
        &vec![
            Event::StartDocument,
            start("registry", vec![]),
            start("enums", vec![]),
            start("enum", vec![attr("name", "E"), attr("value", "-9223372036854775809")]),
            end("enums"),
            Event::EndDocument,
        ],
        &opts(Api::OpenGL),
    );
    match r {
        Err(BuildError::BadValue { cause, .. }) => assert_eq!(cause, ParseError::OutOfRange),
        other => panic!("expected BadValue, got {:?}", other.map(|s| s.enums_list.len())),
    }
}

#[test]
fn unknown_sections_and_events_are_skipped() {
    let events = vec![
        Event::StartDocument,
        Event::Other,
        start("comment", vec![]),
        end("comment"),
        start("registry", vec![]),
        start("commands", vec![]),
        end("commands"),
        start("enums", vec![]),
        Event::Other,
        start("unused", vec![attr("name", "X"), attr("value", "1")]),
        end("unused"),
        start("enum", vec![attr("name", "E"), attr("value", "1")]),
        end("enums"),
        start("types", vec![]),
        end("types"),
        end("registry"),
        Event::EndDocument,
    ];
    let sp = build_spec_from_events(&events, &opts(Api::OpenGL)).unwrap();
    assert_eq!(names(&sp), vec!["E"]);
}

#[test]
fn aliases_are_recorded_verbatim() {
    let events = vec![
        Event::StartDocument,
        start("registry", vec![]),
        start("enums", vec![]),
        start("enum", vec![attr("name", "E"), attr("value", "1"), attr("alias", "OLD_E")]),
        start("enum", vec![attr("name", "F"), attr("value", "2")]),
        end("enums"),
        Event::EndDocument,
    ];
    let sp = build_spec_from_events(&events, &opts(Api::OpenGL)).unwrap();
    assert_eq!(sp.enums_list[0].alias.as_deref(), Some("OLD_E"));
    assert_eq!(sp.enums_list[1].alias, None);
}

#[test]
fn repeated_group_names_append_each_time() {
    let events = vec![
        Event::StartDocument,
        start("registry", vec![]),
        start("enums", vec![]),
        start("enum", vec![attr("name", "E"), attr("value", "1"), attr("group", "G,G")]),
        end("enums"),
        Event::EndDocument,
    ];
    let sp = build_spec_from_events(&events, &opts(Api::OpenGL)).unwrap();
    assert_eq!(group_members(&sp, "G"), vec!["E", "E"]);
}
