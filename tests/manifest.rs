use cargo_manifest::{
    build_manifest, parse_cargo_toml, resolve_dependencies, resolve_dependency, FieldValue,
    ParseError, RawEntry, VersionField,
};

#[test]
fn test_parse_cargo_toml() {
    let toml = r#"
            [package]
            name = "hello"
            version = "0.1.0"
            [dependencies]
            serde = "1.0"
            toml = { version = "0.5" }
            hyle = { git = "https://github.com/Hyle-org/hyle", tag = "0.12" }
            "#;
    let cargo_toml = parse_cargo_toml(toml).unwrap();
    assert_eq!(cargo_toml.dependencies.as_ref().unwrap().len(), 3);

    assert_eq!(cargo_toml.get_dependency("serde").unwrap().version, "1.0");
    assert_eq!(cargo_toml.get_dependency("toml").unwrap().version, "0.5");
    assert_eq!(cargo_toml.get_dependency("hyle").unwrap().version, "0.12");
}

#[test]
fn end_to_end_three_dependencies() {
    let text = "[dependencies]\nserde = \"1.0\"\ntoml = { version = \"0.5\" }\nhyle = { git = \"https://example.org/hyle\", tag = \"0.12\" }\n";
    let m = parse_cargo_toml(text).unwrap();
    assert_eq!(m.dependencies.as_ref().unwrap().len(), 3);
    assert_eq!(m.get_dependency("serde").unwrap().version, "1.0");
    assert_eq!(m.get_dependency("toml").unwrap().version, "0.5");
    assert_eq!(m.get_dependency("hyle").unwrap().version, "0.12");
}

#[test]
fn no_dependency_section_is_not_an_error() {
    let m = parse_cargo_toml("[package]\nname = \"hello\"\n").unwrap();
    assert!(m.dependencies.is_none());
    assert!(m.get_dependency("serde").is_none());
}

#[test]
fn empty_document_has_no_dependencies() {
    let m = parse_cargo_toml("").unwrap();
    assert!(m.dependencies.is_none());
}

#[test]
fn empty_dependency_section() {
    let m = parse_cargo_toml("[dependencies]\n").unwrap();
    assert_eq!(m.dependencies.as_ref().unwrap().len(), 0);
    assert!(m.get_dependency("serde").is_none());
}

#[test]
fn string_form_dependency() {
    let m = parse_cargo_toml("[dependencies]\nrand = \"0.8\"\n").unwrap();
    assert_eq!(m.get_dependency("rand").unwrap().version, "0.8");
}

#[test]
fn table_with_version_and_other_fields() {
    let m = parse_cargo_toml(
        "[dependencies]\nserde = { version = \"1.0\", features = \"derive\", path = \"../serde\" }\n",
    )
    .unwrap();
    assert_eq!(m.get_dependency("serde").unwrap().version, "1.0");
}

#[test]
fn table_with_tag_only() {
    let m = parse_cargo_toml("[dependencies]\nhyle = { git = \"https://example.org/hyle\", tag = \"0.12\" }\n")
        .unwrap();
    assert_eq!(m.get_dependency("hyle").unwrap().version, "0.12");
}

#[test]
fn version_takes_precedence_over_tag() {
    let m = parse_cargo_toml("[dependencies]\nx = { version = \"A\", tag = \"B\" }\n").unwrap();
    assert_eq!(m.get_dependency("x").unwrap().version, "A");
}

#[test]
fn missing_version_and_tag_fails() {
    let r = parse_cargo_toml("[dependencies]\nx = { git = \"https://example.org/x\" }\n");
    assert!(matches!(r, Err(ParseError::MissingVersion(ref n)) if n == "x"));
}

#[test]
fn numeric_version_fails() {
    let r = parse_cargo_toml("[dependencies]\nx = { version = 5 }\n");
    assert!(matches!(
        r,
        Err(ParseError::InvalidField { ref name, field: VersionField::Version }) if name == "x"
    ));
}

#[test]
fn numeric_tag_fails() {
    let r = parse_cargo_toml("[dependencies]\nx = { tag = true }\n");
    assert!(matches!(
        r,
        Err(ParseError::InvalidField { ref name, field: VersionField::Tag }) if name == "x"
    ));
}

#[test]
fn unknown_name_not_found() {
    let m = parse_cargo_toml("[dependencies]\nserde = \"1.0\"\n").unwrap();
    assert!(m.get_dependency("tokio").is_none());
    assert!(m.get_dependency("").is_none());
}

#[test]
fn unrecognised_value_is_skipped() {
    let m = parse_cargo_toml("[dependencies]\na = 5\nb = [\"1\"]\nc = true\nd = \"2.0\"\n").unwrap();
    assert_eq!(m.dependencies.as_ref().unwrap().len(), 1);
    assert!(m.get_dependency("a").is_none());
    assert!(m.get_dependency("b").is_none());
    assert!(m.get_dependency("c").is_none());
    assert_eq!(m.get_dependency("d").unwrap().version, "2.0");
}

#[test]
fn malformed_text_fails() {
    let r = parse_cargo_toml("[dependencies\nserde = ");
    match r {
        Err(ParseError::Malformed(msg)) => assert!(!msg.is_empty()),
        _ => panic!("expected a malformed-document error"),
    }
}

#[test]
fn dependencies_not_a_table_fails() {
    let r = parse_cargo_toml("dependencies = 5\n");
    assert!(matches!(r, Err(ParseError::Malformed(_))));
}

#[test]
fn resolve_single_entries() {
    let name = "x".to_string();
    let r = resolve_dependency(&name, &RawEntry::Text("1.2".to_string())).unwrap();
    assert_eq!(r.as_deref(), Some("1.2"));
    let t = RawEntry::Table { version: FieldValue::Absent, tag: FieldValue::Text("v3".to_string()) };
    assert_eq!(resolve_dependency(&name, &t).unwrap().as_deref(), Some("v3"));
    assert_eq!(resolve_dependency(&name, &RawEntry::Other).unwrap(), None);
    let bad = RawEntry::Table { version: FieldValue::Absent, tag: FieldValue::NotText };
    assert!(matches!(
        resolve_dependency(&name, &bad),
        Err(ParseError::InvalidField { field: VersionField::Tag, .. })
    ));
}

#[test]
fn resolve_section_keeps_order_and_skips_others() {
    let raw = vec![
        ("b".to_string(), RawEntry::Text("2".to_string())),
        ("c".to_string(), RawEntry::Other),
        (
            "a".to_string(),
            RawEntry::Table { version: FieldValue::Text("1".to_string()), tag: FieldValue::Text("t".to_string()) },
        ),
    ];
    let deps = resolve_dependencies(&raw).unwrap();
    assert_eq!(deps.len(), 2);
    assert_eq!(deps[0].0, "b");
    assert_eq!(deps[0].1.version, "2");
    assert_eq!(deps[1].0, "a");
    assert_eq!(deps[1].1.version, "1");
}

#[test]
fn first_failing_entry_is_reported() {
    let raw = vec![
        ("a".to_string(), RawEntry::Text("1".to_string())),
        ("b".to_string(), RawEntry::Table { version: FieldValue::Absent, tag: FieldValue::Absent }),
        ("c".to_string(), RawEntry::Table { version: FieldValue::NotText, tag: FieldValue::Absent }),
    ];
    assert!(matches!(resolve_dependencies(&raw), Err(ParseError::MissingVersion(ref n)) if n == "b"));
    assert!(build_manifest(Some(raw)).is_err());
}

#[test]
fn build_without_section() {
    let m = build_manifest(None).unwrap();
    assert!(m.dependencies.is_none());
    assert!(m.get_dependency("a").is_none());
}

#[test]
fn build_with_section_looks_up() {
    let raw = vec![("a".to_string(), RawEntry::Text("1".to_string()))];
    let m = build_manifest(Some(raw)).unwrap();
    assert_eq!(m.get_dependency("a").unwrap().version, "1");
    assert!(m.get_dependency("b").is_none());
}

#[test]
fn malformed_carries_decoder_message() {
    let text = "[dependencies";
    let expected = toml::from_str::<toml::Table>(text).unwrap_err().to_string();
    match parse_cargo_toml(text) {
        Err(ParseError::Malformed(msg)) => assert_eq!(msg, expected),
        _ => panic!("expected a malformed-document error"),
    }
}

#[test]
fn dependencies_as_string_is_malformed() {
    let r = parse_cargo_toml("dependencies = \"1.0\"\n");
    assert!(matches!(r, Err(ParseError::Malformed(_))));
}
