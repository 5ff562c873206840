use sitegen::{apply_placeholders, process_placeholder, to_placeholder, Placeholder, StrMap};

fn store(entries: &[(&str, &str)]) -> StrMap {
    let mut m = StrMap::new();
    for (k, v) in entries {
        m.insert(k.to_string(), v.to_string());
    }
    m
}

#[test]
fn bare_placeholder_parses_to_value() {
    match to_placeholder("{{name}}") {
        Placeholder::Value(n) => assert_eq!(n, "name"),
        Placeholder::Import(_) => panic!("expected a value reference"),
    }
}

#[test]
fn reusable_placeholder_parses_to_import() {
    match to_placeholder("{{reusable:nav}}") {
        Placeholder::Import(n) => assert_eq!(n, "nav"),
        Placeholder::Value(_) => panic!("expected an import"),
    }
}

#[test]
fn spaces_inside_placeholder_are_removed() {
    match to_placeholder("{{ reusable: nav }}") {
        Placeholder::Import(n) => assert_eq!(n, "nav"),
        Placeholder::Value(_) => panic!("expected an import"),
    }
}

#[test]
fn repeated_reusable_prefixes_are_all_stripped() {
    match to_placeholder("{{reusable:reusable:x}}") {
        Placeholder::Import(n) => assert_eq!(n, "x"),
        Placeholder::Value(_) => panic!("expected an import"),
    }
}

#[test]
fn process_resolves_value_and_import() {
    let values = store(&[("name", "World")]);
    let reusables = store(&[("nav", "<nav/>")]);
    let v = process_placeholder(&Placeholder::Value("name".to_string()), &values, &reusables);
    assert_eq!(v.unwrap(), "World");
    let i = process_placeholder(&Placeholder::Import("nav".to_string()), &values, &reusables);
    assert_eq!(i.unwrap(), "<nav/>");
}

#[test]
fn process_missing_value_names_it() {
    let values = store(&[]);
    let reusables = store(&[]);
    let e = process_placeholder(&Placeholder::Value("name".to_string()), &values, &reusables)
        .unwrap_err();
    assert_eq!(e.0, "did not find named value: name");
    let e = process_placeholder(&Placeholder::Import("nav".to_string()), &values, &reusables)
        .unwrap_err();
    assert_eq!(e.0, "did not find reusable: nav");
}

#[test]
fn apply_replaces_all_occurrences() {
    let values = store(&[("name", "World"), ("greeting", "Hello")]);
    let reusables = store(&[("sig", "-- bye")]);
    let out = apply_placeholders(
        "{{greeting}}, {{name}}! {{reusable:sig}}".to_string(),
        &values,
        &reusables,
    )
    .unwrap();
    assert_eq!(out, "Hello, World! -- bye");
}

#[test]
fn apply_leaves_plain_text_alone() {
    let out = apply_placeholders("no placeholders here".to_string(), &store(&[]), &store(&[]))
        .unwrap();
    assert_eq!(out, "no placeholders here");
}

#[test]
fn apply_reports_rightmost_failure_first() {
    // Placeholders are processed from the rightmost occurrence leftwards,
    // so with two unresolvable references the rightmost is reported.
    let e = apply_placeholders("{{aa}} {{bb}}".to_string(), &store(&[]), &store(&[]))
        .unwrap_err();
    assert_eq!(e.0, "did not find named value: bb");
}

#[test]
fn apply_fails_without_partial_output() {
    let values = store(&[("ok", "fine")]);
    let e = apply_placeholders("{{ok}} {{missing}}".to_string(), &values, &store(&[]))
        .unwrap_err();
    assert_eq!(e.0, "did not find named value: missing");
}
