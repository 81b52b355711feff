use savhub::custom_selectors::{
    check_selector_count, validate_custom_selectors, SaveCustomSelectorsRequest,
};
use savhub::error::AppError;
use savhub::json::Json;

fn s(v: &str) -> Json {
    Json::Str(v.to_string())
}

fn obj(entries: Vec<(&str, Json)>) -> Json {
    Json::Object(entries.into_iter().map(|(k, v)| (k.to_string(), v)).collect())
}

fn req(selectors: Vec<Json>) -> SaveCustomSelectorsRequest {
    SaveCustomSelectorsRequest { selectors, version: 1 }
}

#[test]
fn validate_accepts_well_formed_file_glob() {
    let r = validate_custom_selectors(req(vec![obj(vec![
        ("name", s("rust-files")),
        ("kind", s("file_glob")),
        ("pattern", s("**/*.rs")),
    ])]));
    assert!(r.ok, "expected ok, got {:?}", r.issues);
}

#[test]
fn validate_accepts_composite_with_children() {
    let r = validate_custom_selectors(req(vec![obj(vec![
        ("name", s("fullstack")),
        ("kind", s("composite")),
        ("selectors", Json::Array(vec![s("rust-files"), s("ts-files")])),
    ])]));
    assert!(r.ok);
}

#[test]
fn validate_rejects_missing_name_and_kind() {
    let r = validate_custom_selectors(req(vec![obj(vec![("pattern", s("*.rs"))])]));
    assert!(!r.ok);
    let fields: Vec<_> = r.issues.iter().map(|i| i.field.as_str()).collect();
    assert!(fields.contains(&"name"));
    assert!(fields.contains(&"kind"));
}

#[test]
fn validate_rejects_unknown_kind() {
    let r = validate_custom_selectors(req(vec![obj(vec![
        ("name", s("x")),
        ("kind", s("telepathy")),
        ("pattern", s("*")),
    ])]));
    assert!(!r.ok);
    assert!(r.issues.iter().any(|i| i.field == "kind"));
}

#[test]
fn validate_rejects_non_object_entry() {
    let r = validate_custom_selectors(req(vec![s("just a string")]));
    assert!(!r.ok);
    assert_eq!(r.issues.len(), 1);
    assert_eq!(r.issues[0].field, "");
}

#[test]
fn validate_rejects_empty_pattern() {
    let r = validate_custom_selectors(req(vec![obj(vec![
        ("name", s("empty")),
        ("kind", s("regex")),
        ("pattern", s("   ")),
    ])]));
    assert!(!r.ok);
    assert!(r.issues.iter().any(|i| i.field == "pattern"));
}

#[test]
fn validate_accepts_empty_payload() {
    let r = validate_custom_selectors(req(vec![]));
    assert!(r.ok);
    assert!(r.issues.is_empty());
}

#[test]
fn issues_carry_entry_positions() {
    let r = validate_custom_selectors(req(vec![
        obj(vec![("name", s("ok")), ("kind", s("file_glob")), ("pattern", s("*"))]),
        Json::Null,
    ]));
    assert!(!r.ok);
    assert_eq!(r.issues.len(), 1);
    assert_eq!(r.issues[0].index, 1);
}

#[test]
fn selector_count_limit() {
    assert!(check_selector_count(200).is_ok());
    match check_selector_count(201) {
        Err(AppError::BadRequest(m)) => assert_eq!(m, "too many selectors: 201 (max 200)"),
        other => panic!("unexpected {:?}", other),
    }
}
