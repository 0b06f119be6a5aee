use hugr::answer_schema::{json_type_name, matches_type, validate_extra};
use hugr::json::{Json, JsonNumber};

fn s(t: &str) -> String {
    t.to_string()
}

fn obj(entries: Vec<(&str, Json)>) -> Json {
    Json::Object(entries.into_iter().map(|(k, v)| (s(k), v)).collect())
}

fn text(t: &str) -> Json {
    Json::String(s(t))
}

fn num(n: u64) -> Json {
    Json::Number(JsonNumber::PosInt(n))
}

/// The docs agent's schema, keys in serde_json's (sorted) order.
fn docs_schema() -> Json {
    obj(vec![
        (
            "properties",
            obj(vec![(
                "related_documents",
                obj(vec![("items", obj(vec![("type", text("string"))])), ("type", text("array"))]),
            )]),
        ),
        ("required", Json::Array(vec![text("related_documents")])),
        ("type", text("object")),
    ])
}

#[test]
fn conforming_extra_has_no_violations() {
    let extra = obj(vec![
        ("answer", text("hi")),
        ("related_documents", Json::Array(vec![text("a.md"), text("b.md")])),
    ]);
    assert!(validate_extra(&docs_schema(), &extra).is_empty());
}

#[test]
fn missing_required_and_bad_item_type_are_reported() {
    let extra = obj(vec![("related_documents", Json::Array(vec![text("ok.md"), num(7)]))]);
    let errs = validate_extra(&docs_schema(), &extra);
    assert_eq!(errs.len(), 1, "{errs:?}");
    assert!(errs[0].contains("related_documents[1]"), "{errs:?}");

    let missing = obj(vec![("other", Json::Bool(true))]);
    let errs = validate_extra(&docs_schema(), &missing);
    assert_eq!(errs.len(), 1, "{errs:?}");
    assert!(errs[0].contains("missing required property `related_documents`"));
}

#[test]
fn top_level_type_mismatch_short_circuits() {
    let errs = validate_extra(&docs_schema(), &text("not an object"));
    assert_eq!(errs.len(), 1);
    assert!(errs[0].contains("expected type `object`"), "{errs:?}");
}

#[test]
fn unknown_keywords_are_ignored() {
    let schema = obj(vec![
        ("additionalProperties", Json::Bool(false)),
        ("minProperties", num(2)),
        ("type", text("object")),
    ]);
    assert!(validate_extra(&schema, &obj(vec![("a", num(1))])).is_empty());
}

#[test]
fn violation_messages_name_the_path() {
    let extra = obj(vec![("related_documents", Json::Array(vec![text("ok.md"), num(7)]))]);
    let errs = validate_extra(&docs_schema(), &extra);
    assert_eq!(errs, vec![s("extra.related_documents[1]: expected type `string`, got `number`")]);
    let errs = validate_extra(&docs_schema(), &obj(vec![]));
    assert_eq!(errs, vec![s("extra: missing required property `related_documents`")]);
}

#[test]
fn json_types_are_named_like_json_schema() {
    assert_eq!(json_type_name(&Json::Null), "null");
    assert_eq!(json_type_name(&Json::Bool(false)), "boolean");
    assert_eq!(json_type_name(&num(3)), "number");
    assert_eq!(json_type_name(&text("x")), "string");
    assert_eq!(json_type_name(&Json::Array(vec![])), "array");
    assert_eq!(json_type_name(&obj(vec![])), "object");
}

#[test]
fn integer_type_accepts_whole_floats_only() {
    assert!(matches_type("integer", &num(3)));
    assert!(matches_type("integer", &Json::Number(JsonNumber::NegInt(-3))));
    assert!(matches_type("integer", &Json::Number(JsonNumber::Float(s("2.0")))));
    assert!(!matches_type("integer", &Json::Number(JsonNumber::Float(s("2.5")))));
    assert!(matches_type("number", &Json::Number(JsonNumber::Float(s("2.5")))));
    assert!(matches_type("whatever", &Json::Null));
    assert!(!matches_type("string", &Json::Null));
}

#[test]
fn a_schema_without_keywords_accepts_anything() {
    for value in [Json::Null, text("x"), num(3), obj(vec![("a", Json::Bool(true))])] {
        assert!(validate_extra(&obj(vec![]), &value).is_empty());
        assert!(validate_extra(&Json::Bool(true), &value).is_empty());
    }
}
