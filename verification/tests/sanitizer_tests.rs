use gateway_core::json::Json;
use gateway_core::pencil::PencilAdapter;
use gateway_core::sanitizer::{cleaned, SchemaSanitizer};
use gateway_core::tool_adapter::{append_hint_to_schema, ToolAdapter};

fn text(s: &str) -> Json {
    Json::Text(s.to_string())
}

fn object(fields: Vec<(&str, Json)>) -> Json {
    Json::Object(fields.into_iter().map(|(k, v)| (k.to_string(), v)).collect())
}

fn show(j: &Json) -> String {
    format!("{:?}", j)
}

struct Hinting(&'static str, &'static str);

impl ToolAdapter for Hinting {
    fn matches(&self, tool_name: &str) -> bool {
        tool_name.starts_with(self.0)
    }

    fn pre_process(&self, schema: &mut Json) -> Result<(), String> {
        append_hint_to_schema(schema, self.1);
        Ok(())
    }

    fn post_process(&self, _schema: &mut Json) -> Result<(), String> {
        Ok(())
    }
}

struct Failing;

impl ToolAdapter for Failing {
    fn matches(&self, tool_name: &str) -> bool {
        tool_name == "bad"
    }

    fn pre_process(&self, _schema: &mut Json) -> Result<(), String> {
        Err("cannot adapt".to_string())
    }

    fn post_process(&self, _schema: &mut Json) -> Result<(), String> {
        Ok(())
    }
}

#[test]
fn cleanup_drops_what_is_not_kept() {
    let schema = object(vec![
        ("$schema", text("http://json-schema.org/draft-07/schema#")),
        ("type", text("object")),
        ("$defs", object(vec![("x", object(vec![]))])),
        ("$ref", text("#/$defs/x")),
        ("x-internal", Json::Bool(true)),
        ("additionalProperties", Json::Bool(false)),
        ("description", text("d")),
        ("required", Json::Array(vec![text("a")])),
    ]);
    let expected = object(vec![
        ("type", text("object")),
        ("description", text("d")),
        ("required", Json::Array(vec![text("a")])),
    ]);
    assert_eq!(show(&cleaned(&schema)), show(&expected));
}

#[test]
fn cleanup_goes_into_properties_and_items() {
    let schema = object(vec![
        ("type", text("object")),
        (
            "properties",
            object(vec![
                // a property may bear the name of a dropped keyword
                ("$ref", object(vec![("type", text("string")), ("$comment", text("c"))])),
                (
                    "list",
                    object(vec![
                        ("type", text("array")),
                        ("items", object(vec![("$ref", text("#/x")), ("type", text("number"))])),
                    ]),
                ),
            ]),
        ),
    ]);
    let expected = object(vec![
        ("type", text("object")),
        (
            "properties",
            object(vec![
                ("$ref", object(vec![("type", text("string"))])),
                (
                    "list",
                    object(vec![
                        ("type", text("array")),
                        ("items", object(vec![("type", text("number"))])),
                    ]),
                ),
            ]),
        ),
    ]);
    assert_eq!(show(&cleaned(&schema)), show(&expected));
}

#[test]
fn cleanup_leaves_data_alone() {
    let schema = object(vec![
        ("enum", Json::Array(vec![object(vec![("$ref", text("kept"))])])),
        ("default", object(vec![("x-any", Json::Null)])),
    ]);
    assert_eq!(show(&cleaned(&schema)), show(&schema));
    assert_eq!(show(&cleaned(&text("s"))), show(&text("s")));
    assert_eq!(show(&cleaned(&Json::Null)), show(&Json::Null));
}

#[test]
fn alternatives_are_lowered_to_a_type() {
    let schema = object(vec![
        ("description", text("either")),
        (
            "anyOf",
            Json::Array(vec![
                object(vec![("type", text("string"))]),
                object(vec![("type", text("null"))]),
                object(vec![("type", text("string")), ("format", text("date"))]),
                object(vec![("description", text("untyped"))]),
                text("not a schema"),
            ]),
        ),
    ]);
    let expected = object(vec![
        ("description", text("either")),
        ("type", Json::Array(vec![text("string"), text("null")])),
    ]);
    assert_eq!(show(&cleaned(&schema)), show(&expected));
}

#[test]
fn a_single_alternative_type_is_a_string() {
    for key in ["oneOf", "allOf", "anyOf"] {
        let schema = object(vec![(key, Json::Array(vec![object(vec![("type", text("integer"))])]))]);
        assert_eq!(show(&cleaned(&schema)), show(&object(vec![("type", text("integer"))])));
    }
}

#[test]
fn own_type_wins_over_the_alternatives() {
    let schema = object(vec![
        ("oneOf", Json::Array(vec![object(vec![("type", text("string"))])])),
        ("type", text("object")),
    ]);
    assert_eq!(show(&cleaned(&schema)), show(&object(vec![("type", text("object"))])));
}

#[test]
fn any_of_comes_before_one_of() {
    let schema = object(vec![
        ("oneOf", Json::Array(vec![object(vec![("type", text("string"))])])),
        ("anyOf", Json::Array(vec![object(vec![("type", text("number"))])])),
    ]);
    assert_eq!(show(&cleaned(&schema)), show(&object(vec![("type", text("number"))])));
    let untyped = object(vec![("anyOf", Json::Array(vec![object(vec![])])), ("title", text("t"))]);
    assert_eq!(show(&cleaned(&untyped)), show(&object(vec![("title", text("t"))])));
}

#[test]
fn cleanup_is_idempotent() {
    let schema = object(vec![
        ("$defs", object(vec![])),
        ("anyOf", Json::Array(vec![object(vec![("type", text("string"))]), object(vec![("type", text("null"))])])),
        (
            "properties",
            object(vec![(
                "a",
                object(vec![
                    ("oneOf", Json::Array(vec![object(vec![("type", text("number"))])])),
                    ("items", Json::Array(vec![object(vec![("x-a", Json::Null), ("type", text("string"))])])),
                ]),
            )]),
        ),
    ]);
    let once = cleaned(&schema);
    let twice = cleaned(&once);
    assert_ne!(show(&once), show(&schema));
    assert_eq!(show(&twice), show(&once));
}

#[test]
fn sanitize_without_an_adapter_cleans() {
    let mut s: SchemaSanitizer<PencilAdapter> = SchemaSanitizer::new();
    s.register(PencilAdapter);
    assert_eq!(s.len(), 1);
    let mut schema = object(vec![
        ("$ref", text("x")),
        ("properties", object(vec![("filePath", object(vec![("type", text("string"))]))])),
    ]);
    s.sanitize("mcp__filesystem__read", &mut schema).unwrap();
    let expected =
        object(vec![("properties", object(vec![("filePath", object(vec![("type", text("string"))]))]))]);
    assert_eq!(show(&schema), show(&expected));
}

#[test]
fn sanitize_runs_the_adapter_then_the_cleanup() {
    let mut s: SchemaSanitizer<PencilAdapter> = SchemaSanitizer::new();
    s.register(PencilAdapter);
    let mut schema = object(vec![
        ("$ref", text("x")),
        (
            "properties",
            object(vec![
                ("filePath", object(vec![("type", text("string")), ("x-note", text("n"))])),
                ("opacity", object(vec![("description", text("How opaque"))])),
            ]),
        ),
    ]);
    s.sanitize("mcp__pencil__draw", &mut schema).unwrap();
    let expected = object(vec![(
        "properties",
        object(vec![
            (
                "filePath",
                object(vec![("type", text("string")), ("description", text("File path (use absolute path)"))]),
            ),
            ("opacity", object(vec![("description", text("How opaque (visual property for UI elements)"))])),
        ]),
    )]);
    assert_eq!(show(&schema), show(&expected));
    // sanitizing what was sanitized changes nothing here
    let once = show(&schema);
    s.sanitize("mcp__pencil__draw", &mut schema).unwrap();
    assert_eq!(show(&schema), once);
}

#[test]
fn pencil_is_settled_after_one_pass_on_a_bare_visual_property() {
    let mut s: SchemaSanitizer<PencilAdapter> = SchemaSanitizer::new();
    s.register(PencilAdapter);
    let mut schema =
        object(vec![("properties", object(vec![("cornerRadius", object(vec![("type", text("number"))]))]))]);
    s.sanitize("mcp__pencil__draw", &mut schema).unwrap();
    let expected = object(vec![(
        "properties",
        object(vec![(
            "cornerRadius",
            object(vec![("type", text("number")), ("description", text("Visual property for UI elements"))]),
        )]),
    )]);
    assert_eq!(show(&schema), show(&expected));
    s.sanitize("mcp__pencil__draw", &mut schema).unwrap();
    assert_eq!(show(&schema), show(&expected));
}

#[test]
fn first_registered_adapter_is_used() {
    let mut s: SchemaSanitizer<Hinting> = SchemaSanitizer::new();
    s.register(Hinting("tool_a", "first"));
    s.register(Hinting("tool", "second"));
    let mut schema = object(vec![]);
    s.sanitize("tool_a_1", &mut schema).unwrap();
    assert_eq!(schema.get("description").and_then(|d| d.as_text()), Some("first"));
    let mut schema = object(vec![]);
    s.sanitize("tool_b_1", &mut schema).unwrap();
    assert_eq!(schema.get("description").and_then(|d| d.as_text()), Some("second"));
    let mut schema = object(vec![("x-custom", Json::Null)]);
    s.sanitize("other", &mut schema).unwrap();
    assert_eq!(show(&schema), show(&object(vec![])));
}

#[test]
fn adapter_failure_is_returned() {
    let mut s: SchemaSanitizer<Failing> = SchemaSanitizer::new();
    s.register(Failing);
    let mut schema = object(vec![("$ref", text("x"))]);
    assert_eq!(s.sanitize("bad", &mut schema), Err("cannot adapt".to_string()));
    assert_eq!(s.sanitize("good", &mut schema), Ok(()));
    assert_eq!(show(&schema), show(&object(vec![])));
}
