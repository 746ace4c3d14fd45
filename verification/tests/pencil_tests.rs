use gateway_core::json::Json;
use gateway_core::pencil::PencilAdapter;
use gateway_core::tool_adapter::ToolAdapter;

fn text(s: &str) -> Json {
    Json::Text(s.to_string())
}

fn object(fields: Vec<(&str, Json)>) -> Json {
    Json::Object(fields.into_iter().map(|(k, v)| (k.to_string(), v)).collect())
}

fn member<'a>(value: &'a Json, key: &str) -> &'a Json {
    value.get(key).unwrap()
}

#[test]
fn test_pencil_adapter_matches() {
    let adapter = PencilAdapter;
    assert!(adapter.matches("mcp__pencil__create_shape"));
    assert!(adapter.matches("mcp__pencil__update_properties"));
    assert!(!adapter.matches("mcp__filesystem__read"));
}

#[test]
fn test_visual_properties_handling() {
    let adapter = PencilAdapter;
    let mut schema = object(vec![
        ("type", text("object")),
        (
            "properties",
            object(vec![
                ("cornerRadius", object(vec![("type", text("number"))])),
                ("color", object(vec![("type", text("string"))])),
            ]),
        ),
    ]);

    adapter.pre_process(&mut schema).unwrap();

    let described = member(member(member(&schema, "properties"), "cornerRadius"), "description");
    assert!(described.is_text());
    let desc = described.as_text().unwrap();
    assert!(desc.contains("Visual property"));
}

#[test]
fn test_path_parameter_optimization() {
    let adapter = PencilAdapter;
    let mut schema = object(vec![
        ("type", text("object")),
        (
            "properties",
            object(vec![(
                "filePath",
                object(vec![("type", text("string")), ("description", text("Path to the file"))]),
            )]),
        ),
    ]);

    adapter.pre_process(&mut schema).unwrap();

    let desc = member(member(member(&schema, "properties"), "filePath"), "description")
        .as_text()
        .unwrap();
    assert!(desc.contains("absolute path"));
}

#[test]
fn pencil_annotations_are_exact() {
    let adapter = PencilAdapter;
    let mut schema = object(vec![(
        "properties",
        object(vec![
            ("opacity", object(vec![("description", text("How opaque"))])),
            ("rotation", object(vec![("description", Json::Null)])),
            ("strokeWidth", text("not a schema")),
            ("filePath", object(vec![])),
            ("color", object(vec![])),
        ]),
    )]);
    adapter.pre_process(&mut schema).unwrap();
    let props = member(&schema, "properties");
    assert_eq!(
        member(member(props, "opacity"), "description").as_text(),
        Some("How opaque (visual property for UI elements)")
    );
    assert!(matches!(member(member(props, "rotation"), "description"), Json::Null));
    assert_eq!(member(props, "strokeWidth").as_text(), Some("not a schema"));
    assert_eq!(
        member(member(props, "filePath"), "description").as_text(),
        Some("File path (use absolute path)")
    );
    assert!(member(props, "color").get("description").is_none());
}

#[test]
fn pencil_leaves_other_values_alone() {
    let adapter = PencilAdapter;
    let mut schema = text("plain");
    adapter.pre_process(&mut schema).unwrap();
    assert_eq!(schema.as_text(), Some("plain"));
    let mut no_props = object(vec![("properties", text("x"))]);
    adapter.pre_process(&mut no_props).unwrap();
    assert_eq!(member(&no_props, "properties").as_text(), Some("x"));
}

#[test]
fn pencil_second_pass_changes_nothing() {
    let adapter = PencilAdapter;
    let mut schema = object(vec![(
        "properties",
        object(vec![
            ("cornerRadius", object(vec![("type", text("number"))])),
            ("opacity", object(vec![("description", text("How opaque"))])),
            ("filePath", object(vec![])),
            ("outputPath", object(vec![("description", text("Where to write"))])),
        ]),
    )]);
    assert_eq!(adapter.pre_process(&mut schema), Ok(()));
    let props = member(&schema, "properties");
    let once: Vec<String> = ["cornerRadius", "opacity", "filePath", "outputPath"]
        .iter()
        .map(|k| member(member(props, k), "description").as_text().unwrap().to_string())
        .collect();
    assert_eq!(
        once,
        vec![
            "Visual property for UI elements".to_string(),
            "How opaque (visual property for UI elements)".to_string(),
            "File path (use absolute path)".to_string(),
            "Where to write (use absolute path, e.g., /path/to/file.pen)".to_string(),
        ]
    );
    assert_eq!(adapter.pre_process(&mut schema), Ok(()));
    let props = member(&schema, "properties");
    let twice: Vec<String> = ["cornerRadius", "opacity", "filePath", "outputPath"]
        .iter()
        .map(|k| member(member(props, k), "description").as_text().unwrap().to_string())
        .collect();
    assert_eq!(twice, once);
}

#[test]
fn pencil_marker_is_found_in_any_case() {
    let adapter = PencilAdapter;
    let mut schema = object(vec![(
        "properties",
        object(vec![
            ("rotation", object(vec![("description", text("A VISUAL PROPERTY of the shape"))])),
            ("strokeWidth", object(vec![("description", text("visual  property"))])),
            ("file", object(vec![("description", text("An Absolute Path"))])),
        ]),
    )]);
    adapter.pre_process(&mut schema).unwrap();
    let props = member(&schema, "properties");
    assert_eq!(
        member(member(props, "rotation"), "description").as_text(),
        Some("A VISUAL PROPERTY of the shape")
    );
    assert_eq!(
        member(member(props, "strokeWidth"), "description").as_text(),
        Some("visual  property (visual property for UI elements)")
    );
    assert_eq!(member(member(props, "file"), "description").as_text(), Some("An Absolute Path"));
}
