use gateway_core::json::{find_field, lookup, Json};

fn text(s: &str) -> Json {
    Json::Text(s.to_string())
}

fn object(fields: Vec<(&str, Json)>) -> Json {
    Json::Object(fields.into_iter().map(|(k, v)| (k.to_string(), v)).collect())
}

#[test]
fn get_returns_the_first_field_of_a_name() {
    let doc = object(vec![("a", text("1")), ("b", text("2")), ("a", text("3"))]);
    assert_eq!(doc.get("a").and_then(|v| v.as_text()), Some("1"));
    assert_eq!(doc.get("b").and_then(|v| v.as_text()), Some("2"));
    assert!(doc.get("c").is_none());
    assert!(text("x").get("a").is_none());
    assert!(Json::Array(vec![]).get("a").is_none());
}

#[test]
fn find_field_gives_the_index_or_the_length() {
    let fields = vec![("a".to_string(), Json::Null), ("b".to_string(), Json::Bool(true))];
    assert_eq!(find_field(&fields, "a"), 0);
    assert_eq!(find_field(&fields, "b"), 1);
    assert_eq!(find_field(&fields, "c"), 2);
    assert!(lookup(&fields, "c").is_none());
    assert!(matches!(lookup(&fields, "b"), Some(Json::Bool(true))));
}

#[test]
fn as_text_is_for_strings_only() {
    assert_eq!(text("x").as_text(), Some("x"));
    assert_eq!(Json::Number("1".to_string()).as_text(), None);
    assert_eq!(Json::Null.as_text(), None);
    assert!(text("x").is_text());
    assert!(!Json::Null.is_text());
    assert!(object(vec![]).is_object());
    assert!(!text("x").is_object());
}

#[test]
fn duplicate_copies_the_whole_tree() {
    let doc = object(vec![
        ("n", Json::Number("1.5e3".to_string())),
        ("list", Json::Array(vec![Json::Null, Json::Bool(false), text("t")])),
        ("inner", object(vec![("k", text("v"))])),
    ]);
    let copy = doc.duplicate();
    assert_eq!(format!("{:?}", copy), format!("{:?}", doc));
}
