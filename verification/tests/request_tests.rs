use gateway_core::account::Credentials;
use gateway_core::json::Json;
use gateway_core::pencil::PencilAdapter;
use gateway_core::request::{
    endpoint_of, header_value, merge_model_lists, models_body, param_value, pointer_get,
    routing_fields, sanitize_tool, sanitize_tools, session_id_of, set_model, upstream_headers,
    Endpoint, WireProtocol,
};
use gateway_core::sanitizer::SchemaSanitizer;
use gateway_core::sticky::SessionKey;

fn text(s: &str) -> Json {
    Json::Text(s.to_string())
}

fn object(fields: Vec<(&str, Json)>) -> Json {
    Json::Object(fields.into_iter().map(|(k, v)| (k.to_string(), v)).collect())
}

fn pairs(items: &[(&str, &str)]) -> Vec<(String, String)> {
    items.iter().map(|(k, v)| (k.to_string(), v.to_string())).collect()
}

fn show(j: &Json) -> String {
    format!("{:?}", j)
}

#[test]
fn endpoints_are_named_by_method_and_path() {
    assert_eq!(endpoint_of("POST", "/v1/messages"), Some(Endpoint::Messages));
    assert_eq!(endpoint_of("POST", "/v1/chat/completions"), Some(Endpoint::ChatCompletions));
    assert_eq!(endpoint_of("GET", "/v1/models"), Some(Endpoint::Models));
    assert_eq!(endpoint_of("GET", "/health"), Some(Endpoint::Health));
    assert_eq!(endpoint_of("GET", "/v1/messages"), None);
    assert_eq!(endpoint_of("POST", "/health"), None);
    assert_eq!(endpoint_of("post", "/v1/messages"), None);
    assert_eq!(endpoint_of("POST", "/v1/messages/"), None);
    assert_eq!(endpoint_of("", ""), None);
}

#[test]
fn dispatched_endpoints_have_a_protocol() {
    assert_eq!(Endpoint::Messages.protocol(), Some(WireProtocol::Anthropic));
    assert_eq!(Endpoint::ChatCompletions.protocol(), Some(WireProtocol::OpenAiCompatible));
    assert_eq!(Endpoint::Models.protocol(), None);
    assert_eq!(Endpoint::Health.protocol(), None);
}

#[test]
fn header_names_ignore_case() {
    let headers = pairs(&[("Accept", "a"), ("X-Session-Id", "one"), ("x-session-id", "two")]);
    assert_eq!(header_value(&headers, "x-session-id"), Some("one"));
    assert_eq!(header_value(&headers, "ACCEPT"), Some("a"));
    assert_eq!(header_value(&headers, "host"), None);
    assert_eq!(header_value(&Vec::new(), "a"), None);
}

#[test]
fn query_names_are_exact() {
    let query = pairs(&[("Session", "x"), ("session", "one"), ("session", "two")]);
    assert_eq!(param_value(&query, "session"), Some("one"));
    assert_eq!(param_value(&query, "SESSION"), None);
}

#[test]
fn pointer_walks_objects_and_arrays() {
    let doc = object(vec![
        ("metadata", object(vec![("session_id", text("s-1")), ("a/b", text("slash")), ("m~n", text("tilde"))])),
        ("list", Json::Array(vec![text("zero"), object(vec![("k", text("one"))])])),
        ("", text("empty key")),
    ]);
    assert_eq!(show(pointer_get(&doc, "").unwrap()), show(&doc));
    assert_eq!(pointer_get(&doc, "/metadata/session_id").and_then(|v| v.as_text()), Some("s-1"));
    assert_eq!(pointer_get(&doc, "/metadata/a~1b").and_then(|v| v.as_text()), Some("slash"));
    assert_eq!(pointer_get(&doc, "/metadata/m~0n").and_then(|v| v.as_text()), Some("tilde"));
    assert_eq!(pointer_get(&doc, "/list/0").and_then(|v| v.as_text()), Some("zero"));
    assert_eq!(pointer_get(&doc, "/list/1/k").and_then(|v| v.as_text()), Some("one"));
    assert_eq!(pointer_get(&doc, "/").and_then(|v| v.as_text()), Some("empty key"));
    assert!(pointer_get(&doc, "/list/2").is_none());
    assert!(pointer_get(&doc, "/list/01").is_none());
    assert!(pointer_get(&doc, "/list/-").is_none());
    assert!(pointer_get(&doc, "/list/").is_none());
    assert!(pointer_get(&doc, "/list/99999999999999999999999999").is_none());
    assert!(pointer_get(&doc, "metadata").is_none());
    assert!(pointer_get(&doc, "/metadata/session_id/x").is_none());
    assert!(pointer_get(&doc, "/missing").is_none());
    assert!(pointer_get(&doc, "/metadata/").is_none());
}

#[test]
fn session_id_is_read_where_the_key_says() {
    let headers = pairs(&[("X-Session-Id", "from-header")]);
    let query = pairs(&[("sid", "from-query")]);
    let body = object(vec![("metadata", object(vec![("session_id", text("from-body"))]))]);
    let get = |key: SessionKey| session_id_of(&key, &headers, &query, &body);
    assert_eq!(get(SessionKey::Header("x-session-id".to_string())).as_deref(), Some("from-header"));
    assert_eq!(get(SessionKey::QueryParam("sid".to_string())).as_deref(), Some("from-query"));
    assert_eq!(get(SessionKey::BodyField("/metadata/session_id".to_string())).as_deref(), Some("from-body"));
    assert_eq!(get(SessionKey::Header("other".to_string())), None);
    assert_eq!(get(SessionKey::QueryParam("SID".to_string())), None);
    assert_eq!(get(SessionKey::BodyField("/metadata".to_string())), None);
    assert_eq!(get(SessionKey::BodyField("/metadata/user".to_string())), None);
}

#[test]
fn routing_fields_are_read_from_the_body() {
    let body = object(vec![
        ("model", text("asked")),
        ("metadata", object(vec![("session_id", text("s-1"))])),
        ("tools", Json::Array(vec![object(vec![]), object(vec![])])),
        ("stream", Json::Bool(true)),
        ("messages", Json::Array(vec![])),
    ]);
    let f = routing_fields(&body);
    assert_eq!(f.model.as_deref(), Some("asked"));
    assert_eq!(f.session_id.as_deref(), Some("s-1"));
    assert_eq!(f.tool_count, 2);
    assert!(f.stream);
    let bare = routing_fields(&object(vec![("model", Json::Number("1".to_string())), ("stream", text("true"))]));
    assert_eq!(bare.model, None);
    assert_eq!(bare.session_id, None);
    assert_eq!(bare.tool_count, 0);
    assert!(!bare.stream);
    assert_eq!(routing_fields(&Json::Null).model, None);
    assert!(!routing_fields(&object(vec![("stream", Json::Bool(false))])).stream);
}

#[test]
fn set_model_rewrites_or_adds() {
    let mut body = object(vec![("model", text("asked")), ("stream", Json::Bool(true))]);
    set_model(&mut body, "served");
    assert_eq!(show(&body), show(&object(vec![("model", text("served")), ("stream", Json::Bool(true))])));
    let mut body = object(vec![("stream", Json::Bool(true))]);
    set_model(&mut body, "served");
    assert_eq!(show(&body), show(&object(vec![("stream", Json::Bool(true)), ("model", text("served"))])));
    let mut other = text("x");
    set_model(&mut other, "served");
    assert_eq!(show(&other), show(&text("x")));
}

#[test]
fn upstream_headers_keep_only_the_listed_ones() {
    let client = pairs(&[
        ("Content-Type", "application/json"),
        ("Authorization", "Bearer of-the-client"),
        ("Connection", "keep-alive"),
        ("anthropic-version", "2023-06-01"),
        ("Host", "127.0.0.1:8045"),
        ("Accept", "text/event-stream"),
        ("x-api-key", "client-key"),
    ]);
    let oauth = Credentials::OAuth {
        access_token: "at".to_string(),
        refresh_token: "rt".to_string(),
        expiry_unix: 0,
    };
    let out = upstream_headers(&client, &oauth, "upstream.example");
    assert_eq!(
        out,
        pairs(&[
            ("Content-Type", "application/json"),
            ("anthropic-version", "2023-06-01"),
            ("Accept", "text/event-stream"),
            ("authorization", "Bearer at"),
            ("host", "upstream.example"),
        ])
    );
    let key = Credentials::ApiKey("secret".to_string());
    let out = upstream_headers(&Vec::new(), &key, "api.z.ai");
    assert_eq!(out, pairs(&[("x-api-key", "secret"), ("host", "api.z.ai")]));
}

#[test]
fn model_lists_are_merged_sorted_and_deduped() {
    let lists = vec![
        vec!["m2".to_string(), "m1".to_string()],
        vec![],
        vec!["m3".to_string(), "m1".to_string(), "a".to_string()],
    ];
    assert_eq!(merge_model_lists(&lists), vec!["a", "m1", "m2", "m3"]);
    assert!(merge_model_lists(&Vec::new()).is_empty());
}

#[test]
fn models_body_lists_the_ids() {
    let body = models_body(&vec!["a".to_string(), "b".to_string()]);
    let expected = object(vec![(
        "data",
        Json::Array(vec![object(vec![("id", text("a"))]), object(vec![("id", text("b"))])]),
    )]);
    assert_eq!(show(&body), show(&expected));
    assert_eq!(show(&models_body(&Vec::new())), show(&object(vec![("data", Json::Array(vec![]))])));
}

fn sanitizer() -> SchemaSanitizer<PencilAdapter> {
    let mut s = SchemaSanitizer::new();
    s.register(PencilAdapter);
    s
}

#[test]
fn tool_schema_is_sanitized_for_its_name() {
    let s = sanitizer();
    let mut tool = object(vec![
        ("name", text("mcp__pencil__open")),
        ("description", text("Opens a file")),
        (
            "input_schema",
            object(vec![
                ("$schema", text("x")),
                ("properties", object(vec![("filePath", object(vec![]))])),
            ]),
        ),
    ]);
    sanitize_tool(&s, &mut tool).unwrap();
    let expected = object(vec![
        ("name", text("mcp__pencil__open")),
        ("description", text("Opens a file")),
        (
            "input_schema",
            object(vec![(
                "properties",
                object(vec![("filePath", object(vec![("description", text("File path (use absolute path)"))]))]),
            )]),
        ),
    ]);
    assert_eq!(show(&tool), show(&expected));
}

#[test]
fn tools_without_name_or_schema_stay() {
    let s = sanitizer();
    for tool in [
        object(vec![("input_schema", object(vec![("$ref", text("x"))]))]),
        object(vec![("name", text("t"))]),
        object(vec![("name", Json::Null), ("input_schema", object(vec![("$ref", text("x"))]))]),
        text("not a tool"),
    ] {
        let mut t = tool.duplicate();
        sanitize_tool(&s, &mut t).unwrap();
        assert_eq!(show(&t), show(&tool));
    }
}

#[test]
fn every_tool_of_a_request_is_sanitized() {
    let s = sanitizer();
    let mut tools = vec![
        object(vec![("name", text("a")), ("input_schema", object(vec![("$ref", text("x"))]))]),
        object(vec![("name", text("b")), ("input_schema", object(vec![("x-b", text("x")), ("type", text("object"))]))]),
    ];
    sanitize_tools(&s, &mut tools).unwrap();
    assert_eq!(show(&tools[0]), show(&object(vec![("name", text("a")), ("input_schema", object(vec![]))])));
    assert_eq!(
        show(&tools[1]),
        show(&object(vec![("name", text("b")), ("input_schema", object(vec![("type", text("object"))]))]))
    );
}
