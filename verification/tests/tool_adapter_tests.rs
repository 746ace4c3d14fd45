use gateway_core::json::Json;
use gateway_core::tool_adapter::{append_hint_to_schema, ToolAdapter};

struct TestAdapter;

impl ToolAdapter for TestAdapter {
    fn matches(&self, tool_name: &str) -> bool {
        tool_name.starts_with("test__")
    }

    fn pre_process(&self, schema: &mut Json) -> Result<(), String> {
        append_hint_to_schema(schema, "[Test Adapter]");
        Ok(())
    }

    fn post_process(&self, _schema: &mut Json) -> Result<(), String> {
        Ok(())
    }
}

fn description(schema: &Json) -> String {
    schema.get("description").and_then(|d| d.as_text()).unwrap().to_string()
}

#[test]
fn test_adapter_matches() {
    let adapter = TestAdapter;
    assert!(adapter.matches("test__function"));
    assert!(!adapter.matches("other__function"));
}

#[test]
fn test_append_hint() {
    let mut schema = Json::Object(vec![("type".to_string(), Json::Text("string".to_string()))]);
    append_hint_to_schema(&mut schema, "Test hint");
    assert_eq!(description(&schema), "Test hint");

    append_hint_to_schema(&mut schema, "Another hint");
    assert_eq!(description(&schema), "Test hint Another hint");
}

#[test]
fn adapter_pre_process_adds_its_hint() {
    let adapter = TestAdapter;
    let mut schema = Json::Object(vec![]);
    adapter.pre_process(&mut schema).unwrap();
    assert_eq!(description(&schema), "[Test Adapter]");
}
