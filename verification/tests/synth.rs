use albert::canonical::{CanonicalEndpoint, CanonicalResponse, SchemaNode};
use albert::json::{JsonNumber, JsonValue};
use albert::model::{HttpMethod, MockExampleKind, SchemaNodeType};
use albert::synth::{default_mock_examples, synthesize_examples, synthesize_value, synthesize_value_with_name, SynthMode};

fn schema_with_properties(props: Vec<(&str, SchemaNode, bool)>) -> SchemaNode {
    let mut node = SchemaNode::object();
    let mut props: Vec<(&str, SchemaNode, bool)> = props;
    props.sort_by(|a, b| a.0.cmp(b.0));
    for (name, mut child, required) in props {
        child.required = required;
        node.properties.push((name.to_string(), child));
    }
    node
}

fn response(status: &str, schema: SchemaNode) -> CanonicalResponse {
    CanonicalResponse {
        status_code: status.to_string(),
        description: None,
        content_type: "application/json".to_string(),
        schema: Some(schema),
    }
}

fn endpoint(responses: Vec<CanonicalResponse>) -> CanonicalEndpoint {
    CanonicalEndpoint {
        operation_id: None,
        method: HttpMethod::Get,
        path: "/x".to_string(),
        summary: None,
        description: None,
        tags: Vec::new(),
        parameters: Vec::new(),
        request_body: None,
        responses,
        examples: Vec::new(),
        auth: None,
    }
}

fn field<'a>(v: &'a JsonValue, key: &str) -> &'a JsonValue {
    match v {
        JsonValue::Object(m) => &m.iter().find(|(k, _)| k == key).unwrap().1,
        _ => panic!("not an object"),
    }
}

fn text(v: &JsonValue) -> &str {
    match v {
        JsonValue::String(t) => t.as_str(),
        _ => panic!("not a string"),
    }
}

fn integer_schema() -> SchemaNode {
    let mut n = SchemaNode::string();
    n.node_type = SchemaNodeType::Integer;
    n
}

#[test]
fn synthesizes_primitive_defaults() {
    let schema = schema_with_properties(vec![
        ("id", SchemaNode::string(), true),
        ("createdAt", SchemaNode::string(), true),
        ("email", SchemaNode::string(), false),
    ]);
    let value = synthesize_value(&schema);
    assert_eq!(text(field(&value, "id")), "00000000-0000-4000-8000-000000000000");
    assert_eq!(text(field(&value, "createdAt")), "2026-01-01T00:00:00Z");
    assert_eq!(text(field(&value, "email")), "user@example.com");
}

#[test]
fn synthesize_examples_uses_success_and_error() {
    let success = schema_with_properties(vec![("total", integer_schema(), true)]);
    let error = schema_with_properties(vec![("error", SchemaNode::string(), true)]);
    let endpoint = endpoint(vec![response("200", success), response("400", error)]);
    let examples = synthesize_examples(&endpoint);
    assert_eq!(examples.len(), 3);
    assert_eq!(examples[0].kind, MockExampleKind::Success);
    assert!(matches!(field(&examples[0].payload, "total"), JsonValue::Number(JsonNumber::PosInt(42))));
    assert_eq!(examples[1].kind, MockExampleKind::Empty);
    assert!(matches!(field(&examples[1].payload, "total"), JsonValue::Number(JsonNumber::PosInt(0))));
    assert_eq!(examples[2].kind, MockExampleKind::Error);
}

#[test]
fn array_schema_empties_when_empty_mode() {
    let schema = SchemaNode::array(SchemaNode::string());
    let empty = synthesize_value_with_name(&schema, None, SynthMode::Empty);
    assert!(matches!(empty, JsonValue::Array(ref v) if v.is_empty()));
    let rich = synthesize_value(&schema);
    assert!(matches!(rich, JsonValue::Array(ref v) if v.len() == 1));
}

#[test]
fn missing_schemas_fall_back_to_placeholders() {
    let examples = synthesize_examples(&endpoint(Vec::new()));
    assert!(matches!(field(&examples[0].payload, "success"), JsonValue::Bool(true)));
    assert!(matches!(field(&examples[1].payload, "data"), JsonValue::Array(v) if v.is_empty()));
    assert_eq!(text(field(field(&examples[2].payload, "error"), "code")), "bad_request");
    let defaults = default_mock_examples();
    assert_eq!(defaults.len(), 3);
    assert_eq!(text(field(field(&defaults[2].payload, "error"), "message")), "Mock error placeholder");
}

#[test]
fn string_samples_follow_the_property_name() {
    let schema = schema_with_properties(vec![
        ("homepage_url", SchemaNode::string(), false),
        ("display_name", SchemaNode::string(), false),
        ("phone", SchemaNode::string(), false),
        ("misc", SchemaNode::string(), false),
    ]);
    let v = synthesize_value(&schema);
    assert_eq!(text(field(&v, "homepage_url")), "https://example.com");
    assert_eq!(text(field(&v, "display_name")), "Ada Lovelace");
    assert_eq!(text(field(&v, "phone")), "+1-555-0100");
    assert_eq!(text(field(&v, "misc")), "sample");
    let bools = synthesize_value_with_name(&{
        let mut b = SchemaNode::string();
        b.node_type = SchemaNodeType::Boolean;
        b
    }, None, SynthMode::Error);
    assert!(matches!(bools, JsonValue::Bool(false)));
}
