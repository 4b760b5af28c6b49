use albert::canonical::{
    CanonicalApiCollection, CanonicalEndpoint, CanonicalParameter, CanonicalRequestBody, CanonicalResponse,
    MockExample, SchemaNode,
};
use albert::gateway::openapi::to_openapi_document;
use albert::json::JsonValue;
use albert::model::{HttpMethod, InputSourceKind, MockExampleKind, ParameterLocation, SchemaNodeType};

fn get<'a>(v: &'a JsonValue, key: &str) -> &'a JsonValue {
    match v {
        JsonValue::Object(m) => &m.iter().find(|(k, _)| k == key).unwrap_or_else(|| panic!("no key {key}")).1,
        _ => panic!("not an object at {key}"),
    }
}

fn has(v: &JsonValue, key: &str) -> bool {
    match v {
        JsonValue::Object(m) => m.iter().any(|(k, _)| k == key),
        _ => false,
    }
}

fn at(v: &JsonValue, i: usize) -> &JsonValue {
    match v {
        JsonValue::Array(items) => &items[i],
        _ => panic!("not an array"),
    }
}

fn text(v: &JsonValue) -> &str {
    match v {
        JsonValue::String(t) => t.as_str(),
        _ => panic!("not a string"),
    }
}

fn keys(v: &JsonValue) -> Vec<String> {
    match v {
        JsonValue::Object(m) => m.iter().map(|(k, _)| k.clone()).collect(),
        _ => panic!("not an object"),
    }
}

fn sample_collection() -> CanonicalApiCollection {
    CanonicalApiCollection {
        id: "orders".to_string(),
        name: "Orders API".to_string(),
        source: InputSourceKind::OpenApi,
        description: Some("Demo orders API".to_string()),
        endpoints: vec![CanonicalEndpoint {
            operation_id: Some("getOrder".to_string()),
            method: HttpMethod::Get,
            path: "/orders/{id}".to_string(),
            summary: Some("Fetch one order".to_string()),
            description: None,
            tags: vec!["orders".to_string()],
            parameters: vec![CanonicalParameter {
                name: "id".to_string(),
                location: ParameterLocation::Path,
                description: Some("Order id".to_string()),
                required: true,
                schema: SchemaNode::string(),
            }],
            request_body: None,
            responses: vec![CanonicalResponse {
                status_code: "200".to_string(),
                description: Some("OK".to_string()),
                content_type: "application/json".to_string(),
                schema: Some(SchemaNode::object()),
            }],
            examples: vec![MockExample {
                kind: MockExampleKind::Success,
                title: "Success".to_string(),
                payload: JsonValue::Object(vec![
                    ("id".to_string(), JsonValue::String("o-1".to_string())),
                    ("status".to_string(), JsonValue::String("paid".to_string())),
                ]),
                note: None,
            }],
            auth: None,
        }],
    }
}

#[test]
fn emits_openapi_3_0_shape() {
    let doc = to_openapi_document(&[sample_collection()], Some("http://127.0.0.1:4317"));
    assert_eq!(text(get(&doc, "openapi")), "3.0.3");
    assert_eq!(text(get(get(&doc, "info"), "title")), "Orders API");
    assert_eq!(text(get(at(get(&doc, "servers"), 0), "url")), "http://127.0.0.1:4317");
    let op = get(get(get(&doc, "paths"), "/orders/{id}"), "get");
    assert_eq!(text(get(op, "operationId")), "getOrder");
    assert_eq!(text(get(at(get(op, "parameters"), 0), "name")), "id");
    assert_eq!(text(get(at(get(op, "parameters"), 0), "in")), "path");
    assert_eq!(text(get(get(get(op, "responses"), "200"), "description")), "OK");
    let example = get(get(get(get(get(op, "responses"), "200"), "content"), "application/json"), "example");
    assert_eq!(text(get(example, "id")), "o-1");
}

#[test]
fn omits_servers_when_base_url_absent() {
    let doc = to_openapi_document(&[sample_collection()], None);
    assert!(!has(&doc, "servers"));
}

#[test]
fn request_body_round_trips_content_type_and_required() {
    let mut c = sample_collection();
    c.endpoints[0].method = HttpMethod::Post;
    c.endpoints[0].path = "/orders".to_string();
    c.endpoints[0].request_body = Some(CanonicalRequestBody {
        content_type: "application/json".to_string(),
        required: true,
        schema: SchemaNode::object(),
    });
    let doc = to_openapi_document(&[c], None);
    let body = get(get(get(get(&doc, "paths"), "/orders"), "post"), "requestBody");
    assert!(matches!(get(body, "required"), JsonValue::Bool(true)));
    assert!(matches!(get(get(get(body, "content"), "application/json"), "schema"), JsonValue::Object(_)));
}

#[test]
fn empty_responses_get_a_synthetic_200() {
    let mut c = sample_collection();
    c.endpoints[0].responses.clear();
    let doc = to_openapi_document(&[c], None);
    let responses = get(get(get(get(&doc, "paths"), "/orders/{id}"), "get"), "responses");
    assert!(matches!(get(get(responses, "200"), "description"), JsonValue::String(_)));
}

#[test]
fn nested_object_properties_translate_to_schemas() {
    let mut inner = SchemaNode::object();
    let mut amount = SchemaNode::string();
    amount.node_type = SchemaNodeType::Integer;
    amount.required = true;
    inner.properties.push(("amount".to_string(), amount));
    let mut c = sample_collection();
    c.endpoints[0].responses[0].schema = Some(inner);
    let doc = to_openapi_document(&[c], None);
    let schema = get(
        get(get(get(get(get(get(get(&doc, "paths"), "/orders/{id}"), "get"), "responses"), "200"), "content"), "application/json"),
        "schema",
    );
    assert_eq!(text(get(schema, "type")), "object");
    assert_eq!(text(get(get(get(schema, "properties"), "amount"), "type")), "integer");
    assert_eq!(text(at(get(schema, "required"), 0)), "amount");
}

#[test]
fn document_keys_are_ordered_and_tags_name_each_collection_once() {
    let mut second = sample_collection();
    second.endpoints[0].path = "/orders".to_string();
    second.description = None;
    let doc = to_openapi_document(&[sample_collection(), second], Some("http://x"));
    assert_eq!(keys(&doc), vec!["info", "openapi", "paths", "servers", "tags"]);
    assert_eq!(keys(get(&doc, "paths")), vec!["/orders", "/orders/{id}"]);
    let tags = get(&doc, "tags");
    assert_eq!(text(get(at(tags, 0), "name")), "Orders API");
    assert!(matches!(tags, JsonValue::Array(t) if t.len() == 1));
    assert_eq!(text(get(get(&doc, "info"), "description")), "Demo orders API");
    let op = get(get(get(&doc, "paths"), "/orders"), "get");
    assert_eq!(keys(op), vec!["operationId", "parameters", "responses", "summary", "tags"]);
    let op_tags = get(op, "tags");
    assert_eq!(text(at(op_tags, 0)), "orders");
    assert_eq!(text(at(op_tags, 1)), "Orders API");
}

#[test]
fn empty_document_uses_default_title_and_error_example_on_failures() {
    let doc = to_openapi_document(&[], None);
    assert_eq!(text(get(get(&doc, "info"), "title")), "Albert mock gateway");
    assert_eq!(text(get(get(&doc, "info"), "description")), "");

    let mut c = sample_collection();
    c.endpoints[0].responses[0].status_code = "404".to_string();
    c.endpoints[0].examples.push(MockExample {
        kind: MockExampleKind::Error,
        title: "Error".to_string(),
        payload: JsonValue::String("nope".to_string()),
        note: None,
    });
    let doc = to_openapi_document(&[c], None);
    let media = get(
        get(get(get(get(get(get(&doc, "paths"), "/orders/{id}"), "get"), "responses"), "404"), "content"),
        "application/json",
    );
    assert_eq!(text(get(media, "example")), "nope");
}
