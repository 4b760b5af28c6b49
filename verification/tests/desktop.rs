use albert::canonical::{CanonicalApiCollection, CanonicalEndpoint, CanonicalParameter, CanonicalRequestBody, CanonicalResponse, SchemaNode};
use albert::desktop::diff::{diff_collections, ImportDiffSummary};
use albert::desktop::{
    connection_result, default_database_url, hand_edited_example, normalize_max_output_tokens,
    normalize_schema_repair_attempts, probe_endpoint, provider_env_status, supported_http_methods,
    synthesize_request_body, trim_optional, validate_mock_payload, ValidateMockPayloadArgs,
};
use albert::json::{JsonNumber, JsonValue};
use albert::model::{AuthRequirement, AuthScheme, HttpMethod, InputSourceKind, MockExampleKind, ParameterLocation, SchemaNodeType};
use albert::openai::OpenAiError;
use albert::synth::default_mock_examples;

fn endpoint(method: HttpMethod, path: &str, summary: &str) -> CanonicalEndpoint {
    CanonicalEndpoint {
        operation_id: Some(format!("{}{}", method.as_str().to_lowercase(), path)),
        method,
        path: path.to_string(),
        summary: Some(summary.to_string()),
        description: None,
        tags: Vec::new(),
        parameters: Vec::new(),
        request_body: None,
        responses: vec![CanonicalResponse {
            status_code: "200".to_string(),
            description: Some("OK".to_string()),
            content_type: "application/json".to_string(),
            schema: Some(SchemaNode::object()),
        }],
        examples: default_mock_examples(),
        auth: None,
    }
}

fn collection(endpoints: Vec<CanonicalEndpoint>) -> CanonicalApiCollection {
    CanonicalApiCollection {
        id: "orders".to_string(),
        name: "Orders".to_string(),
        source: InputSourceKind::OpenApi,
        description: None,
        endpoints,
    }
}

#[test]
fn validate_mock_payload_uses_canonical_schema_validator() {
    let mut schema = SchemaNode::object();
    let mut id = SchemaNode::string();
    id.required = true;
    schema.properties.push(("id".to_string(), id));
    schema.allow_additional_properties = false;

    let result = validate_mock_payload(ValidateMockPayloadArgs {
        schema,
        payload: JsonValue::Object(vec![("extra".to_string(), JsonValue::Bool(true))]),
    });

    assert!(!result.valid);
    assert!(result.errors.iter().any(|error| error.contains("$.id: required property missing")));
    assert!(result.errors.iter().any(|error| error.contains("$.extra: additional property not allowed")));
}

#[test]
fn validate_mock_payload_accepts_matching_payloads() {
    let mut schema = SchemaNode::string();
    schema.node_type = SchemaNodeType::Integer;
    let result = validate_mock_payload(ValidateMockPayloadArgs {
        schema,
        payload: JsonValue::Number(JsonNumber::PosInt(42)),
    });
    assert!(result.valid);
    assert!(result.errors.is_empty());
}

#[test]
fn diff_collections_reports_endpoint_drift() {
    let previous = collection(vec![
        endpoint(HttpMethod::Get, "/orders", "List orders"),
        endpoint(HttpMethod::Get, "/orders/{id}", "Get order"),
        endpoint(HttpMethod::Delete, "/orders/{id}", "Delete order"),
    ]);
    let next = collection(vec![
        endpoint(HttpMethod::Get, "/orders", "List orders"),
        endpoint(HttpMethod::Get, "/orders/{id}", "Fetch order"),
        endpoint(HttpMethod::Post, "/orders", "Create order"),
    ]);

    let diff = diff_collections(&previous, &next);

    assert_eq!(diff.unchanged, 1);
    assert_eq!(diff.added.len(), 1);
    assert_eq!(diff.added[0].method, "POST");
    assert_eq!(diff.added[0].path, "/orders");
    assert_eq!(diff.changed.len(), 1);
    assert_eq!(diff.changed[0].method, "GET");
    assert_eq!(diff.changed[0].path, "/orders/{id}");
    assert_eq!(diff.changed[0].reasons, vec!["metadata changed"]);
    assert_eq!(diff.removed.len(), 1);
    assert_eq!(diff.removed[0].method, "DELETE");
    assert_eq!(diff.removed[0].path, "/orders/{id}");
}

#[test]
fn diff_collections_ignores_mock_example_changes() {
    let previous = collection(vec![endpoint(HttpMethod::Get, "/orders", "List orders")]);
    let mut next = collection(vec![endpoint(HttpMethod::Get, "/orders", "List orders")]);
    next.endpoints[0].examples[0].payload = JsonValue::Object(vec![("edited".to_string(), JsonValue::Bool(true))]);

    let diff = diff_collections(&previous, &next);

    assert_eq!(diff.unchanged, 1);
    assert!(diff.added.is_empty());
    assert!(diff.changed.is_empty());
    assert!(diff.removed.is_empty());
}

#[test]
fn diff_collections_explains_contract_change_reasons() {
    let previous_endpoint = endpoint(HttpMethod::Post, "/orders", "Create order");
    let mut next_endpoint = endpoint(HttpMethod::Post, "/orders", "Create order");
    next_endpoint.parameters.push(CanonicalParameter {
        name: "X-Trace-Id".to_string(),
        location: ParameterLocation::Header,
        description: None,
        required: false,
        schema: SchemaNode::string(),
    });
    next_endpoint.request_body = Some(CanonicalRequestBody {
        content_type: "application/json".to_string(),
        required: true,
        schema: SchemaNode::object(),
    });
    next_endpoint.responses[0].status_code = "201".to_string();
    next_endpoint.auth = Some(AuthRequirement {
        scheme: AuthScheme::HttpBearer,
        header_name: "Authorization".to_string(),
        value_prefix: Some("Bearer ".to_string()),
        description: None,
    });

    let diff = diff_collections(&collection(vec![previous_endpoint]), &collection(vec![next_endpoint]));

    assert_eq!(diff.changed.len(), 1);
    assert_eq!(
        diff.changed[0].reasons,
        vec!["parameters changed", "request body changed", "responses changed", "auth changed"]
    );
    assert_eq!(
        diff.changed[0].details,
        vec![
            "parameter added: header X-Trace-Id",
            "request body added: application/json (required)",
            "response added: 201 application/json",
            "response removed: 200 application/json",
            "auth requirement changed"
        ]
    );
}

#[test]
fn new_import_diff_marks_every_endpoint_added() {
    let collection = collection(vec![
        endpoint(HttpMethod::Get, "/orders", "List orders"),
        endpoint(HttpMethod::Post, "/orders", "Create order"),
    ]);
    let diff = ImportDiffSummary::for_new_import(&collection);
    assert_eq!(diff.added.len(), 2);
    assert_eq!(diff.added[0].method, "GET");
    assert_eq!(diff.added[1].method, "POST");
    assert_eq!(diff.unchanged, 0);
    assert!(diff.changed.is_empty());
    assert!(diff.removed.is_empty());
}

#[test]
fn diff_details_name_each_field() {
    let mut previous = endpoint(HttpMethod::Get, "/a", "Old");
    previous.tags = vec!["x".to_string(), "y".to_string()];
    let mut next = endpoint(HttpMethod::Get, "/a", "New");
    next.operation_id = None;
    next.responses[0].content_type = "text/plain".to_string();
    next.responses[0].description = None;
    let diff = diff_collections(&collection(vec![previous]), &collection(vec![next]));
    assert_eq!(diff.changed[0].reasons, vec!["metadata changed", "responses changed"]);
    assert_eq!(
        diff.changed[0].details,
        vec![
            "operationId changed: get/a -> -",
            "summary changed: Old -> New",
            "tags changed: x, y -> -",
            "response changed: 200 (content type application/json -> text/plain, description)"
        ]
    );
}

#[test]
fn later_duplicates_win_and_keys_are_ordered() {
    let previous = collection(vec![]);
    let next = collection(vec![
        endpoint(HttpMethod::Post, "/b", "first"),
        endpoint(HttpMethod::Get, "/b", "x"),
        endpoint(HttpMethod::Post, "/b", "second"),
    ]);
    let diff = diff_collections(&previous, &next);
    assert_eq!(diff.added.len(), 2);
    assert_eq!(diff.added[0].method, "GET");
    assert_eq!(diff.added[1].summary.as_deref(), Some("second"));
}

#[test]
fn desktop_defaults_and_settings() {
    assert_eq!(default_database_url(), "albert.db");
    assert_eq!(supported_http_methods(), vec!["GET", "POST", "PUT", "PATCH", "DELETE", "OPTIONS", "HEAD"]);
    assert_eq!(trim_optional(Some("  x ".to_string())), Some("x".to_string()));
    assert_eq!(trim_optional(Some("   ".to_string())), None);
    assert_eq!(normalize_max_output_tokens(Some(0)), None);
    assert_eq!(normalize_schema_repair_attempts(Some(9)), Some(5));
    assert_eq!(normalize_schema_repair_attempts(Some(3)), Some(3));
}

#[test]
fn key_status_messages() {
    let s = provider_env_status(" OPENAI_KEY ", None, Some("sk".to_string()));
    assert!(s.env_present && s.usable && !s.override_present);
    assert_eq!(s.env_var, "OPENAI_KEY");
    assert_eq!(s.message, "OPENAI_KEY is present in the Tauri backend environment.");
    let s = provider_env_status("OPENAI_KEY", Some("  "), Some(" ".to_string()));
    assert!(!s.usable);
    assert_eq!(s.message, "OPENAI_KEY is not set in the Tauri backend environment.");
    let s = provider_env_status("", Some("key"), None);
    assert!(s.usable && s.override_present);
    assert_eq!(s.message, "Session API key override is active.");
    let s = provider_env_status("", None, None);
    assert_eq!(s.message, "No API key environment variable is configured.");
}

#[test]
fn probe_results() {
    let ok = connection_result(&Ok(()));
    assert!(ok.ok);
    assert_eq!(ok.status, Some(200));
    let failed = connection_result(&Err(OpenAiError::Provider { status: 401, body: "nope".to_string() }));
    assert!(!failed.ok);
    assert_eq!(failed.message, "HTTP 401: nope");
    let missing = connection_result(&Err(OpenAiError::MissingContent));
    assert_eq!(missing.status, None);
    assert_eq!(missing.message, "provider response did not include an assistant message");
    assert_eq!(probe_endpoint().path, "/ping");
}

#[test]
fn request_body_samples_and_hand_edits() {
    let e = endpoint(HttpMethod::Get, "/a", "x");
    assert!(matches!(synthesize_request_body(&e), JsonValue::Null));
    let ex = hand_edited_example(MockExampleKind::Empty, None, JsonValue::Null, None);
    assert_eq!(ex.title, "Empty");
    assert_eq!(ex.note.as_deref(), Some("Hand-edited"));
}

#[test]
fn diff_from_empty_previous_adds_every_endpoint() {
    let previous = collection(Vec::new());
    let next = collection(vec![
        endpoint(HttpMethod::Post, "/orders", "Create order"),
        endpoint(HttpMethod::Get, "/orders", "List orders"),
    ]);
    let diff = diff_collections(&previous, &next);
    assert_eq!(diff.added.len(), 2);
    assert!(diff.removed.is_empty());
    assert!(diff.changed.is_empty());
    assert_eq!(diff.unchanged, 0);
    assert_eq!(diff.added[0].method, "GET");
    assert_eq!(diff.added[1].method, "POST");
}

#[test]
fn diff_with_itself_reports_nothing() {
    let c = collection(vec![
        endpoint(HttpMethod::Get, "/orders", "List orders"),
        endpoint(HttpMethod::Post, "/orders", "Create order"),
        endpoint(HttpMethod::Get, "/orders", "List orders again"),
    ]);
    let diff = diff_collections(&c, &c);
    assert!(diff.added.is_empty());
    assert!(diff.removed.is_empty());
    assert!(diff.changed.is_empty());
    assert_eq!(diff.unchanged, 2);
}

#[test]
fn diff_counts_add_up_on_both_sides() {
    let previous = collection(vec![
        endpoint(HttpMethod::Get, "/orders", "List orders"),
        endpoint(HttpMethod::Delete, "/orders/{id}", "Delete order"),
        endpoint(HttpMethod::Get, "/orders/{id}", "Get order"),
    ]);
    let next = collection(vec![
        endpoint(HttpMethod::Get, "/orders", "List orders"),
        endpoint(HttpMethod::Get, "/orders/{id}", "Fetch order"),
        endpoint(HttpMethod::Post, "/orders", "Create order"),
    ]);
    let diff = diff_collections(&previous, &next);
    assert_eq!(diff.added.len() + diff.changed.len() + diff.unchanged, 3);
    assert_eq!(diff.removed.len() + diff.changed.len() + diff.unchanged, 3);
    assert_eq!((diff.added.len(), diff.removed.len(), diff.changed.len(), diff.unchanged), (1, 1, 1, 1));
}
