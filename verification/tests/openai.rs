use albert::openai::generate::request_credentials;
use albert::model::MockExampleKind;
use albert::openai::{non_empty, non_empty_or_model, strip_code_fence, truncate, GenerationIntent, OpenAiError};

#[test]
fn strip_code_fence_handles_markdown_blocks() {
    let input = "```json\n{\"a\": 1}\n```";
    assert_eq!(strip_code_fence(input), "{\"a\": 1}");
}

#[test]
fn strip_code_fence_leaves_plain_text_trimmed() {
    assert_eq!(strip_code_fence("  {\"a\": 2}\n"), "{\"a\": 2}");
    assert_eq!(strip_code_fence("```{\"b\": 3}``````"), "{\"b\": 3}");
}

#[test]
fn truncate_respects_char_boundaries() {
    assert_eq!(truncate("hello", 10), "hello");
    assert_eq!(truncate("hello", 3), "hel…");
    assert_eq!(truncate("héllo", 2), "h…");
    assert_eq!(truncate("héllo", 3), "hé…");
}

#[test]
fn intents_map_to_kinds_titles_and_labels() {
    assert_eq!(GenerationIntent::Success.kind(), MockExampleKind::Success);
    assert_eq!(GenerationIntent::Empty.title(), "AI Empty");
    assert_eq!(GenerationIntent::Error.intent_label(), "error");
}

#[test]
fn non_empty_settings_are_trimmed_or_rejected() {
    assert_eq!(non_empty(Some("  v1  "), "missing").unwrap(), "v1");
    assert_eq!(non_empty(Some("   "), "missing").unwrap_err(), OpenAiError::Config("missing"));
    assert_eq!(non_empty(None, "missing").unwrap_err(), OpenAiError::Config("missing"));
    assert_eq!(non_empty_or_model(None, " gpt ").unwrap(), "gpt");
    assert_eq!(non_empty_or_model(Some("dep"), "gpt").unwrap(), "dep");
    assert!(non_empty_or_model(Some(""), "  ").is_err());
}

#[test]
fn openai_error_messages() {
    assert_eq!(
        OpenAiError::MissingApiKey("OPENAI_API_KEY".to_string()).message(),
        "OpenAI API key environment variable `OPENAI_API_KEY` is not set"
    );
    assert_eq!(
        OpenAiError::Provider { status: 503, body: "busy".to_string() }.message(),
        "provider returned HTTP 503: busy"
    );
}

// ---------------------------------------------------------------------
// Hints, prompts, reply reading and the repair decisions.

use albert::canonical::{CanonicalEndpoint, CanonicalResponse, SchemaNode};
use albert::json::{JsonNumber, JsonValue};
use albert::model::{HttpMethod, ProviderApiType, SchemaNodeType};
use albert::openai::generate::{
    after_first_reply, after_repair_reply, build_prompt_bundle, build_repair_bundle, extract_chat_completions_content,
    extract_responses_content, parse_json_content, parse_response_payload, pick_validation_schema, preview_prompt,
    provider_max_output_tokens, provider_schema_repair_attempts, provider_target, GenerationStep, ProviderResponseApi,
};
use albert::openai::hint::{parameter_hints, response_hints, schema_hint};

fn jstr(v: &str) -> JsonValue {
    JsonValue::String(v.to_string())
}

fn jint(n: u64) -> JsonValue {
    JsonValue::Number(JsonNumber::PosInt(n))
}

fn jobj(entries: Vec<(&str, JsonValue)>) -> JsonValue {
    let mut e: Vec<(String, JsonValue)> = entries.into_iter().map(|(k, v)| (k.to_string(), v)).collect();
    e.sort_by(|a, b| a.0.cmp(&b.0));
    JsonValue::Object(e)
}

fn get<'a>(v: &'a JsonValue, key: &str) -> &'a JsonValue {
    match v {
        JsonValue::Object(m) => &m.iter().find(|(k, _)| k == key).unwrap_or_else(|| panic!("no key {key}")).1,
        _ => panic!("not an object"),
    }
}

fn at(v: &JsonValue, i: usize) -> &JsonValue {
    match v {
        JsonValue::Array(xs) => &xs[i],
        _ => panic!("not an array"),
    }
}

fn is_str(v: &JsonValue, s: &str) -> bool {
    matches!(v, JsonValue::String(t) if t == s)
}

fn is_int(v: &JsonValue, n: u64) -> bool {
    matches!(v, JsonValue::Number(JsonNumber::PosInt(m)) if *m == n)
}

fn is_bool(v: &JsonValue, b: bool) -> bool {
    matches!(v, JsonValue::Bool(x) if *x == b)
}

fn typed(t: SchemaNodeType) -> SchemaNode {
    let mut n = SchemaNode::string();
    n.node_type = t;
    n
}

fn endpoint() -> CanonicalEndpoint {
    let mut name = SchemaNode::string();
    name.required = true;
    name.example = Some(jstr("Ada"));
    let mut schema = SchemaNode::object();
    schema.required = true;
    schema.properties.push(("name".to_string(), name));
    CanonicalEndpoint {
        operation_id: Some("createUser".into()),
        method: HttpMethod::Post,
        path: "/users".into(),
        summary: Some("Create a user".into()),
        description: None,
        tags: vec!["users".into()],
        parameters: Vec::new(),
        request_body: None,
        responses: vec![CanonicalResponse {
            status_code: "201".into(),
            description: Some("Created".into()),
            content_type: "application/json".into(),
            schema: Some(schema),
        }],
        examples: Vec::new(),
        auth: None,
    }
}

#[test]
fn builds_prompt_bundle_for_success() {
    let bundle = preview_prompt(&endpoint(), GenerationIntent::Success);
    assert!(bundle.system.to_lowercase().contains("mock"));
    assert!(bundle.user.contains("/users"));
    assert!(bundle.user.contains("success"));
}

#[test]
fn builds_prompt_bundle_for_error() {
    let bundle = preview_prompt(&endpoint(), GenerationIntent::Error);
    assert!(bundle.user.contains("error"));
}

#[test]
fn prompt_context_is_indented_json() {
    let bundle = build_prompt_bundle(&endpoint(), GenerationIntent::Empty);
    assert!(bundle.user.starts_with("Endpoint context (JSON):\n{\n  \"description\": null,\n  \"method\": \"POST\",\n"));
    assert!(bundle.user.contains("\n  \"tags\": [\n    \"users\"\n  ]\n}\n\nMock type: empty\nInstruction: "));
    assert!(bundle.user.ends_with("\n\nRespond with a single JSON object only."));
    assert!(is_str(get(&bundle.endpoint_context, "path"), "/users"));
}

#[test]
fn parse_response_payload_wraps_kind() {
    let v = jobj(vec![("data", jobj(vec![("id", jint(1))]))]);
    let example = parse_response_payload(&v, GenerationIntent::Success, None).unwrap();
    assert_eq!(example.kind, MockExampleKind::Success);
    assert!(is_int(get(get(&example.payload, "data"), "id"), 1));
    assert_eq!(example.note.as_deref(), Some("Generated by OpenAI adapter (success)"));
    let noted = parse_response_payload(&v, GenerationIntent::Error, Some("kept".to_string())).unwrap();
    assert_eq!(noted.title, "AI Error");
    assert_eq!(noted.note.as_deref(), Some("Generated by OpenAI adapter (error). kept"));
}

#[test]
fn schema_hint_emits_required_list() {
    let mut a = SchemaNode::string();
    a.required = true;
    let mut schema = SchemaNode::object();
    schema.properties.push(("a".to_string(), a));
    let hint = schema_hint(&schema);
    assert!(is_str(get(&hint, "type"), "object"));
    assert!(is_str(at(get(&hint, "required"), 0), "a"));
}

#[test]
fn schema_hint_emits_object_property_count_constraints() {
    let mut schema = SchemaNode::object();
    schema.min_properties = Some(1);
    schema.max_properties = Some(3);
    let hint = schema_hint(&schema);
    assert!(is_int(get(&hint, "minProperties"), 1));
    assert!(is_int(get(&hint, "maxProperties"), 3));
}

#[test]
fn schema_hint_emits_validation_constraints() {
    let mut schema = SchemaNode::string();
    schema.format = Some("email".to_string());
    schema.pattern = Some("^.+@example\\.com$".to_string());
    schema.min_length = Some(6);
    schema.max_length = Some(120);

    let hint = schema_hint(&schema);
    assert!(is_str(get(&hint, "format"), "email"));
    assert!(is_str(get(&hint, "pattern"), "^.+@example\\.com$"));
    assert!(is_int(get(&hint, "minLength"), 6));
    assert!(is_int(get(&hint, "maxLength"), 120));

    let mut array = SchemaNode::array(schema);
    array.min_items = Some(1);
    array.max_items = Some(3);
    array.unique_items = true;
    array.contains = Some(Box::new(typed(SchemaNodeType::Integer)));
    array.min_contains = Some(1);
    array.max_contains = Some(1);
    let mut prefix_status = SchemaNode::string();
    prefix_status.enum_values = vec![jstr("status")];
    array.prefix_items = vec![prefix_status, typed(SchemaNodeType::Integer)];
    array.allow_unevaluated_items = false;
    let hint = schema_hint(&array);
    assert!(is_int(get(&hint, "minItems"), 1));
    assert!(is_int(get(&hint, "maxItems"), 3));
    assert!(is_bool(get(&hint, "uniqueItems"), true));
    assert!(is_str(get(get(&hint, "items"), "format"), "email"));
    assert!(is_str(at(get(at(get(&hint, "prefixItems"), 0), "enum"), 0), "status"));
    assert!(is_str(get(at(get(&hint, "prefixItems"), 1), "type"), "integer"));
    assert!(is_bool(get(&hint, "unevaluatedItems"), false));
    assert!(is_str(get(get(&hint, "contains"), "type"), "integer"));
    assert!(is_int(get(&hint, "minContains"), 1));
    assert!(is_int(get(&hint, "maxContains"), 1));

    let blocked = SchemaNode::bool_schema(false);
    assert!(is_bool(&schema_hint(&blocked), false));

    let mut number = typed(SchemaNodeType::Number);
    number.multiple_of = Some(JsonNumber::Float("0.5".to_string()));
    let hint = schema_hint(&number);
    assert!(matches!(get(&hint, "multipleOf"), JsonValue::Number(JsonNumber::Float(t)) if t == "0.5"));
}

#[test]
fn schema_hint_emits_additional_properties() {
    let mut closed = SchemaNode::object();
    closed.allow_additional_properties = false;
    closed.allow_unevaluated_properties = false;
    let hint = schema_hint(&closed);
    assert!(is_bool(get(&hint, "additionalProperties"), false));
    assert!(is_bool(get(&hint, "unevaluatedProperties"), false));

    let mut typed_obj = SchemaNode::object();
    typed_obj.additional_properties = Some(Box::new(typed(SchemaNodeType::Integer)));
    typed_obj.dependent_required.push(("credit_card".to_string(), vec!["billing_address".to_string()]));
    typed_obj.dependent_schemas.push(("credit_card".to_string(), SchemaNode::object()));
    let mut if_schema = SchemaNode::object();
    if_schema.properties.push(("kind".to_string(), SchemaNode::string()));
    typed_obj.if_schema = Some(Box::new(if_schema));
    typed_obj.then_schema = Some(Box::new(SchemaNode::object()));
    typed_obj.else_schema = Some(Box::new(SchemaNode::object()));
    let hint = schema_hint(&typed_obj);
    assert!(is_str(get(get(&hint, "additionalProperties"), "type"), "integer"));
    assert!(is_str(at(get(get(&hint, "dependentRequired"), "credit_card"), 0), "billing_address"));
    assert!(is_str(get(get(get(&hint, "dependentSchemas"), "credit_card"), "type"), "object"));
    assert!(is_str(get(get(&hint, "if"), "type"), "object"));
    assert!(is_str(get(get(&hint, "then"), "type"), "object"));
    assert!(is_str(get(get(&hint, "else"), "type"), "object"));
}

#[test]
fn hint_keys_come_in_key_order() {
    let mut schema = SchemaNode::string();
    schema.nullable = true;
    schema.max_length = Some(9);
    schema.min_length = Some(1);
    let hint = schema_hint(&schema);
    match &hint {
        JsonValue::Object(m) => {
            let keys: Vec<&str> = m.iter().map(|(k, _)| k.as_str()).collect();
            assert_eq!(keys, vec!["maxLength", "minLength", "nullable", "type"]);
        },
        _ => panic!("hint is an object"),
    }
}

#[test]
fn parameter_and_response_hints_describe_each_entry() {
    let e = endpoint();
    let hints = response_hints(&e.responses);
    assert_eq!(hints.len(), 1);
    assert!(is_str(get(&hints[0], "status_code"), "201"));
    assert!(is_str(get(&hints[0], "description"), "Created"));
    assert!(is_str(get(get(&hints[0], "schema"), "type"), "object"));
    let params = vec![albert::canonical::CanonicalParameter {
        name: "id".into(),
        location: albert::model::ParameterLocation::Path,
        description: None,
        required: true,
        schema: SchemaNode::string(),
    }];
    let hints = parameter_hints(&params);
    assert!(is_str(get(&hints[0], "in"), "path"));
    assert!(matches!(get(&hints[0], "description"), JsonValue::Null));
    assert!(is_bool(get(&hints[0], "required"), true));
}

#[test]
fn reads_chat_and_responses_replies() {
    let chat = jobj(vec![(
        "choices",
        JsonValue::Array(vec![jobj(vec![("message", jobj(vec![("content", jstr("{\"a\":1}"))]))])]),
    )]);
    assert_eq!(extract_chat_completions_content(&chat).unwrap(), "{\"a\":1}");
    assert_eq!(extract_chat_completions_content(&jobj(vec![])).unwrap_err(), OpenAiError::MissingContent);

    let direct = jobj(vec![("output_text", jstr("{}"))]);
    assert_eq!(extract_responses_content(&direct).unwrap(), "{}");
    let nested = jobj(vec![(
        "output",
        JsonValue::Array(vec![
            jobj(vec![("content", jstr("not a list"))]),
            jobj(vec![(
                "content",
                JsonValue::Array(vec![
                    jobj(vec![("type", jstr("refusal")), ("text", jstr("no"))]),
                    jobj(vec![("type", jstr("output_text")), ("text", jstr("{\"b\":2}"))]),
                ]),
            )]),
        ]),
    )]);
    assert_eq!(extract_responses_content(&nested).unwrap(), "{\"b\":2}");
    assert_eq!(extract_responses_content(&jobj(vec![("output", JsonValue::Array(vec![]))])).unwrap_err(), OpenAiError::MissingContent);
}

#[test]
fn parses_model_json_out_of_fences() {
    let v = parse_json_content("  ```json\n{\"a\": 1}\n```  ").unwrap();
    assert!(is_int(get(&v, "a"), 1));
    match parse_json_content("not json") {
        Err(OpenAiError::Decode(m)) => assert!(m.starts_with("model content not valid JSON: ")),
        other => panic!("unexpected: {other:?}"),
    }
}

#[test]
fn picks_the_first_wanted_response_schema() {
    let mut e = endpoint();
    e.responses.push(CanonicalResponse {
        status_code: "422".into(),
        description: None,
        content_type: "application/json".into(),
        schema: Some(typed(SchemaNodeType::String)),
    });
    assert!(matches!(pick_validation_schema(&e, GenerationIntent::Success), Some(s) if s.node_type == SchemaNodeType::Object));
    assert!(matches!(pick_validation_schema(&e, GenerationIntent::Error), Some(s) if s.node_type == SchemaNodeType::String));
    e.responses.clear();
    assert!(pick_validation_schema(&e, GenerationIntent::Empty).is_none());
}

#[test]
fn provider_settings_and_targets() {
    assert_eq!(provider_max_output_tokens(Some(0)), None);
    assert_eq!(provider_max_output_tokens(Some(64)), Some(64));
    assert_eq!(provider_schema_repair_attempts(None), 2);
    assert_eq!(provider_schema_repair_attempts(Some(9)), 5);
    assert_eq!(provider_schema_repair_attempts(Some(0)), 0);

    let t = provider_target(ProviderApiType::OpenAiCompatible, "https://api.example.com/v1/", "gpt", None, None).unwrap();
    assert_eq!(t.url, "https://api.example.com/v1/chat/completions");
    assert!(!t.api_key_header);
    assert_eq!(t.body_model.as_deref(), Some("gpt"));
    let t = provider_target(ProviderApiType::OpenAiResponses, "https://api.example.com", "gpt", None, None).unwrap();
    assert_eq!(t.url, "https://api.example.com/v1/responses");
    assert_eq!(t.response_api, ProviderResponseApi::Responses);
    let t = provider_target(ProviderApiType::AzureOpenAi, "https://az.example.com/", "gpt", Some(" dep "), Some("2024-06-01")).unwrap();
    assert_eq!(t.url, "https://az.example.com/openai/deployments/dep/chat/completions?api-version=2024-06-01");
    assert!(t.api_key_header);
    assert!(t.body_model.is_none());
    let err = provider_target(ProviderApiType::AzureOpenAi, "https://az.example.com", "gpt", None, None).unwrap_err();
    assert_eq!(err, OpenAiError::Config("Azure OpenAI API version is required for azure_openai providers"));
    let err = provider_target(ProviderApiType::AzureOpenAiResponses, "https://az.example.com", " ", None, None).unwrap_err();
    assert_eq!(err, OpenAiError::Config("Azure OpenAI deployment is required; set deployment or model"));
}

#[test]
fn repair_steps_follow_validation() {
    let e = endpoint();
    let bundle = build_prompt_bundle(&e, GenerationIntent::Success);
    let schema = pick_validation_schema(&e, GenerationIntent::Success);
    let bad = jobj(vec![("nick", jstr("x"))]);
    let good = jobj(vec![("name", jstr("Grace"))]);

    match after_first_reply(&schema, &bundle, GenerationIntent::Success, 2, &good) {
        GenerationStep::Finish(ex) => assert_eq!(ex.note.as_deref(), Some("Generated by OpenAI adapter (success)")),
        _ => panic!("a passing reply is kept"),
    }
    match after_first_reply(&schema, &bundle, GenerationIntent::Success, 0, &bad) {
        GenerationStep::Finish(ex) => assert_eq!(
            ex.note.as_deref(),
            Some("Generated by OpenAI adapter (success). Schema validation failed and repair retries are disabled: $.name: required property missing")
        ),
        _ => panic!("repairs are off"),
    }
    let step = after_first_reply(&schema, &bundle, GenerationIntent::Success, 2, &bad);
    match &step {
        GenerationStep::Retry { bundle: b, .. } => {
            assert!(b.user.starts_with(&bundle.user));
            assert!(b.user.contains("failed schema validation:\n- $.name: required property missing\n\nReturn a new JSON object"));
        },
        _ => panic!("a failing reply is repaired"),
    }
    let schema = schema.unwrap();
    match after_repair_reply(&schema, &bundle, GenerationIntent::Success, 2, 1, &bad, &Ok(good)) {
        GenerationStep::Finish(ex) => assert!(ex.note.unwrap().ends_with("Repaired after 1 validation retry attempt(s).")),
        _ => panic!("a repaired reply is kept"),
    }
    match after_repair_reply(&schema, &bundle, GenerationIntent::Success, 2, 2, &bad, &Ok(jobj(vec![("nick", jstr("x"))]))) {
        GenerationStep::Finish(ex) => assert!(ex.note.unwrap().contains("still failing after 2 repair attempt(s): $.name")),
        _ => panic!("the last attempt ends the loop"),
    }
    match after_repair_reply(&schema, &bundle, GenerationIntent::Success, 2, 1, &bad, &Err(OpenAiError::MissingContent)) {
        GenerationStep::Finish(ex) => assert!(ex.note.unwrap().ends_with("repair attempt 1 errored: provider response did not include an assistant message")),
        _ => panic!("a failed call keeps the last payload"),
    }
}

#[test]
fn repair_bundle_lists_each_problem() {
    let bundle = build_prompt_bundle(&endpoint(), GenerationIntent::Success);
    let repaired = build_repair_bundle(&bundle, &vec!["$.a: x".to_string(), "$.b: y".to_string()]);
    assert_eq!(repaired.system, bundle.system);
    assert!(repaired.user.ends_with("validation:\n- $.a: x\n- $.b: y\n\nReturn a new JSON object that fixes the listed issues. Respond with JSON only."));
}

#[test]
fn missing_api_key_surfaces_descriptive_error() {
    match request_credentials(None, "ALBERT_TEST_MISSING_KEY", false) {
        Err(albert::openai::OpenAiError::MissingApiKey(name)) => assert_eq!(name, "ALBERT_TEST_MISSING_KEY"),
        other => panic!("unexpected: {other:?}"),
    }
}

#[test]
fn credentials_use_bearer_or_api_key_headers() {
    let (h, v) = request_credentials(Some("sk-1"), "OPENAI_API_KEY", false).unwrap();
    assert_eq!((h.as_str(), v.as_str()), ("authorization", "Bearer sk-1"));
    let (h, v) = request_credentials(Some("az-2"), "AZURE_KEY", true).unwrap();
    assert_eq!((h.as_str(), v.as_str()), ("api-key", "az-2"));
}
