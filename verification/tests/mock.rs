use albert::gateway::route::summarize;
use albert::canonical::{MockExample, SchemaNode};
use albert::gateway::config::{RateLimitRule, RequiredHeader};
use albert::gateway::handlers::{
    captured_from_bytes, evaluate_required_headers, http_method_to_canonical, parse_query_override,
    resolve_request_id, retry_after_secs, status_for, urldecode, CapturedBody,
};
use albert::gateway::mock::{
    admit_mock_request, finish_mock_response, plan_mock_response, MockGate, MockReply, MockRequest, MockRules,
};
use albert::gateway::route::MockRoute;
use albert::gateway::routing::RouteTable;
use albert::gateway::state::{LatencyConfig, RateLimitState};
use albert::gateway::templating::{TemplateContext, TemplateRng};
use albert::json::{JsonNumber, JsonValue};
use albert::model::{HttpMethod, MockExampleKind};

fn s(v: &str) -> JsonValue {
    JsonValue::String(v.to_string())
}

fn obj(entries: Vec<(&str, JsonValue)>) -> JsonValue {
    JsonValue::Object(entries.into_iter().map(|(k, v)| (k.to_string(), v)).collect())
}

fn example(kind: MockExampleKind, payload: JsonValue) -> MockExample {
    MockExample { kind, title: "t".to_string(), payload, note: None }
}

fn route(method: HttpMethod, path: &str, schema: Option<SchemaNode>) -> MockRoute {
    MockRoute {
        collection_id: "c1".to_string(),
        collection_name: "Demo".to_string(),
        method,
        path: path.to_string(),
        operation_id: None,
        summary: None,
        examples: vec![
            example(MockExampleKind::Success, obj(vec![("id", s("{{path.id}}"))])),
            example(MockExampleKind::Error, obj(vec![("error", s("bad"))])),
        ],
        request_body_schema: schema,
    }
}

fn rules() -> MockRules {
    MockRules {
        overrides: Vec::new(),
        latency: LatencyConfig::new(None, Vec::new()),
        required_headers: Vec::new(),
        status_overrides: Vec::new(),
        response_headers: Vec::new(),
        capture_bodies: false,
        enforce_request_bodies: false,
    }
}

fn limits() -> RateLimitState {
    RateLimitState { rules: Vec::new(), history: Vec::new() }
}

fn request(method: &str, path: &str, query: Option<&str>, headers: Vec<(&str, &str)>) -> MockRequest {
    MockRequest {
        method: method.to_string(),
        path: path.to_string(),
        query: query.map(|q| q.to_string()),
        headers: headers.into_iter().map(|(k, v)| (k.to_string(), v.to_string())).collect(),
    }
}

fn header<'a>(reply: &'a MockReply, name: &str) -> Option<&'a str> {
    reply.headers.iter().rev().find(|(k, _)| k == name).map(|(_, v)| v.as_str())
}

fn field<'a>(v: &'a JsonValue, key: &str) -> &'a JsonValue {
    match v {
        JsonValue::Object(m) => &m.iter().find(|(k, _)| k == key).unwrap().1,
        _ => panic!("not an object"),
    }
}

fn text(v: &JsonValue) -> &str {
    match v {
        JsonValue::String(t) => t.as_str(),
        _ => panic!("not a string"),
    }
}

#[test]
fn serves_matched_route_with_templated_payload() {
    let table = RouteTable::from_routes(vec![route(HttpMethod::Get, "/users/{id}", None)]);
    let rules = rules();
    let mut lim = limits();
    let req = request("GET", "/users/42", None, vec![("x-request-id", " abc ")]);
    let gate = admit_mock_request(&table, &rules, &mut lim, &req, &CapturedBody::NotCaptured, &None, "abc", 1000);
    let admitted = match gate {
        MockGate::Admitted(a) => a,
        MockGate::Rejected(e, _) => panic!("rejected: {}", e.source),
    };
    assert_eq!(admitted.route_key, "GET /users/{id}");
    let mut rng = TemplateRng { state: 1, reseed: 1 };
    let plan = plan_mock_response(&admitted, &rules, &req, &CapturedBody::NotCaptured, false, &mut rng, "abc", 1000)
        .ok()
        .unwrap();
    assert_eq!(plan.status, 200);
    assert_eq!(plan.source, "default");
    assert_eq!(plan.latency_ms, 0);
    let mut ctx = TemplateContext::at(0, Vec::new());
    let (entry, reply) = finish_mock_response(&admitted, &plan, &rules, &req, &CapturedBody::NotCaptured, "abc", &mut ctx, 1000);
    assert_eq!(entry.status, 200);
    assert_eq!(entry.matched_route.as_deref(), Some("GET /users/{id}"));
    assert_eq!(reply.status, 200);
    assert_eq!(header(&reply, "x-albert-mock-kind"), Some("success"));
    assert_eq!(header(&reply, "x-request-id"), Some("abc"));
    assert_eq!(text(field(reply.body.as_ref().unwrap(), "id")), "42");
}

#[test]
fn unknown_methods_and_paths_are_404() {
    let table = RouteTable::from_routes(vec![route(HttpMethod::Get, "/a", None)]);
    let rules = rules();
    let mut lim = limits();
    for (m, p, source, msg) in [
        ("TRACE", "/a", "unsupported", "unsupported method TRACE"),
        ("GET", "/b", "unmatched", "no mock registered for GET /b"),
    ] {
        let req = request(m, p, None, vec![]);
        match admit_mock_request(&table, &rules, &mut lim, &req, &CapturedBody::NotCaptured, &None, "id1", 5) {
            MockGate::Rejected(e, reply) => {
                assert_eq!(e.status, 404);
                assert_eq!(e.source, source);
                assert_eq!(reply.status, 404);
                assert_eq!(text(field(reply.body.as_ref().unwrap(), "message")), msg);
                assert_eq!(text(field(reply.body.as_ref().unwrap(), "error")), "mock_not_found");
            }
            MockGate::Admitted(_) => panic!("admitted"),
        }
    }
}

#[test]
fn head_falls_back_to_get_and_strips_body() {
    let table = RouteTable::from_routes(vec![route(HttpMethod::Get, "/users/{id}", None)]);
    let rules = rules();
    let mut lim = limits();
    let req = request("HEAD", "/users/7", None, vec![]);
    let a = match admit_mock_request(&table, &rules, &mut lim, &req, &CapturedBody::NotCaptured, &None, "h", 0) {
        MockGate::Admitted(a) => a,
        MockGate::Rejected(..) => panic!("rejected"),
    };
    assert!(a.strip_body);
    let mut rng = TemplateRng { state: 3, reseed: 3 };
    let plan = plan_mock_response(&a, &rules, &req, &CapturedBody::NotCaptured, false, &mut rng, "h", 0).ok().unwrap();
    let mut ctx = TemplateContext::at(0, Vec::new());
    let (_, reply) = finish_mock_response(&a, &plan, &rules, &req, &CapturedBody::NotCaptured, "h", &mut ctx, 0);
    assert!(reply.body.is_none());
    assert_eq!(reply.status, 200);
}

#[test]
fn required_headers_gate_returns_401_before_rate_limit() {
    let table = RouteTable::from_routes(vec![route(HttpMethod::Get, "/secure", None)]);
    let mut rules = rules();
    rules.required_headers = vec![(
        "GET /secure".to_string(),
        vec![RequiredHeader { name: "Authorization".to_string(), value_prefix: Some("Bearer ".to_string()), value_equals: None }],
    )];
    let mut lim = RateLimitState { rules: vec![("GET /secure".to_string(), RateLimitRule { limit: 0, window_ms: 1000 })], history: Vec::new() };
    let req = request("GET", "/secure", None, vec![("authorization", "Basic x")]);
    match admit_mock_request(&table, &rules, &mut lim, &req, &CapturedBody::NotCaptured, &None, "r", 10) {
        MockGate::Rejected(e, reply) => {
            assert_eq!(e.status, 401);
            assert_eq!(e.source, "auth-required");
            assert_eq!(text(field(reply.body.as_ref().unwrap(), "message")), "header 'Authorization' must start with 'Bearer '");
        }
        MockGate::Admitted(_) => panic!("admitted"),
    }
    let req = request("GET", "/secure", None, vec![("authorization", "Bearer t")]);
    match admit_mock_request(&table, &rules, &mut lim, &req, &CapturedBody::NotCaptured, &None, "r", 10) {
        MockGate::Rejected(e, reply) => {
            assert_eq!(e.status, 429);
            assert_eq!(header(&reply, "retry-after"), Some("1"));
            assert_eq!(header(&reply, "x-albert-rate-limit"), Some("0"));
        }
        MockGate::Admitted(_) => panic!("admitted"),
    }
}

#[test]
fn rate_limit_admits_up_to_limit_then_429() {
    let table = RouteTable::from_routes(vec![route(HttpMethod::Get, "/r", None)]);
    let rules = rules();
    let mut lim = RateLimitState { rules: vec![("GET /r".to_string(), RateLimitRule { limit: 2, window_ms: 1000 })], history: Vec::new() };
    let req = request("GET", "/r", None, vec![]);
    let mut statuses = Vec::new();
    for now in [0i64, 10, 20, 1500] {
        let st = match admit_mock_request(&table, &rules, &mut lim, &req, &CapturedBody::NotCaptured, &None, "q", now) {
            MockGate::Admitted(_) => 200,
            MockGate::Rejected(e, _) => e.status,
        };
        statuses.push(st);
    }
    assert_eq!(statuses, vec![200, 200, 429, 200]);
}

#[test]
fn enforced_body_schema_rejects_mismatch_with_400() {
    let mut schema = SchemaNode::object();
    let mut name = SchemaNode::string();
    name.required = true;
    schema.properties.push(("name".to_string(), name));
    let table = RouteTable::from_routes(vec![route(HttpMethod::Post, "/things", Some(schema))]);
    let mut rules = rules();
    rules.enforce_request_bodies = true;
    let mut lim = limits();
    let req = request("POST", "/things", None, vec![]);
    let body = CapturedBody::Full("{}".to_string());
    let parsed: Option<Result<JsonValue, String>> = Some(Ok(obj(vec![])));
    match admit_mock_request(&table, &rules, &mut lim, &req, &body, &parsed, "b", 1) {
        MockGate::Rejected(e, reply) => {
            assert_eq!(e.status, 400);
            assert_eq!(e.source, "schema-mismatch");
            assert_eq!(e.request_body.as_deref(), Some("{}"));
            assert_eq!(text(field(reply.body.as_ref().unwrap(), "path")), "$.name");
        }
        MockGate::Admitted(_) => panic!("admitted"),
    }
    let bad: Option<Result<JsonValue, String>> = Some(Err("EOF while parsing".to_string()));
    match admit_mock_request(&table, &rules, &mut lim, &req, &body, &bad, "b", 1) {
        MockGate::Rejected(_, reply) => {
            assert_eq!(text(field(reply.body.as_ref().unwrap(), "message")), "body is not valid JSON: EOF while parsing")
        }
        MockGate::Admitted(_) => panic!("admitted"),
    }
}

#[test]
fn query_override_status_override_and_error_rate_pick_the_source() {
    let table = RouteTable::from_routes(vec![route(HttpMethod::Get, "/x", None)]);
    let mut rules = rules();
    let mut lim = limits();
    let mut rng = TemplateRng { state: 9, reseed: 9 };
    let req = request("GET", "/x", Some("a=1&__albert_mock=error"), vec![]);
    let a = match admit_mock_request(&table, &rules, &mut lim, &req, &CapturedBody::NotCaptured, &None, "i", 0) {
        MockGate::Admitted(a) => a,
        MockGate::Rejected(..) => panic!("rejected"),
    };
    let plan = plan_mock_response(&a, &rules, &req, &CapturedBody::NotCaptured, false, &mut rng, "i", 0).ok().unwrap();
    assert_eq!(plan.status, 400);
    assert_eq!(plan.source, "query");
    rules.status_overrides = vec![("GET /x".to_string(), 202)];
    let plain = request("GET", "/x", None, vec![]);
    let plan = plan_mock_response(&a, &rules, &plain, &CapturedBody::NotCaptured, false, &mut rng, "i", 0).ok().unwrap();
    assert_eq!(plan.status, 202);
    assert_eq!(plan.source, "status-override");
    let plan = plan_mock_response(&a, &rules, &plain, &CapturedBody::NotCaptured, true, &mut rng, "i", 0).ok().unwrap();
    assert_eq!(plan.source, "error-rate");
    assert_eq!(plan.status, 202);
}

#[test]
fn latency_with_jitter_stays_within_bounds() {
    let table = RouteTable::from_routes(vec![route(HttpMethod::Get, "/j", None)]);
    let mut rules = rules();
    rules.latency = LatencyConfig::with_jitter(Some(100), vec![("GET /j".to_string(), 50)], vec![("GET /j".to_string(), 30)]);
    let mut lim = limits();
    let req = request("GET", "/j", None, vec![]);
    let a = match admit_mock_request(&table, &rules, &mut lim, &req, &CapturedBody::NotCaptured, &None, "i", 0) {
        MockGate::Admitted(a) => a,
        MockGate::Rejected(..) => panic!("rejected"),
    };
    let mut rng = TemplateRng { state: 12345, reseed: 1 };
    for _ in 0..100 {
        let plan = plan_mock_response(&a, &rules, &req, &CapturedBody::NotCaptured, false, &mut rng, "i", 0).ok().unwrap();
        assert!(plan.latency_ms >= 120 && plan.latency_ms <= 180, "{}", plan.latency_ms);
    }
}

#[test]
fn query_override_parsing() {
    assert_eq!(parse_query_override(None), (None, false));
    assert_eq!(parse_query_override(Some("__albert_mock=empty")), (Some(MockExampleKind::Empty), true));
    assert_eq!(parse_query_override(Some("x=1&__albert_mock=bogus&__albert_mock=error")), (None, false));
    assert_eq!(parse_query_override(Some("__albert_mock")), (None, false));
}

#[test]
fn required_header_rules() {
    let rules = vec![
        RequiredHeader { name: "X-Key".to_string(), value_prefix: None, value_equals: Some("k1".to_string()) },
    ];
    assert_eq!(evaluate_required_headers(&rules, &vec![]), Some("missing required header 'X-Key'".to_string()));
    assert_eq!(
        evaluate_required_headers(&rules, &vec![("x-key".to_string(), "k2".to_string())]),
        Some("header 'X-Key' does not match expected value".to_string())
    );
    assert_eq!(evaluate_required_headers(&rules, &vec![("x-key".to_string(), "k1".to_string())]), None);
}

#[test]
fn request_ids_are_trimmed_capped_or_generated() {
    let mut rng = TemplateRng { state: 4, reseed: 4 };
    let long = "x".repeat(200);
    assert_eq!(resolve_request_id(&vec![("x-request-id".to_string(), long)], &mut rng).len(), 128);
    assert_eq!(resolve_request_id(&vec![("x-request-id".to_string(), "  id-1 ".to_string())], &mut rng), "id-1");
    let generated = resolve_request_id(&vec![("x-request-id".to_string(), "   ".to_string())], &mut rng);
    assert_eq!(generated.len(), 36);
}

#[test]
fn small_helpers() {
    assert_eq!(retry_after_secs(0), 1);
    assert_eq!(retry_after_secs(1000), 1);
    assert_eq!(retry_after_secs(1001), 2);
    assert_eq!(status_for(MockExampleKind::Error, None), 400);
    assert_eq!(status_for(MockExampleKind::Success, Some(700)), 200);
    assert_eq!(status_for(MockExampleKind::Success, Some(204)), 204);
    assert_eq!(http_method_to_canonical("PATCH"), Some(HttpMethod::Patch));
    assert_eq!(http_method_to_canonical("get"), None);
    assert_eq!(urldecode("a%20b+c").unwrap(), "a b c");
    assert_eq!(urldecode("%41%4a%+1").unwrap(), "AJ\u{1}");
    assert_eq!(urldecode("%zz").unwrap_err(), "bad hex");
    assert_eq!(urldecode("%4").unwrap(), "%4");
    assert!(urldecode("%ff").is_err());
}

#[test]
fn captured_bodies() {
    assert_eq!(captured_from_bytes(&Vec::new()), CapturedBody::NotCaptured);
    assert_eq!(captured_from_bytes(&b"hi".to_vec()), CapturedBody::Full("hi".to_string()));
    let big = vec![b'a'; 5000];
    match captured_from_bytes(&big) {
        CapturedBody::Truncated(t) => {
            assert!(t.ends_with("…[truncated]"));
            assert_eq!(CapturedBody::Truncated(t.clone()).raw_bytes_as_str().unwrap().len(), 4096);
        }
        other => panic!("{:?}", other),
    }
    assert_eq!(CapturedBody::Failed("boom".to_string()).as_string().unwrap(), "<capture failed: boom>");
    assert_eq!(CapturedBody::Failed("boom".to_string()).raw_bytes_as_str(), None);
    let _ = JsonNumber::PosInt(1);
}

#[test]
fn route_summaries_show_selected_examples_and_latency() {
    let routes = vec![route(HttpMethod::Get, "/orders/{id}", None), route(HttpMethod::Post, "/orders", None)];
    let overrides = vec![("GET /orders/{id}".to_string(), MockExampleKind::Error)];
    let latency = vec![("POST /orders".to_string(), 250u64)];
    let out = summarize(&routes, &overrides, &latency);
    assert_eq!(out.len(), 2);
    assert_eq!(out[0].selected_example, Some(MockExampleKind::Error));
    assert_eq!(out[0].latency_ms, None);
    assert_eq!(out[1].selected_example, Some(MockExampleKind::Success));
    assert_eq!(out[1].latency_ms, Some(250));
    assert_eq!(out[1].available_examples, vec![MockExampleKind::Success, MockExampleKind::Error]);
    assert_eq!(out[1].collection_name, "Demo");
}
