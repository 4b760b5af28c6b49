//! The mock endpoint's request cycle as three decisions. `admit_mock_request`
//! runs the gates (method, route, required headers, rate limit, body
//! schema); `plan_mock_response` picks the example, status, source label and
//! latency; after the caller has slept the latency, `finish_mock_response`
//! renders the templated payload, the reply headers and the log entry.
use vstd::prelude::*;
use crate::assoc::{get_copy, lemma_key_index, lookup, find_key, find_key_str};
use crate::gateway::config::RequiredHeader;
use crate::gateway::handlers::{
    CapturedBody, canonical_method, default_status, evaluate_required_headers, http_method_to_canonical,
    parse_query_override, query_override, retry_after_secs, retry_after_secs_spec, roll_jitter, rules_error,
    status_for, jitter_draw,
};
use crate::gateway::route::{MockRoute, preferred_index, preferred_index_of, route_key, spec_route_key};
use crate::gateway::routing::{RouteTable, bindings, first_served, lemma_serves_unique, param_views, segment_views, serves};
use crate::gateway::state::{LatencyConfig, RateLimitState, RateVerdict, RequestLogEntry, history_of, limit_history, limit_verdict, resolved_latency};
use crate::gateway::templating::{TemplateContext, TemplateRng, apply_spec, apply_templates};
use crate::gateway::validator::{ValidationError, check_at, outcome, validate};
use crate::json::{JsonNumber, JsonSpec, JsonValue, NumberSpec, view_json};
use crate::model::{HttpMethod, MockExampleKind, example_kind_text, method_text};
use crate::text::{append, append_str, chars_of, decimal, decimal_of, split_char, string_of};

verus! {

/// A request as the endpoint sees it. Header names are lower-cased; a
/// header whose value is not text is left out.
pub struct MockRequest {
    pub method: String,
    pub path: String,
    pub query: Option<String>,
    pub headers: Vec<(String, String)>,
}

/// The per-route rules the endpoint applies, keyed by `METHOD /path`.
pub struct MockRules {
    pub overrides: Vec<(String, MockExampleKind)>,
    pub latency: LatencyConfig,
    pub required_headers: Vec<(String, Vec<RequiredHeader>)>,
    pub status_overrides: Vec<(String, u16)>,
    pub response_headers: Vec<(String, Vec<(String, String)>)>,
    pub capture_bodies: bool,
    pub enforce_request_bodies: bool,
}

/// A reply: status, headers in the order they are set (a later header of
/// the same name replaces an earlier one), and a JSON body or none.
pub struct MockReply {
    pub status: u16,
    pub headers: Vec<(String, String)>,
    pub body: Option<JsonValue>,
}

/// A request that passed every gate.
pub struct AdmittedRequest<'a> {
    pub route: &'a MockRoute,
    pub params: Vec<(String, String)>,
    pub route_key: String,
    pub strip_body: bool,
}

/// What the gates decided.
pub enum MockGate<'a> {
    Rejected(RequestLogEntry, MockReply),
    Admitted(AdmittedRequest<'a>),
}

/// What the endpoint answers an admitted request with.
pub struct MockPlan {
    pub example: usize,
    pub status: u16,
    pub source: &'static str,
    pub latency_ms: u64,
    pub query_selected: bool,
}

pub open spec fn opt_view(o: Option<String>) -> Option<Seq<char>> {
    match o {
        Some(s) => Some(s@),
        None => None,
    }
}

pub open spec fn header_views(h: Seq<(String, String)>) -> Seq<(Seq<char>, Seq<char>)> {
    h.map_values(|p: (String, String)| (p.0@, p.1@))
}

/// The text the log keeps for a captured body.
pub open spec fn captured_text(b: CapturedBody) -> Option<Seq<char>> {
    match b {
        CapturedBody::NotCaptured => None,
        CapturedBody::Truncated(t) => Some(t@),
        CapturedBody::Full(t) => Some(t@),
        CapturedBody::Failed(m) => Some("<capture failed: "@ + m@ + ">"@),
    }
}

/// Whether the request body is read: when bodies are captured or checked,
/// for methods other than GET and HEAD.
pub open spec fn wants_body_spec(rules: MockRules, method: Seq<char>) -> bool {
    (rules.capture_bodies || rules.enforce_request_bodies) && method != "GET"@ && method != "HEAD"@
}

pub fn wants_body(rules: &MockRules, method: &str) -> (r: bool)
    ensures
        r == wants_body_spec(*rules, method@),
{
    let m = chars_of(method);
    (rules.capture_bodies || rules.enforce_request_bodies) && !crate::text::eq_str(&m, "GET")
        && !crate::text::eq_str(&m, "HEAD")
}

/// The route serving a request; GET stands in for an undeclared HEAD.
pub open spec fn resolve_route(t: RouteTable, kind: HttpMethod, path: Seq<char>) -> Option<int> {
    match first_served(t, kind, path) {
        Some(k) => Some(k),
        None => if kind == HttpMethod::Head {
            first_served(t, HttpMethod::Get, path)
        } else {
            None
        },
    }
}

/// The method whose route served the request.
pub open spec fn served_method(t: RouteTable, kind: HttpMethod, path: Seq<char>) -> HttpMethod {
    if first_served(t, kind, path) is Some {
        kind
    } else {
        HttpMethod::Get
    }
}

/// The rate limiter's verdict for `key` at `now`.
pub open spec fn rate_verdict(limits: RateLimitState, key: Seq<char>, now: u128) -> RateVerdict {
    match lookup(limits.rules@, key) {
        None => RateVerdict::Allowed,
        Some(rule) => limit_verdict(rule, history_of(limits.history@, key), now),
    }
}

/// The limiter after admitting a request on `key` at `now`.
pub open spec fn limits_after(before: RateLimitState, after: RateLimitState, key: Seq<char>, now: u128) -> bool {
    &&& after.rules == before.rules
    &&& match lookup(before.rules@, key) {
        None => after.history == before.history,
        Some(rule) => history_of(after.history@, key) == limit_history(rule, history_of(before.history@, key), now),
    }
    &&& forall|k: Seq<char>| k != key ==> history_of(after.history@, k) == history_of(before.history@, k)
}

/// The body mismatch that rejects a request: checked only when bodies are
/// enforced, the body was read, the route declares a schema and the body
/// text was parsed (`body_json`).
pub open spec fn body_problem(
    rules: MockRules,
    method: Seq<char>,
    schema: Option<crate::canonical::SchemaNode>,
    body_json: Option<Result<JsonValue, String>>,
) -> Option<(Seq<char>, Seq<char>)> {
    if rules.enforce_request_bodies && wants_body_spec(rules, method) && schema is Some && body_json is Some {
        match body_json->0 {
            Ok(v) => check_at("$"@, v, schema->0),
            Err(e) => Some(("$"@, "body is not valid JSON: "@ + e@)),
        }
    } else {
        None
    }
}

/// The gates' decision.
pub enum GateSpec {
    Unsupported,
    Unmatched(HttpMethod),
    AuthRequired(int, Seq<char>),
    RateLimited(int, u32, u64, u64),
    SchemaMismatch(int, Seq<char>, Seq<char>),
    Pass(int),
}

pub open spec fn entry_key(t: RouteTable, k: int) -> Seq<char> {
    spec_route_key(t.entries()[k].route.method, t.entries()[k].route.path@)
}

pub open spec fn required_rules_error(rules: MockRules, key: Seq<char>, headers: Seq<(String, String)>) -> Option<Seq<char>> {
    match lookup(rules.required_headers@, key) {
        Some(rs) => rules_error(rs@, headers),
        None => None,
    }
}

/// The gates in order: the method must be served, a route must match, the
/// route's required headers must be present, its rate limit must admit the
/// request, and an enforced body must match the route's schema.
pub open spec fn gate_spec(
    t: RouteTable,
    rules: MockRules,
    limits: RateLimitState,
    req: MockRequest,
    body_json: Option<Result<JsonValue, String>>,
    now: u128,
) -> GateSpec {
    match canonical_method(req.method@) {
        None => GateSpec::Unsupported,
        Some(kind) => match resolve_route(t, kind, req.path@) {
            None => GateSpec::Unmatched(kind),
            Some(k) => {
                let key = entry_key(t, k);
                match required_rules_error(rules, key, req.headers@) {
                    Some(m) => GateSpec::AuthRequired(k, m),
                    None => match rate_verdict(limits, key, now) {
                        RateVerdict::Denied { limit, window_ms, retry_after_ms } => GateSpec::RateLimited(
                            k,
                            limit,
                            window_ms,
                            retry_after_ms,
                        ),
                        RateVerdict::Allowed => match body_problem(
                            rules,
                            req.method@,
                            t.entries()[k].route.request_body_schema,
                            body_json,
                        ) {
                            Some(p) => GateSpec::SchemaMismatch(k, p.0, p.1),
                            None => GateSpec::Pass(k),
                        },
                    },
                }
            },
        },
    }
}

pub open spec fn jstr(s: Seq<char>) -> JsonSpec {
    JsonSpec::String(s)
}

pub open spec fn juint(n: u64) -> JsonSpec {
    JsonSpec::Number(NumberSpec::PosInt(n))
}

/// `{"error": error, "message": message, "request_id": id}`.
pub open spec fn error_body(error: Seq<char>, message: Seq<char>, id: Seq<char>) -> JsonSpec {
    JsonSpec::Object(seq![("error"@, jstr(error)), ("message"@, jstr(message)), ("request_id"@, jstr(id))])
}

pub open spec fn json_headers(id: Seq<char>) -> Seq<(Seq<char>, Seq<char>)> {
    seq![("content-type"@, "application/json"@), ("x-request-id"@, id)]
}

/// The reply to a rejected request, by gate.
pub open spec fn reject_reply(g: GateSpec, method: Seq<char>, path: Seq<char>, id: Seq<char>) -> (
    u16,
    Seq<(Seq<char>, Seq<char>)>,
    JsonSpec,
) {
    match g {
        GateSpec::Unsupported => (404, json_headers(id), error_body("mock_not_found"@, "unsupported method "@ + method, id)),
        GateSpec::Unmatched(kind) => (
            404,
            json_headers(id),
            error_body("mock_not_found"@, "no mock registered for "@ + method + " "@ + path, id),
        ),
        GateSpec::AuthRequired(_, m) => (401, json_headers(id), error_body("unauthorized"@, m, id)),
        GateSpec::RateLimited(_, limit, window_ms, retry_after_ms) => (
            429,
            seq![
                ("content-type"@, "application/json"@),
                ("retry-after"@, decimal(retry_after_secs_spec(retry_after_ms) as nat)),
                ("x-request-id"@, id),
                ("x-albert-rate-limit"@, decimal(limit as nat)),
                ("x-albert-rate-window-ms"@, decimal(window_ms as nat)),
            ],
            JsonSpec::Object(
                seq![
                    ("error"@, jstr("rate_limited"@)),
                    ("limit"@, juint(limit as u64)),
                    ("request_id"@, jstr(id)),
                    ("retry_after_ms"@, juint(retry_after_ms)),
                    ("window_ms"@, juint(window_ms)),
                ],
            ),
        ),
        GateSpec::SchemaMismatch(_, p, m) => (
            400,
            json_headers(id),
            JsonSpec::Object(
                seq![
                    ("error"@, jstr("schema_mismatch"@)),
                    ("message"@, jstr(m)),
                    ("path"@, jstr(p)),
                    ("request_id"@, jstr(id)),
                ],
            ),
        ),
        GateSpec::Pass(_) => (200, Seq::empty(), JsonSpec::Null),
    }
}

/// The status and source label logged for a rejection.
pub open spec fn reject_label(g: GateSpec) -> (u16, Seq<char>) {
    match g {
        GateSpec::Unsupported => (404, "unsupported"@),
        GateSpec::Unmatched(_) => (404, "unmatched"@),
        GateSpec::AuthRequired(..) => (401, "auth-required"@),
        GateSpec::RateLimited(..) => (429, "rate-limited"@),
        GateSpec::SchemaMismatch(..) => (400, "schema-mismatch"@),
        GateSpec::Pass(_) => (200, Seq::empty()),
    }
}

/// The route a gate decision names, if any.
pub open spec fn gate_route(g: GateSpec) -> Option<int> {
    match g {
        GateSpec::AuthRequired(k, _) => Some(k),
        GateSpec::RateLimited(k, ..) => Some(k),
        GateSpec::SchemaMismatch(k, ..) => Some(k),
        GateSpec::Pass(k) => Some(k),
        _ => None,
    }
}

/// The log entry of a request, apart from what the plan decides.
pub open spec fn entry_basics(
    e: RequestLogEntry,
    req: MockRequest,
    body: CapturedBody,
    now: i64,
    key: Option<Seq<char>>,
    collection: Option<Seq<char>>,
    id: Seq<char>,
) -> bool {
    &&& e.at_epoch_ms == now
    &&& e.method@ == req.method@
    &&& e.path@ == req.path@
    &&& opt_view(e.query) == opt_view(req.query)
    &&& opt_view(e.matched_route) == key
    &&& opt_view(e.collection_name) == collection
    &&& opt_view(e.request_body) == captured_text(body)
    &&& opt_view(e.request_id) == Some(id)
}

fn log_entry(
    req: &MockRequest,
    body: &CapturedBody,
    now_ms: i64,
    key: Option<String>,
    collection: Option<String>,
    status: u16,
    kind: Option<MockExampleKind>,
    source: &'static str,
    latency_ms: u64,
    request_id: &str,
) -> (e: RequestLogEntry)
    ensures
        entry_basics(e, *req, *body, now_ms, opt_view(key), opt_view(collection), request_id@),
        e.status == status,
        e.kind == kind,
        e.source@ == source@,
        e.latency_ms == latency_ms,
{
    let request_body = body.as_string();
    RequestLogEntry {
        at_epoch_ms: now_ms,
        method: req.method.clone(),
        path: req.path.clone(),
        query: match &req.query {
            Some(q) => Some(q.clone()),
            None => None,
        },
        matched_route: key,
        collection_name: collection,
        status,
        kind,
        source,
        latency_ms,
        request_body,
        request_id: Some(request_id.to_string()),
    }
}

fn pair(a: &str, b: &str) -> (r: (String, String))
    ensures
        r.0@ == a@,
        r.1@ == b@,
{
    (a.to_string(), b.to_string())
}

fn text_value(s: &str) -> (r: JsonValue)
    ensures
        view_json(r) == jstr(s@),
{
    JsonValue::String(s.to_string())
}

fn error_reply(status: u16, error: &str, message: &str, request_id: &str) -> (r: MockReply)
    ensures
        r.status == status,
        header_views(r.headers@) == json_headers(request_id@),
        r.body matches Some(b) && view_json(b) == error_body(error@, message@, request_id@),
{
    let mut headers: Vec<(String, String)> = Vec::new();
    headers.push(pair("content-type", "application/json"));
    headers.push(pair("x-request-id", request_id));
    let mut fields: Vec<(String, JsonValue)> = Vec::new();
    fields.push(("error".to_string(), text_value(error)));
    fields.push(("message".to_string(), text_value(message)));
    fields.push(("request_id".to_string(), text_value(request_id)));
    proof {
        assert(header_views(headers@) =~= json_headers(request_id@));
        crate::json::lemma_view_entries(fields@);
        assert(crate::json::view_entries(fields@) =~= seq![
            ("error"@, jstr(error@)),
            ("message"@, jstr(message@)),
            ("request_id"@, jstr(request_id@)),
        ]);
    }
    MockReply { status, headers, body: Some(JsonValue::Object(fields)) }
}

/// The logged route key and collection of a gate decision.
pub open spec fn gate_key(t: RouteTable, g: GateSpec) -> Option<Seq<char>> {
    match gate_route(g) {
        Some(k) => Some(entry_key(t, k)),
        None => None,
    }
}

pub open spec fn gate_collection(t: RouteTable, g: GateSpec) -> Option<Seq<char>> {
    match gate_route(g) {
        Some(k) => Some(t.entries()[k].route.collection_name@),
        None => None,
    }
}

/// Whether `r` is the outcome that the gates decided (`g`).
pub open spec fn gate_done<'a>(
    r: MockGate<'a>,
    t: RouteTable,
    g: GateSpec,
    req: MockRequest,
    body: CapturedBody,
    id: Seq<char>,
    now: i64,
) -> bool {
    match r {
        MockGate::Rejected(e, reply) => {
            &&& !(g is Pass)
            &&& reply.body is Some
            &&& (reply.status, header_views(reply.headers@), view_json(reply.body->0)) == reject_reply(
                g,
                req.method@,
                req.path@,
                id,
            )
            &&& (e.status, e.source@) == reject_label(g)
            &&& e.kind is None
            &&& e.latency_ms == 0
            &&& entry_basics(e, req, body, now, gate_key(t, g), gate_collection(t, g), id)
        },
        MockGate::Admitted(a) => match g {
            GateSpec::Pass(k) => {
                &&& *a.route == t.entries()[k].route
                &&& a.route_key@ == entry_key(t, k)
                &&& a.strip_body == (canonical_method(req.method@) == Some(HttpMethod::Head))
                &&& param_views(a.params@) == bindings(
                    segment_views(t.entries()[k].segments@),
                    crate::text::segments(req.path@, '/'),
                )
            },
            _ => false,
        },
    }
}

/// Whether the gates got as far as the rate limiter.
pub open spec fn reached_limiter(g: GateSpec) -> bool {
    g is RateLimited || g is SchemaMismatch || g is Pass
}

/// The gates run in order on a request that a route serves: a failing
/// required-header rule answers it without consulting the rate limiter; a
/// limiter that denies it answers it before its body is looked at; and the
/// body is checked only for a request that passed both.
pub proof fn law_gate_order(
    t: RouteTable,
    rules: MockRules,
    limits: RateLimitState,
    req: MockRequest,
    body_json: Option<Result<JsonValue, String>>,
    now: u128,
    kind: HttpMethod,
    k: int,
)
    requires
        canonical_method(req.method@) == Some(kind),
        resolve_route(t, kind, req.path@) == Some(k),
    ensures
        ({
            let g = gate_spec(t, rules, limits, req, body_json, now);
            let key = entry_key(t, k);
            &&& gate_route(g) == Some(k)
            &&& required_rules_error(rules, key, req.headers@) is Some ==> g is AuthRequired && !reached_limiter(g)
            &&& required_rules_error(rules, key, req.headers@) is None && rate_verdict(limits, key, now) is Denied
                ==> g is RateLimited
            &&& (g is SchemaMismatch || g is Pass) ==> required_rules_error(rules, key, req.headers@) is None
                && rate_verdict(limits, key, now) is Allowed
        }),
{
}

fn rejection(
    req: &MockRequest,
    body: &CapturedBody,
    now_ms: i64,
    key: Option<String>,
    collection: Option<String>,
    status: u16,
    source: &'static str,
    reply: MockReply,
    request_id: &str,
) -> (r: MockGate<'static>)
    ensures
        r matches MockGate::Rejected(e, rep) && rep == reply && e.status == status && e.source@ == source@
            && e.kind is None && e.latency_ms == 0 && entry_basics(
            e,
            *req,
            *body,
            now_ms,
            opt_view(key),
            opt_view(collection),
            request_id@,
        ),
{
    let e = log_entry(req, body, now_ms, key, collection, status, None, source, 0, request_id);
    MockGate::Rejected(e, reply)
}

fn rate_limited_reply(limit: u32, window_ms: u64, retry_after_ms: u64, request_id: &str) -> (r: MockReply)
    ensures
        r.body is Some,
        (r.status, header_views(r.headers@), view_json(r.body->0)) == reject_reply(
            GateSpec::RateLimited(0, limit, window_ms, retry_after_ms),
            Seq::empty(),
            Seq::empty(),
            request_id@,
        ),
{
    let secs = retry_after_secs(retry_after_ms);
    let mut headers: Vec<(String, String)> = Vec::new();
    headers.push(pair("content-type", "application/json"));
    headers.push(("retry-after".to_string(), string_of(&decimal_of(secs))));
    headers.push(pair("x-request-id", request_id));
    headers.push(("x-albert-rate-limit".to_string(), string_of(&decimal_of(limit as u64))));
    headers.push(("x-albert-rate-window-ms".to_string(), string_of(&decimal_of(window_ms))));
    let mut fields: Vec<(String, JsonValue)> = Vec::new();
    fields.push(("error".to_string(), text_value("rate_limited")));
    fields.push(("limit".to_string(), JsonValue::Number(JsonNumber::PosInt(limit as u64))));
    fields.push(("request_id".to_string(), text_value(request_id)));
    fields.push(("retry_after_ms".to_string(), JsonValue::Number(JsonNumber::PosInt(retry_after_ms))));
    fields.push(("window_ms".to_string(), JsonValue::Number(JsonNumber::PosInt(window_ms))));
    proof {
        assert(header_views(headers@) =~= reject_reply(
            GateSpec::RateLimited(0, limit, window_ms, retry_after_ms),
            Seq::empty(),
            Seq::empty(),
            request_id@,
        ).1);
        crate::json::lemma_view_entries(fields@);
        assert(crate::json::view_entries(fields@) =~= seq![
            ("error"@, jstr("rate_limited"@)),
            ("limit"@, juint(limit as u64)),
            ("request_id"@, jstr(request_id@)),
            ("retry_after_ms"@, juint(retry_after_ms)),
            ("window_ms"@, juint(window_ms)),
        ]);
    }
    MockReply { status: 429, headers, body: Some(JsonValue::Object(fields)) }
}

fn schema_mismatch_reply(path: &str, message: &str, request_id: &str) -> (r: MockReply)
    ensures
        r.body is Some,
        (r.status, header_views(r.headers@), view_json(r.body->0)) == reject_reply(
            GateSpec::SchemaMismatch(0, path@, message@),
            Seq::empty(),
            Seq::empty(),
            request_id@,
        ),
{
    let mut headers: Vec<(String, String)> = Vec::new();
    headers.push(pair("content-type", "application/json"));
    headers.push(pair("x-request-id", request_id));
    let mut fields: Vec<(String, JsonValue)> = Vec::new();
    fields.push(("error".to_string(), text_value("schema_mismatch")));
    fields.push(("message".to_string(), text_value(message)));
    fields.push(("path".to_string(), text_value(path)));
    fields.push(("request_id".to_string(), text_value(request_id)));
    proof {
        assert(header_views(headers@) =~= json_headers(request_id@));
        crate::json::lemma_view_entries(fields@);
        assert(crate::json::view_entries(fields@) =~= seq![
            ("error"@, jstr("schema_mismatch"@)),
            ("message"@, jstr(message@)),
            ("path"@, jstr(path@)),
            ("request_id"@, jstr(request_id@)),
        ]);
    }
    MockReply { status: 400, headers, body: Some(JsonValue::Object(fields)) }
}

/// The route that serves `method` on `path`.
fn match_served<'a>(table: &'a RouteTable, method: HttpMethod, path: &str) -> (r: Option<crate::gateway::route::MatchedRoute<'a>>)
    ensures
        match first_served(*table, method, path@) {
            None => r is None,
            Some(k) => r matches Some(m) && *m.route == table.entries()[k].route && param_views(m.params@)
                == bindings(segment_views(table.entries()[k].segments@), crate::text::segments(path@, '/')),
        },
{
    let found = table.match_route(&method, path);
    proof {
        let req = crate::text::segments(path@, '/');
        if found is Some {
            let m = found->0;
            let k = choose|k: int|
                0 <= k < table.entries().len() && crate::gateway::routing::route_matches(
                    #[trigger] table.entries()[k],
                    method,
                    req,
                ) && *m.route == table.entries()[k].route && param_views(m.params@) == bindings(
                    segment_views(table.entries()[k].segments@),
                    req,
                ) && (forall|j: int|
                    0 <= j < k ==> !crate::gateway::routing::route_matches(
                        #[trigger] table.entries()[j],
                        method,
                        req,
                    )) && (forall|j: int|
                    0 <= j < table.entries().len() && crate::gateway::routing::route_matches(
                        #[trigger] table.entries()[j],
                        method,
                        req,
                    ) ==> table.entries()[j].literal_count <= table.entries()[k].literal_count);
            assert(serves(*table, method, path@, k));
            lemma_serves_unique(*table, method, path@, k);
        } else {
            assert(!exists|k: int| serves(*table, method, path@, k));
        }
    }
    found
}

/// The route serving `kind` on `path`, with GET standing in for HEAD.
fn find_route<'a>(table: &'a RouteTable, kind: HttpMethod, path: &str) -> (r: Option<crate::gateway::route::MatchedRoute<'a>>)
    ensures
        match resolve_route(*table, kind, path@) {
            None => r is None,
            Some(k) => r matches Some(m) && *m.route == table.entries()[k].route && param_views(m.params@)
                == bindings(segment_views(table.entries()[k].segments@), crate::text::segments(path@, '/')),
        },
{
    match match_served(table, kind, path) {
        Some(m) => Some(m),
        None => if matches!(kind, HttpMethod::Head) {
            match_served(table, HttpMethod::Get, path)
        } else {
            None
        },
    }
}

/// The required-header failure of the route keyed `key`, if any.
fn required_error(rules: &MockRules, key: &str, headers: &Vec<(String, String)>) -> (r: Option<String>)
    ensures
        opt_view(r) == required_rules_error(*rules, key@, headers@),
{
    proof {
        lemma_key_index(rules.required_headers@, key@);
    }
    match find_key_str(&rules.required_headers, key) {
        None => None,
        Some(i) => evaluate_required_headers(&rules.required_headers[i].1, headers),
    }
}

/// The body mismatch of an admitted request, if any.
fn body_mismatch(
    rules: &MockRules,
    method: &str,
    schema: &Option<crate::canonical::SchemaNode>,
    body_json: &Option<Result<JsonValue, String>>,
) -> (r: Option<(String, String)>)
    ensures
        match r {
            Some(p) => body_problem(*rules, method@, *schema, *body_json) == Some((p.0@, p.1@)),
            None => body_problem(*rules, method@, *schema, *body_json) is None,
        },
{
    if !(rules.enforce_request_bodies && wants_body(rules, method)) {
        return None;
    }
    let schema = match schema {
        Some(s) => s,
        None => return None,
    };
    match body_json {
        None => None,
        Some(Ok(v)) => match validate(v, schema) {
            Ok(()) => None,
            Err(e) => Some((e.path, e.message)),
        },
        Some(Err(e)) => {
            let mut m = chars_of("body is not valid JSON: ");
            append_str(&mut m, e.as_str());
            Some(("$".to_string(), string_of(&m)))
        },
    }
}

/// Runs the gates on a request: the method must be one the endpoint serves,
/// a route must serve it (GET standing in for an undeclared HEAD), the
/// route's required headers must be present, its rate limit must admit the
/// request (which records it), and, when bodies are enforced, the parsed
/// body must match the route's schema. A rejection carries the log entry and
/// the reply; an admission carries the route, its key, the path parameters
/// and whether the body is dropped (a HEAD request).
pub fn admit_mock_request<'a>(
    table: &'a RouteTable,
    rules: &MockRules,
    limits: &mut RateLimitState,
    req: &MockRequest,
    body: &CapturedBody,
    body_json: &Option<Result<JsonValue, String>>,
    request_id: &str,
    now_ms: i64,
) -> (r: MockGate<'a>)
    requires
        now_ms >= 0,
    ensures
        gate_done(r, *table, gate_spec(*table, *rules, *old(limits), *req, *body_json, now_ms as u128), *req, *body, request_id@, now_ms),
        if reached_limiter(gate_spec(*table, *rules, *old(limits), *req, *body_json, now_ms as u128)) {
            limits_after(*old(limits), *final(limits), entry_key(*table, gate_route(gate_spec(*table, *rules, *old(limits), *req, *body_json, now_ms as u128))->0), now_ms as u128)
        } else {
            *final(limits) == *old(limits)
        },
{
    let ghost g = gate_spec(*table, *rules, *old(limits), *req, *body_json, now_ms as u128);
    let kind = match http_method_to_canonical(req.method.as_str()) {
        None => {
            let mut m = chars_of("unsupported method ");
            append_str(&mut m, req.method.as_str());
            let msg = string_of(&m);
            let reply = error_reply(404, "mock_not_found", msg.as_str(), request_id);
            return rejection(req, body, now_ms, None, None, 404, "unsupported", reply, request_id);
        },
        Some(k) => k,
    };
    let matched = match find_route(table, kind, req.path.as_str()) {
        None => {
            let mut m = chars_of("no mock registered for ");
            append_str(&mut m, req.method.as_str());
            append_str(&mut m, " ");
            append_str(&mut m, req.path.as_str());
            let msg = string_of(&m);
            let reply = error_reply(404, "mock_not_found", msg.as_str(), request_id);
            return rejection(req, body, now_ms, None, None, 404, "unmatched", reply, request_id);
        },
        Some(m) => m,
    };
    let ghost k = resolve_route(*table, kind, req.path@)->0;
    let route = matched.route;
    let key = route_key(&route.method, route.path.as_str());
    assert(key@ == entry_key(*table, k));
    if let Some(err) = required_error(rules, key.as_str(), &req.headers) {
        let reply = error_reply(401, "unauthorized", err.as_str(), request_id);
        return rejection(req, body, now_ms, Some(key), Some(route.collection_name.clone()), 401, "auth-required", reply, request_id);
    }
    let verdict = limits.try_admit(key.as_str(), now_ms as u128);
    if let RateVerdict::Denied { limit, window_ms, retry_after_ms } = verdict {
        let reply = rate_limited_reply(limit, window_ms, retry_after_ms, request_id);
        return rejection(req, body, now_ms, Some(key), Some(route.collection_name.clone()), 429, "rate-limited", reply, request_id);
    }
    if let Some((p, m)) = body_mismatch(rules, req.method.as_str(), &route.request_body_schema, body_json) {
        let reply = schema_mismatch_reply(p.as_str(), m.as_str(), request_id);
        return rejection(req, body, now_ms, Some(key), Some(route.collection_name.clone()), 400, "schema-mismatch", reply, request_id);
    }
    MockGate::Admitted(AdmittedRequest {
        route,
        params: matched.params,
        route_key: key,
        strip_body: matches!(kind, HttpMethod::Head),
    })
}

/// What the query string selects, and whether it selected anything.
pub open spec fn query_choice(query: Option<String>) -> (Option<MockExampleKind>, bool) {
    match query {
        None => (None, false),
        Some(q) => query_override(split_char(q@, '&')),
    }
}

/// The example kind asked for: an injected error wins, then the query's
/// choice, then the route's configured override.
pub open spec fn chosen_kind(rules: MockRules, key: Seq<char>, query: Option<String>, error_injected: bool) -> Option<
    MockExampleKind,
> {
    if error_injected {
        Some(MockExampleKind::Error)
    } else {
        match query_choice(query).0 {
            Some(k) => Some(k),
            None => lookup(rules.overrides@, key),
        }
    }
}

/// A configured status override of the route, when it is a valid status.
pub open spec fn status_override(rules: MockRules, key: Seq<char>) -> Option<u16> {
    match lookup(rules.status_overrides@, key) {
        Some(c) => if 100 <= c <= 599 {
            Some(c)
        } else {
            None
        },
        None => None,
    }
}

/// Why the example was chosen, as logged.
pub open spec fn source_label(rules: MockRules, key: Seq<char>, query: Option<String>, error_injected: bool) -> Seq<char> {
    if query_choice(query).1 {
        "query"@
    } else if error_injected {
        "error-rate"@
    } else if status_override(rules, key) is Some {
        "status-override"@
    } else if query_choice(query).0 is Some || lookup(rules.overrides@, key) is Some {
        "override"@
    } else {
        "default"@
    }
}

/// The route's latency plus the jitter draw, at least 0 and at most
/// `u64::MAX`. Jitter bounds above `i64::MAX` are taken as `i64::MAX`.
pub open spec fn planned_latency(rules: MockRules, key: Seq<char>, state: u64, reseed: u64) -> (u64, u64) {
    let j = match lookup(rules.latency.jitter_per_route@, key) {
        Some(j) => j,
        None => 0,
    };
    let bound: u64 = if j > i64::MAX {
        i64::MAX as u64
    } else {
        j
    };
    let (delta, next) = jitter_draw(state, reseed, bound);
    let total = resolved_latency(rules.latency, key) + delta;
    (if total < 0 {
        0
    } else if total > u64::MAX {
        u64::MAX
    } else {
        total as u64
    }, next)
}

fn status_override_of(rules: &MockRules, key: &str) -> (r: Option<u16>)
    ensures
        r == status_override(*rules, key@),
{
    match get_copy(&rules.status_overrides, key) {
        Some(c) => if 100 <= c && c <= 599 {
            Some(c)
        } else {
            None
        },
        None => None,
    }
}

/// Picks what an admitted request is answered with: the example (see
/// `chosen_kind`; `preferred_index` falls back to the first success
/// example, then the first example), the status (a valid configured
/// override, else 400 for an error example and 200 otherwise), the logged
/// source and the latency with its jitter drawn from `rng`. A route with no
/// example is a 404 rejection, and then nothing is drawn.
pub fn plan_mock_response(
    a: &AdmittedRequest,
    rules: &MockRules,
    req: &MockRequest,
    body: &CapturedBody,
    error_injected: bool,
    rng: &mut TemplateRng,
    request_id: &str,
    now_ms: i64,
) -> (r: Result<MockPlan, (RequestLogEntry, MockReply)>)
    ensures
        final(rng).reseed == old(rng).reseed,
        match preferred_index(a.route.examples@, chosen_kind(*rules, a.route_key@, req.query, error_injected)) {
            None => {
                &&& r matches Err((e, reply))
                &&& reply.body is Some
                &&& (reply.status, header_views(reply.headers@), view_json(reply.body->0)) == (
                    404u16,
                    json_headers(request_id@),
                    error_body(
                        "mock_not_found"@,
                        "no example configured for "@ + req.method@ + " "@ + req.path@,
                        request_id@,
                    ),
                )
                &&& e.status == 404 && e.source@ == "no-example"@ && e.kind is None && e.latency_ms == 0
                &&& entry_basics(e, *req, *body, now_ms, Some(a.route_key@), Some(a.route.collection_name@), request_id@)
                &&& final(rng).state == old(rng).state
            },
            Some(i) => {
                &&& r matches Ok(p)
                &&& p.example == i
                &&& p.status == (if status_override(*rules, a.route_key@) is Some {
                    status_override(*rules, a.route_key@)->0
                } else {
                    default_status(a.route.examples@[i].kind)
                })
                &&& p.source@ == source_label(*rules, a.route_key@, req.query, error_injected)
                &&& p.query_selected == query_choice(req.query).1
                &&& (p.latency_ms, final(rng).state) == planned_latency(*rules, a.route_key@, old(rng).state, old(rng).reseed)
            },
        },
{
    let (override_kind, query_selected) = match &req.query {
        Some(q) => parse_query_override(Some(q.as_str())),
        None => parse_query_override(None),
    };
    let key = a.route_key.as_str();
    let fallback: Option<MockExampleKind> = get_copy(&rules.overrides, key);
    let chosen = if error_injected {
        Some(MockExampleKind::Error)
    } else {
        match override_kind {
            Some(k) => Some(k),
            None => fallback,
        }
    };
    let index = match preferred_index_of(&a.route.examples, chosen) {
        None => {
            let mut m = chars_of("no example configured for ");
            append_str(&mut m, req.method.as_str());
            append_str(&mut m, " ");
            append_str(&mut m, req.path.as_str());
            let msg = string_of(&m);
            let reply = error_reply(404, "mock_not_found", msg.as_str(), request_id);
            let e = log_entry(
                req,
                body,
                now_ms,
                Some(a.route_key.clone()),
                Some(a.route.collection_name.clone()),
                404,
                None,
                "no-example",
                0,
                request_id,
            );
            return Err((e, reply));
        },
        Some(i) => i,
    };
    let base = rules.latency.resolve(key);
    let jitter = rules.latency.jitter_for(key);
    let bound: u64 = if jitter > 0x7FFF_FFFF_FFFF_FFFFu64 {
        0x7FFF_FFFF_FFFF_FFFFu64
    } else {
        jitter
    };
    let delta = roll_jitter(bound, rng);
    let total: i128 = base as i128 + delta as i128;
    let latency_ms: u64 = if total < 0 {
        0
    } else if total > 0xFFFF_FFFF_FFFF_FFFFi128 {
        0xFFFF_FFFF_FFFF_FFFFu64
    } else {
        total as u64
    };
    let overridden = status_override_of(rules, key);
    let status = status_for(a.route.examples[index].kind, overridden);
    let source: &'static str = if query_selected {
        "query"
    } else if error_injected {
        "error-rate"
    } else if overridden.is_some() {
        "status-override"
    } else if override_kind.is_some() || fallback.is_some() {
        "override"
    } else {
        "default"
    };
    Ok(MockPlan { example: index, status, source, latency_ms, query_selected })
}

/// Extra headers configured for the route.
pub open spec fn extra_headers(rules: MockRules, key: Seq<char>) -> Seq<(Seq<char>, Seq<char>)> {
    match lookup(rules.response_headers@, key) {
        Some(h) => header_views(h@),
        None => Seq::empty(),
    }
}

/// The headers of a served reply, in the order they are set.
pub open spec fn served_headers(
    id: Seq<char>,
    kind: MockExampleKind,
    key: Seq<char>,
    query_selected: bool,
    latency_ms: u64,
    extras: Seq<(Seq<char>, Seq<char>)>,
) -> Seq<(Seq<char>, Seq<char>)> {
    seq![
        ("content-type"@, "application/json"@),
        ("x-request-id"@, id),
        ("x-albert-mock-kind"@, example_kind_text(kind)),
        ("x-albert-mock-route"@, key),
    ] + (if query_selected {
        seq![("x-albert-mock-source"@, "query"@)]
    } else {
        Seq::empty()
    }) + (if latency_ms > 0 {
        seq![("x-albert-mock-latency-ms"@, decimal(latency_ms as nat))]
    } else {
        Seq::empty()
    }) + extras
}

/// Renders the reply of an admitted request after its latency: the chosen
/// example's payload with templates expanded (dropped for HEAD), the
/// headers of `served_headers` and the log entry.
pub fn finish_mock_response(
    a: &AdmittedRequest,
    plan: &MockPlan,
    rules: &MockRules,
    req: &MockRequest,
    body: &CapturedBody,
    request_id: &str,
    ctx: &mut TemplateContext,
    now_ms: i64,
) -> (r: (RequestLogEntry, MockReply))
    requires
        plan.example < a.route.examples@.len(),
    ensures
        entry_basics(r.0, *req, *body, now_ms, Some(a.route_key@), Some(a.route.collection_name@), request_id@),
        r.0.status == plan.status,
        r.0.kind == Some(a.route.examples@[plan.example as int].kind),
        r.0.source@ == plan.source@,
        r.0.latency_ms == plan.latency_ms,
        r.1.status == plan.status,
        header_views(r.1.headers@) == served_headers(
            request_id@,
            a.route.examples@[plan.example as int].kind,
            a.route_key@,
            plan.query_selected,
            plan.latency_ms,
            extra_headers(*rules, a.route_key@),
        ),
        final(ctx).inputs() == old(ctx).inputs(),
        final(ctx).env == old(ctx).env,
        final(ctx).now_text == old(ctx).now_text,
        final(ctx).now_ms_text == old(ctx).now_ms_text,
        final(ctx).rng.reseed == old(ctx).rng.reseed,
        a.strip_body ==> r.1.body is None,
        !a.strip_body ==> (r.1.body matches Some(b) && (view_json(b), final(ctx).rng.state) == apply_spec(
            a.route.examples@[plan.example as int].payload,
            a.params@,
            old(ctx).inputs(),
            old(ctx).rng.state,
        )),
{
    let example = &a.route.examples[plan.example];
    let e = log_entry(
        req,
        body,
        now_ms,
        Some(a.route_key.clone()),
        Some(a.route.collection_name.clone()),
        plan.status,
        Some(example.kind),
        plan.source,
        plan.latency_ms,
        request_id,
    );
    let payload = apply_templates(&example.payload, &a.params, ctx);
    let mut headers: Vec<(String, String)> = Vec::new();
    headers.push(pair("content-type", "application/json"));
    headers.push(pair("x-request-id", request_id));
    headers.push(pair("x-albert-mock-kind", example.kind.as_str()));
    headers.push(pair("x-albert-mock-route", a.route_key.as_str()));
    proof {
        assert(header_views(headers@) =~= seq![
            ("content-type"@, "application/json"@),
            ("x-request-id"@, request_id@),
            ("x-albert-mock-kind"@, example_kind_text(example.kind)),
            ("x-albert-mock-route"@, a.route_key@),
        ]);
    }
    let ghost base = header_views(headers@);
    if plan.query_selected {
        headers.push(pair("x-albert-mock-source", "query"));
    }
    let ghost with_source = header_views(headers@);
    proof {
        assert(with_source =~= base + (if plan.query_selected {
            seq![("x-albert-mock-source"@, "query"@)]
        } else {
            Seq::empty()
        }));
    }
    if plan.latency_ms > 0 {
        headers.push(("x-albert-mock-latency-ms".to_string(), string_of(&decimal_of(plan.latency_ms))));
    }
    let ghost with_latency = header_views(headers@);
    proof {
        assert(with_latency =~= with_source + (if plan.latency_ms > 0 {
            seq![("x-albert-mock-latency-ms"@, decimal(plan.latency_ms as nat))]
        } else {
            Seq::empty()
        }));
        lemma_key_index(rules.response_headers@, a.route_key@);
    }
    if let Some(i) = find_key_str(&rules.response_headers, a.route_key.as_str()) {
        let extras = &rules.response_headers[i].1;
        let mut j: usize = 0;
        while j < extras.len()
            invariant
                j <= extras@.len(),
                header_views(headers@) == with_latency + header_views(extras@.subrange(0, j as int)),
            decreases extras.len() - j,
        {
            let ghost before = headers@;
            headers.push((extras[j].0.clone(), extras[j].1.clone()));
            proof {
                assert(header_views(extras@.subrange(0, j + 1)) =~= header_views(extras@.subrange(0, j as int)).push(
                    (extras@[j as int].0@, extras@[j as int].1@),
                ));
                assert(header_views(headers@) =~= header_views(before).push((extras@[j as int].0@, extras@[j as int].1@)));
            }
            j += 1;
        }
        proof {
            assert(extras@.subrange(0, extras@.len() as int) =~= extras@);
        }
    } else {
        proof {
            assert(header_views(headers@) =~= with_latency + Seq::empty());
        }
    }
    let reply_body = if a.strip_body {
        None
    } else {
        Some(payload)
    };
    (e, MockReply { status: plan.status, headers, body: reply_body })
}


/// The example a route serves: with no injected error and no choice in
/// the query, a configured override of kind `k` is honoured whenever the
/// route has an example of that kind (the first such is served); an
/// injected error serves the route's first error example when it has one.
pub proof fn law_override_honoured(
    examples: Seq<crate::canonical::MockExample>,
    rules: MockRules,
    key: Seq<char>,
    k: MockExampleKind,
    j: int,
)
    requires
        0 <= j < examples.len(),
        examples[j].kind == k,
    ensures
        lookup(rules.overrides@, key) == Some(k) ==> (preferred_index(examples, chosen_kind(rules, key, None, false)) matches Some(i)
            && examples[i].kind == k && i <= j),
        k == MockExampleKind::Error ==> (preferred_index(examples, chosen_kind(rules, key, None, true)) matches Some(i)
            && examples[i].kind == MockExampleKind::Error && i <= j),
{
    crate::gateway::route::lemma_example_index(examples, k);
    assert(query_choice(None).0 is None);
}


/// The status a served example gets: a configured status within
/// 100..=599 wins; otherwise an error example is a 400 and any other a 200.
pub proof fn law_served_status(rules: MockRules, key: Seq<char>, kind: MockExampleKind)
    ensures
        ({
            let status = if status_override(rules, key) is Some {
                status_override(rules, key)->0
            } else {
                crate::gateway::handlers::default_status(kind)
            };
            &&& (lookup(rules.status_overrides@, key) matches Some(c) && 100 <= c <= 599) ==> status == lookup(rules.status_overrides@, key)->0
            &&& !(lookup(rules.status_overrides@, key) matches Some(c) && 100 <= c <= 599) ==> status == if kind == MockExampleKind::Error {
                400u16
            } else {
                200u16
            }
        }),
{
}

} // verus!
