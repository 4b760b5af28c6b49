//! The desktop shell's own logic: the argument and result shapes of its
//! commands, provider-setting clean-up, key-status and probe messages,
//! payload checks, hand-edited examples, fetched sources and the import
//! diff.
pub mod diff;

use vstd::prelude::*;
use crate::canonical::{CanonicalEndpoint, MockExample, SchemaNode};
use crate::json::{JsonValue, json_clone, view_json};
use crate::model::{MockExampleKind, method_text, HttpMethod};
use crate::openai::{OpenAiError, openai_error_text};
use crate::synth::synthesize_value;
use crate::text::{append, append_str, chars_of, decimal, decimal_of, string_of, trim, trimmed};
use crate::validate::{errors_at, msgs, validate_value};

verus! {

/// The database the desktop shell uses when none is given.
pub fn default_database_url() -> (r: String)
    ensures
        r@ == "albert.db"@,
{
    "albert.db".to_string()
}

/// The methods the shell offers, in menu order.
pub fn supported_http_methods() -> (r: Vec<&'static str>)
    ensures
        r@.len() == 7,
        r@[0]@ == method_text(HttpMethod::Get),
        r@[1]@ == method_text(HttpMethod::Post),
        r@[2]@ == method_text(HttpMethod::Put),
        r@[3]@ == method_text(HttpMethod::Patch),
        r@[4]@ == method_text(HttpMethod::Delete),
        r@[5]@ == method_text(HttpMethod::Options),
        r@[6]@ == method_text(HttpMethod::Head),
{
    vec![
        HttpMethod::Get.as_str(),
        HttpMethod::Post.as_str(),
        HttpMethod::Put.as_str(),
        HttpMethod::Patch.as_str(),
        HttpMethod::Delete.as_str(),
        HttpMethod::Options.as_str(),
        HttpMethod::Head.as_str(),
    ]
}

#[derive(Debug, Clone)]
pub struct ListRequestCacheArgs {
    pub collection_id: String,
    pub method: String,
    pub path: String,
    pub limit: Option<usize>,
    pub database_url: Option<String>,
}

#[derive(Debug, Clone)]
pub struct DeleteRequestCacheArgs {
    pub collection_id: String,
    pub method: String,
    pub path: String,
    pub cache_id: String,
    pub database_url: Option<String>,
}

#[derive(Debug, Clone)]
pub struct DeleteStaleRequestCacheArgs {
    pub collection_id: String,
    pub method: String,
    pub path: String,
    pub stale_before_epoch_seconds: u64,
    pub database_url: Option<String>,
}

#[derive(Debug, Clone)]
pub struct FetchArgs {
    pub url: String,
}

/// A source fetched for import: where it came from, its content type, its
/// text and a name suggested by its URL.
#[derive(Debug, Clone)]
pub struct FetchedSource {
    pub url: String,
    pub content_type: Option<String>,
    pub body: String,
    pub suggested_name: Option<String>,
}

#[derive(Debug, Clone)]
pub struct SaveScenarioArgs {
    pub name: String,
    pub database_url: Option<String>,
}

#[derive(Debug, Clone)]
pub struct LoadScenarioArgs {
    pub name: String,
    pub database_url: Option<String>,
}

#[derive(Debug, Clone)]
pub struct DeleteScenarioArgs {
    pub name: String,
    pub database_url: Option<String>,
}

#[derive(Debug, Clone)]
pub struct RenameScenarioArgs {
    pub old_name: String,
    pub new_name: String,
    pub database_url: Option<String>,
}

/// The outcome of a provider probe.
#[derive(Debug, Clone)]
pub struct TestConnectionResult {
    pub ok: bool,
    pub message: String,
    pub status: Option<u16>,
}

/// Whether a provider's key is available, and how that is described.
#[derive(Debug, Clone)]
pub struct ProviderEnvStatus {
    pub env_var: String,
    pub env_present: bool,
    pub override_present: bool,
    pub usable: bool,
    pub message: String,
}

/// The payload check's verdict.
#[derive(Debug, Clone)]
pub struct ValidateMockPayloadResult {
    pub valid: bool,
    pub errors: Vec<String>,
}

pub open spec fn trimmed_opt(o: Option<String>) -> Option<Seq<char>> {
    match o {
        Some(v) => if trim(v@).len() > 0 {
            Some(trim(v@))
        } else {
            None
        },
        None => None,
    }
}

/// An optional setting, trimmed; blank counts as unset.
pub fn trim_optional(value: Option<String>) -> (r: Option<String>)
    ensures
        match trimmed_opt(value) {
            Some(t) => r matches Some(s) && s@ == t,
            None => r is None,
        },
{
    match value {
        Some(v) => {
            let t = trimmed(&chars_of(v.as_str()));
            if t.len() > 0 {
                Some(string_of(&t))
            } else {
                None
            }
        },
        None => None,
    }
}

/// An output-token cap is kept only above zero.
pub fn normalize_max_output_tokens(value: Option<u32>) -> (r: Option<u32>)
    ensures
        r == (match value {
            Some(n) => if n > 0 {
                Some(n)
            } else {
                None
            },
            None => None,
        }),
{
    match value {
        Some(n) => if n > 0 {
            Some(n)
        } else {
            None
        },
        None => None,
    }
}

/// A repair-attempt count is capped at five.
pub fn normalize_schema_repair_attempts(value: Option<u8>) -> (r: Option<u8>)
    ensures
        r == (match value {
            Some(n) => Some(if n <= 5 { n } else { 5u8 }),
            None => None,
        }),
{
    match value {
        Some(n) => Some(if n <= 5 { n } else { 5 }),
        None => None,
    }
}

/// The key status of a provider: its variable (trimmed), whether the
/// variable holds a non-blank value, whether a non-blank session key is
/// given, and a message saying which is used. `env_value` is what the
/// process environment holds under that variable.
pub open spec fn env_status_spec(env_var: Seq<char>, override_key: Option<Seq<char>>, env_value: Option<Seq<char>>) -> (Seq<char>, bool, bool, Seq<char>) {
    let var = trim(env_var);
    let override_present = match override_key {
        Some(k) => trim(k).len() > 0,
        None => false,
    };
    let env_present = var.len() > 0 && match env_value {
        Some(v) => trim(v).len() > 0,
        None => false,
    };
    let message = if override_present {
        "Session API key override is active."@
    } else if env_present {
        var + " is present in the Tauri backend environment."@
    } else if var.len() == 0 {
        "No API key environment variable is configured."@
    } else {
        var + " is not set in the Tauri backend environment."@
    };
    (var, env_present, override_present, message)
}

pub open spec fn opt_text(o: Option<&str>) -> Option<Seq<char>> {
    match o {
        Some(s) => Some(s@),
        None => None,
    }
}

pub open spec fn opt_string(o: Option<String>) -> Option<Seq<char>> {
    match o {
        Some(s) => Some(s@),
        None => None,
    }
}

/// The key status (see `env_status_spec`); usable when either key is there.
pub fn provider_env_status(api_key_env: &str, api_key_override: Option<&str>, env_value: Option<String>) -> (r: ProviderEnvStatus)
    ensures
        ({
            let s = env_status_spec(api_key_env@, opt_text(api_key_override), opt_string(env_value));
            &&& r.env_var@ == s.0
            &&& r.env_present == s.1
            &&& r.override_present == s.2
            &&& r.usable == (s.1 || s.2)
            &&& r.message@ == s.3
        }),
{
    let var = trimmed(&chars_of(api_key_env));
    let override_present = match api_key_override {
        Some(k) => trimmed(&chars_of(k)).len() > 0,
        None => false,
    };
    let env_present = var.len() > 0 && match &env_value {
        Some(v) => trimmed(&chars_of(v.as_str())).len() > 0,
        None => false,
    };
    let message = if override_present {
        chars_of("Session API key override is active.")
    } else if env_present {
        let mut m = var.clone();
        append_str(&mut m, " is present in the Tauri backend environment.");
        m
    } else if var.len() == 0 {
        chars_of("No API key environment variable is configured.")
    } else {
        let mut m = var.clone();
        append_str(&mut m, " is not set in the Tauri backend environment.");
        m
    };
    ProviderEnvStatus {
        env_var: string_of(&var),
        env_present,
        override_present,
        usable: override_present || env_present,
        message: string_of(&message),
    }
}

/// The endpoint a connection probe asks about.
pub fn probe_endpoint() -> (r: CanonicalEndpoint)
    ensures
        r.operation_id matches Some(o) && o@ == "test"@,
        r.method == HttpMethod::Get,
        r.path@ == "/ping"@,
        r.summary matches Some(s) && s@ == "connectivity probe"@,
        r.description is None,
        r.tags@.len() == 0,
        r.parameters@.len() == 0,
        r.request_body is None,
        r.responses@.len() == 0,
        r.examples@.len() == 0,
        r.auth is None,
{
    CanonicalEndpoint {
        operation_id: Some("test".to_string()),
        method: HttpMethod::Get,
        path: "/ping".to_string(),
        summary: Some("connectivity probe".to_string()),
        description: None,
        tags: Vec::new(),
        parameters: Vec::new(),
        request_body: None,
        responses: Vec::new(),
        examples: Vec::new(),
        auth: None,
    }
}

/// The probe's verdict from the call's outcome: reachable, an HTTP status
/// and body from the provider, or the error's message.
pub fn connection_result(outcome: &Result<(), OpenAiError>) -> (r: TestConnectionResult)
    ensures
        match outcome {
            Ok(()) => r.ok && r.message@ == "Provider reachable and returned valid JSON."@ && r.status == Some(200u16),
            Err(OpenAiError::Provider { status, body }) => !r.ok && r.status == Some(*status) && r.message@ == "HTTP "@
                + decimal(*status as nat) + ": "@ + body@,
            Err(e) => !r.ok && r.status is None && r.message@ == openai_error_text(*e),
        },
{
    match outcome {
        Ok(()) => TestConnectionResult {
            ok: true,
            message: "Provider reachable and returned valid JSON.".to_string(),
            status: Some(200),
        },
        Err(OpenAiError::Provider { status, body }) => {
            let mut m = chars_of("HTTP ");
            append(&mut m, &decimal_of(*status as u64));
            append_str(&mut m, ": ");
            append_str(&mut m, body.as_str());
            TestConnectionResult { ok: false, message: string_of(&m), status: Some(*status) }
        },
        Err(e) => TestConnectionResult { ok: false, message: e.message(), status: None },
    }
}

/// A candidate payload and the schema it is held to.
#[derive(Debug)]
pub struct ValidateMockPayloadArgs {
    pub schema: SchemaNode,
    pub payload: JsonValue,
}

/// A payload checked against a schema with the canonical validator: valid
/// exactly when no problem is found, and every problem listed.
pub fn validate_mock_payload(args: ValidateMockPayloadArgs) -> (r: ValidateMockPayloadResult)
    ensures
        msgs(r.errors@) == errors_at(args.schema, args.payload, "$"@),
        r.valid == (errors_at(args.schema, args.payload, "$"@).len() == 0),
{
    let errors = validate_value(&args.schema, &args.payload);
    assert(msgs(errors@).len() == errors@.len());
    ValidateMockPayloadResult { valid: errors.len() == 0, errors }
}

/// A sample request body for an endpoint, `null` when it declares none.
pub fn synthesize_request_body(endpoint: &CanonicalEndpoint) -> (r: JsonValue)
    ensures
        match endpoint.request_body {
            Some(b) => view_json(r) == crate::synth::synth_spec(b.schema, None, crate::synth::SynthMode::Rich),
            None => r == JsonValue::Null,
        },
{
    match &endpoint.request_body {
        Some(b) => synthesize_value(&b.schema),
        None => JsonValue::Null,
    }
}

pub open spec fn kind_title(k: MockExampleKind) -> Seq<char> {
    match k {
        MockExampleKind::Success => "Success"@,
        MockExampleKind::Empty => "Empty"@,
        MockExampleKind::Error => "Error"@,
    }
}

/// A hand-edited example: the given title or the kind's name, and the given
/// note or `Hand-edited`.
pub fn hand_edited_example(kind: MockExampleKind, title: Option<String>, payload: JsonValue, note: Option<String>) -> (r: MockExample)
    ensures
        r.kind == kind,
        r.title@ == (match title {
            Some(t) => t@,
            None => kind_title(kind),
        }),
        view_json(r.payload) == view_json(payload),
        r.note matches Some(n) && n@ == (match note {
            Some(t) => t@,
            None => "Hand-edited"@,
        }),
{
    let title = match title {
        Some(t) => t,
        None => match kind {
            MockExampleKind::Success => "Success".to_string(),
            MockExampleKind::Empty => "Empty".to_string(),
            MockExampleKind::Error => "Error".to_string(),
        },
    };
    let note = match note {
        Some(n) => n,
        None => "Hand-edited".to_string(),
    };
    MockExample { kind, title, payload, note: Some(note) }
}

} // verus!
