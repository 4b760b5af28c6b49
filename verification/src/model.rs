//! The canonical domain model shared by the parser, the gateway and the
//! generation adapter.
use vstd::prelude::*;
use crate::text::{
    chars_of, contains, eq_str, find_of, lemma_find_from, to_upper, trim, trimmed, upper,
};

verus! {

#[derive(Debug, Clone, Copy, PartialEq, Eq, Structural)]
pub enum DeliveryStage {
    Planned,
    Scaffolded,
    Partial,
    NotImplemented,
}

#[derive(Debug, Clone, PartialEq, Eq)]
pub struct CapabilityStatus {
    pub name: String,
    pub stage: DeliveryStage,
    pub note: String,
}

#[derive(Debug, Clone, PartialEq, Eq)]
pub struct AppBootstrapSummary {
    pub project_name: String,
    pub current_phase: String,
    pub ui_surfaces: Vec<String>,
    pub parser_capabilities: Vec<CapabilityStatus>,
    pub storage_capabilities: Vec<CapabilityStatus>,
    pub provider_capabilities: Vec<CapabilityStatus>,
    pub gateway_capabilities: Vec<CapabilityStatus>,
}

#[derive(Debug, Clone, Copy, PartialEq, Eq, Structural)]
pub enum InputSourceKind {
    OpenApi,
    Curl,
}

#[derive(Debug, Clone, Copy, PartialEq, Eq, Structural)]
pub enum HttpMethod {
    Get,
    Post,
    Put,
    Patch,
    Delete,
    Options,
    Head,
}

#[derive(Debug, Clone, Copy, PartialEq, Eq, Structural)]
pub enum AuthScheme {
    HttpBearer,
    HttpBasic,
    ApiKeyHeader,
    OAuth2,
    Other,
}

/// Minimal description of an endpoint's auth expectation.
#[derive(Debug, Clone, PartialEq, Eq)]
pub struct AuthRequirement {
    pub scheme: AuthScheme,
    pub header_name: String,
    pub value_prefix: Option<String>,
    pub description: Option<String>,
}

#[derive(Debug, Clone, Copy, PartialEq, Eq, Structural)]
pub enum ParameterLocation {
    Path,
    Query,
    Header,
    Cookie,
}

#[derive(Debug, Clone, Copy, PartialEq, Eq, Structural)]
pub enum SchemaNodeType {
    Object,
    Array,
    String,
    Integer,
    Number,
    Boolean,
    Null,
    Unknown,
}

#[derive(Debug, Clone, Copy, PartialEq, Eq, Structural)]
pub enum MockExampleKind {
    Success,
    Empty,
    Error,
}

#[derive(Debug, Clone, Copy, PartialEq, Eq, Structural)]
pub enum ProviderApiType {
    OpenAiCompatible,
    AzureOpenAi,
    OpenAiResponses,
    AzureOpenAiResponses,
}

#[derive(Debug, Clone, Copy, PartialEq, Eq, Structural)]
pub enum ProviderReasoningEffort {
    NoReasoning,
    Minimal,
    Low,
    Medium,
    High,
    Xhigh,
}

#[derive(Debug, Clone, PartialEq, Eq)]
pub struct RequestFingerprintError {
    pub message: String,
}

impl Default for ProviderApiType {
    fn default() -> (r: Self)
        ensures
            r == ProviderApiType::OpenAiCompatible,
    {
        ProviderApiType::OpenAiCompatible
    }
}

pub open spec fn reasoning_effort_text(e: ProviderReasoningEffort) -> Seq<char> {
    match e {
        ProviderReasoningEffort::NoReasoning => "none"@,
        ProviderReasoningEffort::Minimal => "minimal"@,
        ProviderReasoningEffort::Low => "low"@,
        ProviderReasoningEffort::Medium => "medium"@,
        ProviderReasoningEffort::High => "high"@,
        ProviderReasoningEffort::Xhigh => "xhigh"@,
    }
}

impl ProviderReasoningEffort {
    pub fn as_str(&self) -> (r: &'static str)
        ensures
            r@ == reasoning_effort_text(*self),
    {
        match self {
            ProviderReasoningEffort::NoReasoning => "none",
            ProviderReasoningEffort::Minimal => "minimal",
            ProviderReasoningEffort::Low => "low",
            ProviderReasoningEffort::Medium => "medium",
            ProviderReasoningEffort::High => "high",
            ProviderReasoningEffort::Xhigh => "xhigh",
        }
    }
}

/// The upper-case wire name of a method.
pub open spec fn method_text(m: HttpMethod) -> Seq<char> {
    match m {
        HttpMethod::Get => "GET"@,
        HttpMethod::Post => "POST"@,
        HttpMethod::Put => "PUT"@,
        HttpMethod::Patch => "PATCH"@,
        HttpMethod::Delete => "DELETE"@,
        HttpMethod::Options => "OPTIONS"@,
        HttpMethod::Head => "HEAD"@,
    }
}

/// The method whose wire name is exactly `s`, if any.
pub open spec fn method_named(s: Seq<char>) -> Option<HttpMethod> {
    if s == "GET"@ {
        Some(HttpMethod::Get)
    } else if s == "POST"@ {
        Some(HttpMethod::Post)
    } else if s == "PUT"@ {
        Some(HttpMethod::Put)
    } else if s == "PATCH"@ {
        Some(HttpMethod::Patch)
    } else if s == "DELETE"@ {
        Some(HttpMethod::Delete)
    } else if s == "OPTIONS"@ {
        Some(HttpMethod::Options)
    } else if s == "HEAD"@ {
        Some(HttpMethod::Head)
    } else {
        None
    }
}

impl HttpMethod {
    pub fn as_str(&self) -> (r: &'static str)
        ensures
            r@ == method_text(*self),
    {
        match self {
            HttpMethod::Get => "GET",
            HttpMethod::Post => "POST",
            HttpMethod::Put => "PUT",
            HttpMethod::Patch => "PATCH",
            HttpMethod::Delete => "DELETE",
            HttpMethod::Options => "OPTIONS",
            HttpMethod::Head => "HEAD",
        }
    }
}

/// The method whose wire name is exactly `name` (case-sensitive).
pub fn method_from_name(name: &[char]) -> (r: Option<HttpMethod>)
    ensures
        r == method_named(name@),
{
    if eq_str(name, "GET") {
        Some(HttpMethod::Get)
    } else if eq_str(name, "POST") {
        Some(HttpMethod::Post)
    } else if eq_str(name, "PUT") {
        Some(HttpMethod::Put)
    } else if eq_str(name, "PATCH") {
        Some(HttpMethod::Patch)
    } else if eq_str(name, "DELETE") {
        Some(HttpMethod::Delete)
    } else if eq_str(name, "OPTIONS") {
        Some(HttpMethod::Options)
    } else if eq_str(name, "HEAD") {
        Some(HttpMethod::Head)
    } else {
        None
    }
}

/// A method name read case-insensitively, ignoring surrounding whitespace, as
/// cached request rows store it.
pub fn method_from_cache_entry(method: &str) -> (r: Option<HttpMethod>)
    ensures
        r == method_named(upper(trim(method@))),
{
    let chars = chars_of(method);
    let t = trimmed(&chars);
    let u = to_upper(&t);
    method_from_name(&u)
}

pub open spec fn source_kind_text(k: InputSourceKind) -> Seq<char> {
    match k {
        InputSourceKind::OpenApi => "openapi"@,
        InputSourceKind::Curl => "curl"@,
    }
}

impl InputSourceKind {
    pub fn as_str(&self) -> (r: &'static str)
        ensures
            r@ == source_kind_text(*self),
    {
        match self {
            InputSourceKind::OpenApi => "openapi",
            InputSourceKind::Curl => "curl",
        }
    }
}

pub open spec fn example_kind_text(k: MockExampleKind) -> Seq<char> {
    match k {
        MockExampleKind::Success => "success"@,
        MockExampleKind::Empty => "empty"@,
        MockExampleKind::Error => "error"@,
    }
}

impl MockExampleKind {
    pub fn as_str(&self) -> (r: &'static str)
        ensures
            r@ == example_kind_text(*self),
    {
        match self {
            MockExampleKind::Success => "success",
            MockExampleKind::Empty => "empty",
            MockExampleKind::Error => "error",
        }
    }
}

pub open spec fn spec_seedable(scheme: AuthScheme) -> bool {
    scheme != AuthScheme::Other
}

impl AuthRequirement {
    /// Whether the requirement maps onto a header rule the gateway can enforce.
    pub fn seedable(&self) -> (r: bool)
        ensures
            r == spec_seedable(self.scheme),
    {
        match self.scheme {
            AuthScheme::HttpBearer | AuthScheme::HttpBasic | AuthScheme::ApiKeyHeader
            | AuthScheme::OAuth2 => true,
            AuthScheme::Other => false,
        }
    }
}

/// The markers whose presence (upper-cased) makes a header sensitive.
pub open spec fn sensitive_header_markers() -> Seq<Seq<char>> {
    seq!["AUTH"@, "TOKEN"@, "SECRET"@, "PASSWORD"@, "COOKIE"@, "API_KEY"@, "APIKEY"@]
}

/// Some marker occurs in `upper_name`.
pub open spec fn has_marker(upper_name: Seq<char>, markers: Seq<Seq<char>>) -> bool {
    exists|i: int| 0 <= i < markers.len() && contains(upper_name, #[trigger] markers[i])
}

/// Whether `markers` holds one that occurs in `upper_name`.
pub fn any_marker(upper_name: &[char], markers: &Vec<&str>) -> (r: bool)
    ensures
        r == exists|i: int| 0 <= i < markers@.len() && contains(upper_name@, #[trigger] markers@[i]@),
{
    let mut i: usize = 0;
    while i < markers.len()
        invariant
            i <= markers.len(),
            forall|j: int| 0 <= j < i ==> !contains(upper_name@, #[trigger] markers@[j]@),
        decreases markers.len() - i,
    {
        let m = chars_of(markers[i]);
        let found = find_of(upper_name, &m);
        proof {
            lemma_find_from(upper_name@, m@, 0);
        }
        if found.is_some() {
            return true;
        }
        i += 1;
    }
    false
}

/// A header is sensitive when its upper-cased name contains one of the
/// credential markers; its value is then redacted from request snapshots.
pub fn is_sensitive_header_name(name: &str) -> (r: bool)
    ensures
        r == has_marker(upper(name@), sensitive_header_markers()),
{
    let chars = chars_of(name);
    let up = to_upper(&chars);
    let markers: Vec<&str> = vec!["AUTH", "TOKEN", "SECRET", "PASSWORD", "COOKIE", "API_KEY", "APIKEY"];
    let r = any_marker(&up, &markers);
    proof {
        assert forall|i: int| 0 <= i < 7 implies #[trigger] markers@[i]@ == sensitive_header_markers()[i] by {
        }
        if r {
            let i = choose|i: int| 0 <= i < markers@.len() && contains(up@, #[trigger] markers@[i]@);
            assert(contains(up@, sensitive_header_markers()[i]));
        }
        if has_marker(upper(name@), sensitive_header_markers()) {
            let i = choose|i: int| 0 <= i < 7 && contains(up@, #[trigger] sensitive_header_markers()[i]);
            assert(contains(up@, markers@[i]@));
        }
    }
    r
}

pub open spec fn spec_is_success_status(code: Seq<char>) -> bool {
    code.len() > 0 && code[0] == '2'
}

pub open spec fn spec_is_error_status(code: Seq<char>) -> bool {
    code.len() > 0 && (code[0] == '4' || code[0] == '5')
}

/// Status codes beginning with `2` are successes.
pub fn is_success_status(code: &str) -> (r: bool)
    ensures
        r == spec_is_success_status(code@),
{
    let c = chars_of(code);
    c.len() > 0 && c[0] == '2'
}

/// Status codes beginning with `4` or `5` are errors.
pub fn is_error_status(code: &str) -> (r: bool)
    ensures
        r == spec_is_error_status(code@),
{
    let c = chars_of(code);
    c.len() > 0 && (c[0] == '4' || c[0] == '5')
}

/// The FNV-1a 64-bit state after absorbing `bytes`.
pub open spec fn fnv1a64_spec(bytes: Seq<u8>) -> u64
    decreases bytes.len(),
{
    if bytes.len() == 0 {
        0xcbf29ce484222325u64
    } else {
        let h = fnv1a64_spec(bytes.drop_last());
        ((h ^ (bytes.last() as u64)) as int * 0x100000001b3int % 0x1_0000_0000_0000_0000int) as u64
    }
}

/// FNV-1a hash over the bytes, used for request fingerprints.
pub fn fnv1a64(bytes: &[u8]) -> (r: u64)
    ensures
        r == fnv1a64_spec(bytes@),
{
    let mut hash: u64 = 0xcbf29ce484222325u64;
    let mut i: usize = 0;
    while i < bytes.len()
        invariant
            i <= bytes.len(),
            hash == fnv1a64_spec(bytes@.subrange(0, i as int)),
        decreases bytes.len() - i,
    {
        let x: u64 = hash ^ (bytes[i] as u64);
        hash = x.wrapping_mul(0x100000001b3u64);
        i += 1;
        assert(bytes@.subrange(0, i as int).drop_last() =~= bytes@.subrange(0, i - 1));
    }
    assert(bytes@.subrange(0, bytes@.len() as int) =~= bytes@);
    hash
}

} // verus!
