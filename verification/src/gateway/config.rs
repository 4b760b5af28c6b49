//! Gateway rule and status types.
use vstd::prelude::*;
use crate::model::{CapabilityStatus, DeliveryStage, HttpMethod, MockExampleKind};
use crate::text::{append_str, chars_of, find_char, find_char_of, slice, string_of};

verus! {

/// At most `limit` requests per `window_ms` milliseconds; `limit == 0`
/// denies every request.
#[derive(Debug, Clone, Copy, PartialEq, Eq)]
pub struct RateLimitRule {
    pub limit: u32,
    pub window_ms: u64,
}

/// A header-presence or header-value requirement. `name` is matched
/// case-insensitively; a set `value_prefix` and a set `value_equals` must
/// both hold.
#[derive(Debug, Clone, PartialEq, Eq)]
pub struct RequiredHeader {
    pub name: String,
    pub value_prefix: Option<String>,
    pub value_equals: Option<String>,
}

#[derive(Debug, Clone, PartialEq, Eq)]
pub struct GatewayRouteSummary {
    pub method: HttpMethod,
    pub path: String,
    pub collection_name: String,
    pub operation_id: Option<String>,
    pub summary: Option<String>,
    pub selected_example: Option<MockExampleKind>,
    pub available_examples: Vec<MockExampleKind>,
    pub latency_ms: Option<u64>,
}

#[verifier::external_type_specification]
#[verifier::external_body]
pub struct ExIoError(std::io::Error);

#[derive(Debug)]
pub enum GatewayError {
    AlreadyRunning,
    NotRunning,
    Bind { addr: String, source: std::io::Error },
    JoinPanic(String),
    InvalidConfig(String),
}

/// The example kinds a route can serve, in selection order.
pub fn supported_example_kinds() -> (r: Vec<MockExampleKind>)
    ensures
        r@ == seq![MockExampleKind::Success, MockExampleKind::Empty, MockExampleKind::Error],
{
    let r = vec![MockExampleKind::Success, MockExampleKind::Empty, MockExampleKind::Error];
    assert(r@ =~= seq![MockExampleKind::Success, MockExampleKind::Empty, MockExampleKind::Error]);
    r
}

/// The gateway's capability notes.
pub fn planned_capabilities() -> (r: Vec<CapabilityStatus>)
    ensures
        r@.len() == 3,
        r@[0].name@ == "Static mock states"@,
        r@[1].name@ == "Route matching"@,
        r@[2].name@ == "HTTP listener"@,
        forall|i: int| 0 <= i < 3 ==> (#[trigger] r@[i]).stage == DeliveryStage::Partial,
        r@[0].note@ == "Success, empty, and error examples are selected per request via override or query param."@,
        r@[1].note@ == "Matches by HTTP method and path template with `{param}` placeholders."@,
        r@[2].note@ == "Axum + hyper server with graceful shutdown, permissive CORS, and latency injection."@,
{
    vec![
        CapabilityStatus {
            name: "Static mock states".to_string(),
            stage: DeliveryStage::Partial,
            note: "Success, empty, and error examples are selected per request via override or query param.".to_string(),
        },
        CapabilityStatus {
            name: "Route matching".to_string(),
            stage: DeliveryStage::Partial,
            note: "Matches by HTTP method and path template with `{param}` placeholders.".to_string(),
        },
        CapabilityStatus {
            name: "HTTP listener".to_string(),
            stage: DeliveryStage::Partial,
            note: "Axum + hyper server with graceful shutdown, permissive CORS, and latency injection.".to_string(),
        },
    ]
}

/// The version that exported configuration bundles carry.
pub fn current_bundle_version() -> (r: &'static str)
    ensures
        r@ == "1.0"@,
{
    "1.0"
}

/// The major part of a `major.minor` version: the text before the first
/// dot, all of it when there is none.
pub open spec fn major_part(v: Seq<char>) -> Seq<char> {
    match find_char(v, '.') {
        Some(i) => v.subrange(0, i),
        None => v,
    }
}

/// Whether a bundle of `version` can be applied to this gateway: its major
/// part must equal that of the current version (minor versions only add
/// fields). When it cannot, the error names both versions.
pub fn check_bundle_version(version: &str) -> (r: Result<(), String>)
    ensures
        (r is Ok) == (major_part(version@) == major_part("1.0"@)),
        r matches Err(m) ==> m@ == "bundle version "@ + version@ + " is not compatible with gateway "@ + "1.0"@,
{
    let v = chars_of(version);
    let cur = chars_of(current_bundle_version());
    proof {
        crate::text::lemma_find_from(v@, seq!['.'], 0);
        crate::text::lemma_find_from(cur@, seq!['.'], 0);
    }
    let major = match find_char_of(&v, '.') {
        Some(i) => slice(&v, 0, i),
        None => slice(&v, 0, v.len()),
    };
    let expected = match find_char_of(&cur, '.') {
        Some(i) => slice(&cur, 0, i),
        None => slice(&cur, 0, cur.len()),
    };
    proof {
        assert(v@.subrange(0, v@.len() as int) =~= v@);
        assert(cur@.subrange(0, cur@.len() as int) =~= cur@);
        assert(major@ == major_part(v@));
        assert(expected@ == major_part(cur@));
        assert(cur@ == "1.0"@);
    }
    if crate::text::chars_eq(&major, &expected) {
        assert(major_part(version@) =~= major_part("1.0"@));
        Ok(())
    } else {
        let mut m = chars_of("bundle version ");
        append_str(&mut m, version);
        append_str(&mut m, " is not compatible with gateway ");
        append_str(&mut m, current_bundle_version());
        Err(string_of(&m))
    }
}

} // verus!
