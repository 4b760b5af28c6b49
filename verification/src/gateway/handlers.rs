//! What the mock endpoint decides for each request: the method it serves,
//! the route, the header, rate-limit and body gates, the example and status
//! it answers with, the headers it sets and the log entry it records. The
//! HTTP server around it captures the body, sleeps the planned latency and
//! writes the reply.
use vstd::prelude::*;
use crate::assoc::{find_key, key_index, lemma_key_index, lookup};
use vstd::string::StringSliceAdditionalSpecFns;
use crate::gateway::config::RequiredHeader;
use crate::gateway::templating::{TemplateRng, draw, fake_uuid_v4, uuid_draw};
use crate::model::{HttpMethod, MockExampleKind};
use crate::text::{
    append, append_str, chars_eq, chars_of, eq_str, find_char, find_char_of, lemma_find_from, lower, slice,
    split_char, starts_with, starts_with_of, string_of, to_lower, trim, trimmed, hex_fixed,
};

verus! {

/// The method a request line names, when the mock endpoint serves it.
pub open spec fn canonical_method(name: Seq<char>) -> Option<HttpMethod> {
    if name == "GET"@ {
        Some(HttpMethod::Get)
    } else if name == "POST"@ {
        Some(HttpMethod::Post)
    } else if name == "PUT"@ {
        Some(HttpMethod::Put)
    } else if name == "PATCH"@ {
        Some(HttpMethod::Patch)
    } else if name == "DELETE"@ {
        Some(HttpMethod::Delete)
    } else if name == "OPTIONS"@ {
        Some(HttpMethod::Options)
    } else if name == "HEAD"@ {
        Some(HttpMethod::Head)
    } else {
        None
    }
}

/// Maps a request method (as written on the request line) to the canonical
/// one; other methods, `TRACE` among them, are not served.
pub fn http_method_to_canonical(method: &str) -> (r: Option<HttpMethod>)
    ensures
        r == canonical_method(method@),
{
    let m = chars_of(method);
    if eq_str(&m, "GET") {
        Some(HttpMethod::Get)
    } else if eq_str(&m, "POST") {
        Some(HttpMethod::Post)
    } else if eq_str(&m, "PUT") {
        Some(HttpMethod::Put)
    } else if eq_str(&m, "PATCH") {
        Some(HttpMethod::Patch)
    } else if eq_str(&m, "DELETE") {
        Some(HttpMethod::Delete)
    } else if eq_str(&m, "OPTIONS") {
        Some(HttpMethod::Options)
    } else if eq_str(&m, "HEAD") {
        Some(HttpMethod::Head)
    } else {
        None
    }
}

/// All pieces of `s` between occurrences of `sep`, empty ones included.
pub fn split_all(s: &[char], sep: char) -> (r: Vec<Vec<char>>)
    ensures
        r@.len() == split_char(s@, sep).len(),
        forall|i: int| 0 <= i < r@.len() ==> (#[trigger] r@[i])@ == split_char(s@, sep)[i],
{
    let mut out: Vec<Vec<char>> = Vec::new();
    let mut cur: Vec<char> = Vec::new();
    let mut i: usize = 0;
    proof {
        assert(s@.subrange(0, 0) =~= Seq::<char>::empty());
    }
    while i < s.len()
        invariant
            i <= s.len(),
            split_char(s@.subrange(0, i as int), sep).len() == out@.len() + 1,
            forall|j: int| 0 <= j < out@.len() ==> (#[trigger] out@[j])@ == split_char(s@.subrange(0, i as int), sep)[j],
            cur@ == split_char(s@.subrange(0, i as int), sep).last(),
        decreases s.len() - i,
    {
        let ghost pre = s@.subrange(0, i as int);
        let ghost next = s@.subrange(0, i + 1);
        proof {
            assert(next.drop_last() =~= pre);
            crate::text::lemma_split_len(pre, sep);
        }
        if s[i] == sep {
            out.push(cur);
            cur = Vec::new();
        } else {
            cur.push(s[i]);
        }
        i += 1;
    }
    proof {
        assert(s@.subrange(0, s@.len() as int) =~= s@);
    }
    out.push(cur);
    out
}

/// The key of a `key=value` query pair: the text before the first `=`.
pub open spec fn pair_key(p: Seq<char>) -> Seq<char> {
    match find_char(p, '=') {
        Some(i) => p.subrange(0, i),
        None => p,
    }
}

/// The value of a query pair: the text after the first `=`, else empty.
pub open spec fn pair_value(p: Seq<char>) -> Seq<char> {
    match find_char(p, '=') {
        Some(i) => p.subrange(i + 1, p.len() as int),
        None => Seq::empty(),
    }
}

/// What a `__albert_mock` value asks for, and whether the query chose it.
pub open spec fn override_named(v: Seq<char>) -> (Option<MockExampleKind>, bool) {
    if v == "success"@ {
        (Some(MockExampleKind::Success), true)
    } else if v == "empty"@ {
        (Some(MockExampleKind::Empty), true)
    } else if v == "error"@ {
        (Some(MockExampleKind::Error), true)
    } else {
        (None, false)
    }
}

/// The first `__albert_mock` pair decides; with none the query chooses
/// nothing.
pub open spec fn query_override(pairs: Seq<Seq<char>>) -> (Option<MockExampleKind>, bool)
    decreases pairs.len(),
{
    if pairs.len() == 0 {
        (None, false)
    } else if pair_key(pairs[0]) == "__albert_mock"@ {
        override_named(pair_value(pairs[0]))
    } else {
        query_override(pairs.subrange(1, pairs.len() as int))
    }
}

/// Reads the `__albert_mock=<kind>` example selector of a query string:
/// the selected kind and whether the query made the choice.
pub fn parse_query_override(query: Option<&str>) -> (r: (Option<MockExampleKind>, bool))
    ensures
        r == match query {
            None => (None, false),
            Some(q) => query_override(split_char(q@, '&')),
        },
{
    let q = match query {
        None => return (None, false),
        Some(q) => q,
    };
    let chars = chars_of(q);
    let pairs = split_all(&chars, '&');
    let ghost all = split_char(q@, '&');
    let mut i: usize = 0;
    proof {
        assert(all.subrange(0, all.len() as int) =~= all);
    }
    while i < pairs.len()
        invariant
            i <= pairs@.len(),
            pairs@.len() == all.len(),
            all == split_char(q@, '&'),
            query == Some(q),
            forall|j: int| 0 <= j < pairs@.len() ==> (#[trigger] pairs@[j])@ == all[j],
            query_override(all) == query_override(all.subrange(i as int, all.len() as int)),
        decreases pairs.len() - i,
    {
        let ghost rest = all.subrange(i as int, all.len() as int);
        proof {
            assert(rest[0] == all[i as int]);
            assert(rest.subrange(1, rest.len() as int) =~= all.subrange(i + 1, all.len() as int));
        }
        let pair = &pairs[i];
        proof {
            lemma_find_from(pair@, seq!['='], 0);
        }
        let (key, value) = match find_char_of(pair, '=') {
            Some(e) => {
                assert(e < pair.len());
                (slice(pair, 0, e), slice(pair, e + 1, pair.len()))
            },
            None => {
                let k = slice(pair, 0, pair.len());
                assert(k@ =~= pair@);
                (k, Vec::new())
            },
        };
        assert(key@ == pair_key(all[i as int]) && value@ == pair_value(all[i as int]));
        if eq_str(&key, "__albert_mock") {
            let r = if eq_str(&value, "success") {
                (Some(MockExampleKind::Success), true)
            } else if eq_str(&value, "empty") {
                (Some(MockExampleKind::Empty), true)
            } else if eq_str(&value, "error") {
                (Some(MockExampleKind::Error), true)
            } else {
                (None, false)
            };
            assert(r == override_named(value@));
            return r;
        }
        i += 1;
    }
    (None, false)
}

/// Why a request fails one required-header rule, if it does.
pub open spec fn rule_error(rule: RequiredHeader, headers: Seq<(String, String)>) -> Option<Seq<char>> {
    match lookup(headers, lower(rule.name@)) {
        None => Some("missing required header '"@ + rule.name@ + "'"@),
        Some(v) => if rule.value_prefix is Some && !starts_with(v@, rule.value_prefix->0@) {
            Some("header '"@ + rule.name@ + "' must start with '"@ + rule.value_prefix->0@ + "'"@)
        } else if rule.value_equals is Some && v@ != rule.value_equals->0@ {
            Some("header '"@ + rule.name@ + "' does not match expected value"@)
        } else {
            None
        },
    }
}

/// The failure of the first rule, in order, that the headers do not meet.
pub open spec fn rules_error(rules: Seq<RequiredHeader>, headers: Seq<(String, String)>) -> Option<Seq<char>>
    decreases rules.len(),
{
    if rules.len() == 0 {
        None
    } else {
        match rule_error(rules[0], headers) {
            Some(e) => Some(e),
            None => rules_error(rules.subrange(1, rules.len() as int), headers),
        }
    }
}

fn rule_error_of(rule: &RequiredHeader, headers: &Vec<(String, String)>) -> (r: Option<String>)
    ensures
        match r {
            Some(m) => rule_error(*rule, headers@) == Some(m@),
            None => rule_error(*rule, headers@) is None,
        },
{
    let name = chars_of(rule.name.as_str());
    let wanted = to_lower(&name);
    proof {
        lemma_key_index(headers@, wanted@);
    }
    let value = match find_key(headers, &wanted) {
        None => {
            let mut m = chars_of("missing required header '");
            append(&mut m, &name);
            append_str(&mut m, "'");
            return Some(string_of(&m));
        },
        Some(i) => chars_of(headers[i].1.as_str()),
    };
    if let Some(p) = &rule.value_prefix {
        let pc = chars_of(p.as_str());
        if !starts_with_of(&value, &pc) {
            let mut m = chars_of("header '");
            append(&mut m, &name);
            append_str(&mut m, "' must start with '");
            append(&mut m, &pc);
            append_str(&mut m, "'");
            return Some(string_of(&m));
        }
    }
    if let Some(e) = &rule.value_equals {
        let ec = chars_of(e.as_str());
        if !chars_eq(&value, &ec) {
            let mut m = chars_of("header '");
            append(&mut m, &name);
            append_str(&mut m, "' does not match expected value");
            return Some(string_of(&m));
        }
    }
    None
}

/// Checks the required-header rules of a route against the request headers
/// (names lower-cased): the failure of the first rule not met, else `None`.
/// A rule names a header, matched case-insensitively, and may ask that its
/// value start with a prefix and that it equal a value.
pub fn evaluate_required_headers(rules: &Vec<RequiredHeader>, request_headers: &Vec<(String, String)>) -> (r:
    Option<String>)
    ensures
        match r {
            Some(m) => rules_error(rules@, request_headers@) == Some(m@),
            None => rules_error(rules@, request_headers@) is None,
        },
{
    let mut i: usize = 0;
    proof {
        assert(rules@.subrange(0, rules@.len() as int) =~= rules@);
    }
    while i < rules.len()
        invariant
            i <= rules@.len(),
            rules_error(rules@, request_headers@) == rules_error(
                rules@.subrange(i as int, rules@.len() as int),
                request_headers@,
            ),
        decreases rules.len() - i,
    {
        let ghost rest = rules@.subrange(i as int, rules@.len() as int);
        proof {
            assert(rest[0] == rules@[i as int]);
            assert(rest.subrange(1, rest.len() as int) =~= rules@.subrange(i + 1, rules@.len() as int));
        }
        match rule_error_of(&rules[i], request_headers) {
            Some(m) => return Some(m),
            None => {},
        }
        i += 1;
    }
    None
}

/// The first `n` characters of `s` (all of it when shorter).
pub open spec fn take_chars(s: Seq<char>, n: nat) -> Seq<char> {
    if s.len() <= n {
        s
    } else {
        s.subrange(0, n as int)
    }
}

/// The id a client sent: the first `x-request-id` header whose value is not
/// blank, trimmed and cut to 128 characters.
pub open spec fn client_request_id(headers: Seq<(String, String)>) -> Option<Seq<char>>
    decreases headers.len(),
{
    if headers.len() == 0 {
        None
    } else if headers[0].0@ == "x-request-id"@ && trim(headers[0].1@).len() > 0 {
        Some(take_chars(trim(headers[0].1@), 128))
    } else {
        client_request_id(headers.subrange(1, headers.len() as int))
    }
}

/// The correlation id of a request: the client's `x-request-id` when it sent
/// one, else a fresh v4-shaped UUID drawn from `rng`. Never empty.
pub fn resolve_request_id(request_headers: &Vec<(String, String)>, rng: &mut TemplateRng) -> (r: String)
    ensures
        match client_request_id(request_headers@) {
            Some(id) => r@ == id && *final(rng) == *old(rng),
            None => (r@, final(rng).state) == uuid_draw(old(rng).state, old(rng).reseed) && final(rng).reseed
                == old(rng).reseed,
        },
{
    let mut i: usize = 0;
    proof {
        assert(request_headers@.subrange(0, request_headers@.len() as int) =~= request_headers@);
    }
    while i < request_headers.len()
        invariant
            i <= request_headers@.len(),
            *rng == *old(rng),
            client_request_id(request_headers@) == client_request_id(
                request_headers@.subrange(i as int, request_headers@.len() as int),
            ),
        decreases request_headers.len() - i,
    {
        let ghost rest = request_headers@.subrange(i as int, request_headers@.len() as int);
        proof {
            assert(rest[0] == request_headers@[i as int]);
            assert(rest.subrange(1, rest.len() as int) =~= request_headers@.subrange(
                i + 1,
                request_headers@.len() as int,
            ));
        }
        let name = chars_of(request_headers[i].0.as_str());
        if eq_str(&name, "x-request-id") {
            let value = chars_of(request_headers[i].1.as_str());
            let t = trimmed(&value);
            if t.len() > 0 {
                if t.len() > 128 {
                    return string_of(&slice(&t, 0, 128));
                }
                return string_of(&t);
            }
        }
        i += 1;
    }
    let id = fake_uuid_v4(rng);
    string_of(&id)
}

/// The 8-4-4-4-12 shape of a UUID in lower-case hex.
pub open spec fn uuid_shaped(t: Seq<char>) -> bool {
    &&& t.len() == 36
    &&& forall|i: int|
        0 <= i < 36 ==> if i == 8 || i == 13 || i == 18 || i == 23 {
            #[trigger] t[i] == '-'
        } else {
            crate::text::is_lower_hex(t[i])
        }
}

proof fn lemma_client_id_nonempty(headers: Seq<(String, String)>)
    ensures
        client_request_id(headers) matches Some(id) ==> id.len() > 0,
    decreases headers.len(),
{
    if headers.len() > 0 {
        lemma_client_id_nonempty(headers.subrange(1, headers.len() as int));
    }
}

/// A request id is never empty: the client's id is a trimmed, non-blank
/// value, and a drawn one has the 8-4-4-4-12 shape of a UUID in lower-case
/// hex.
pub proof fn law_request_id_shape(headers: Seq<(String, String)>, state: u64, reseed: u64)
    ensures
        client_request_id(headers) matches Some(id) ==> id.len() > 0,
        uuid_shaped(crate::gateway::templating::uuid_draw(state, reseed).0),
{
    lemma_client_id_nonempty(headers);
    let (a, s1) = crate::gateway::templating::draw(state, reseed, 0xFFFFFFFF);
    let (b, s2) = crate::gateway::templating::draw(s1, reseed, 0xFFFF);
    let (c, s3) = crate::gateway::templating::draw(s2, reseed, 0x0FFF);
    let (d, s4) = crate::gateway::templating::draw(s3, reseed, 0x3FFF);
    let (e_hi, s5) = crate::gateway::templating::draw(s4, reseed, 0xFFFF);
    let (e_lo, s6) = crate::gateway::templating::draw(s5, reseed, 0xFFFFFFFF);
    let h1 = hex_fixed(a as nat, 8);
    let h2 = hex_fixed(b as nat, 4);
    let h3 = hex_fixed((c | 0x4000u64) as nat, 4);
    let h4 = hex_fixed(((d | 0x8000u64) & 0xBFFFu64) as nat, 4);
    let h5 = hex_fixed(e_hi as nat, 4);
    let h6 = hex_fixed(e_lo as nat, 8);
    crate::text::lemma_hex_fixed_shape(a as nat, 8);
    crate::text::lemma_hex_fixed_shape(b as nat, 4);
    crate::text::lemma_hex_fixed_shape((c | 0x4000u64) as nat, 4);
    crate::text::lemma_hex_fixed_shape(((d | 0x8000u64) & 0xBFFFu64) as nat, 4);
    crate::text::lemma_hex_fixed_shape(e_hi as nat, 4);
    crate::text::lemma_hex_fixed_shape(e_lo as nat, 8);
    reveal_strlit("-");
    let t = crate::gateway::templating::uuid_draw(state, reseed).0;
    assert(t == h1 + "-"@ + h2 + "-"@ + h3 + "-"@ + h4 + "-"@ + h5 + h6);
    assert forall|i: int| 0 <= i < 36 implies if i == 8 || i == 13 || i == 18 || i == 23 {
        #[trigger] t[i] == '-'
    } else {
        crate::text::is_lower_hex(t[i])
    } by {
        if i < 8 {
            assert(t[i] == h1[i]);
        } else if i == 8 {
        } else if i < 13 {
            assert(t[i] == h2[i - 9]);
        } else if i == 13 {
        } else if i < 18 {
            assert(t[i] == h3[i - 14]);
        } else if i == 18 {
        } else if i < 23 {
            assert(t[i] == h4[i - 19]);
        } else if i == 23 {
        } else if i < 28 {
            assert(t[i] == h5[i - 24]);
        } else {
            assert(t[i] == h6[i - 28]);
        }
    }
}

/// `Retry-After` in whole seconds: the wait rounded up, at least 1.
pub open spec fn retry_after_secs_spec(retry_after_ms: u64) -> u64 {
    let s = (retry_after_ms as int + 999) / 1000;
    if s < 1 {
        1
    } else {
        s as u64
    }
}

pub fn retry_after_secs(retry_after_ms: u64) -> (r: u64)
    ensures
        r == retry_after_secs_spec(retry_after_ms),
        r >= 1,
        r as int * 1000 >= retry_after_ms,
{
    let q = retry_after_ms / 1000;
    let s = if retry_after_ms % 1000 == 0 {
        q
    } else {
        q + 1
    };
    if s < 1 {
        1
    } else {
        s
    }
}

/// The status an example answers with when no override applies.
pub open spec fn default_status(kind: MockExampleKind) -> u16 {
    match kind {
        MockExampleKind::Error => 400,
        _ => 200,
    }
}

/// The status of a reply: a configured override within 100..=599, else the
/// example's default.
pub fn status_for(kind: MockExampleKind, override_status: Option<u16>) -> (r: u16)
    ensures
        r == (if override_status is Some && 100 <= override_status->0 <= 599 {
            override_status->0
        } else {
            default_status(kind)
        }),
{
    match override_status {
        Some(c) if 100 <= c && c <= 599 => c,
        _ => match kind {
            MockExampleKind::Error => 400,
            _ => 200,
        },
    }
}

/// A uniform draw in `[-bound, bound]` from the stream, for latency jitter;
/// 0 (and no draw) when `bound` is 0.
pub open spec fn jitter_draw(state: u64, reseed: u64, bound: u64) -> (i64, u64) {
    if bound == 0 {
        (0, state)
    } else {
        let x = crate::gateway::templating::lcg(if state == 0 {
            reseed
        } else {
            state
        });
        let span: int = if 2 * bound + 1 > u64::MAX {
            u64::MAX as int
        } else {
            2 * bound + 1
        };
        (((x >> 32u64) as int % span - bound) as i64, x)
    }
}

pub fn roll_jitter(bound: u64, rng: &mut TemplateRng) -> (r: i64)
    requires
        bound <= i64::MAX,
    ensures
        (r, final(rng).state) == jitter_draw(old(rng).state, old(rng).reseed, bound),
        final(rng).reseed == old(rng).reseed,
        -(bound as int) <= r <= bound,
{
    if bound == 0 {
        return 0;
    }
    let x = crate::gateway::templating::lcg_next(if rng.state == 0 {
        rng.reseed
    } else {
        rng.state
    });
    rng.state = x;
    let span: u64 = if bound > (u64::MAX - 1) / 2 {
        u64::MAX
    } else {
        2 * bound + 1
    };
    let hi: u64 = x >> 32;
    assert(hi < 0x1_0000_0000) by (bit_vector)
        requires
            hi == x >> 32u64,
    ;
    let pick: u64 = hi % span;
    assert(pick <= hi) by (nonlinear_arith)
        requires
            pick == hi % span,
            span > 0,
    ;
    assert(pick < span);
    assert(pick <= 2 * bound);
    let r: i64 = pick as i64 - bound as i64;
    r
}

/// The high 31 bits of the next draw, for the error-rate coin flip: the
/// caller compares `bits / 2^31` with the configured rate.
pub fn roll_unit_bits(rng: &mut TemplateRng) -> (r: u64)
    ensures
        (r, final(rng).state) == draw(old(rng).state, old(rng).reseed, 0x8000_0000u64),
        final(rng).reseed == old(rng).reseed,
        r < 0x8000_0000,
{
    rng.next_random_int(0x8000_0000)
}

/// How much of a request body the log keeps, in bytes.
pub const MAX_CAPTURED_BODY_BYTES: usize = 4096;

/// What became of a request body: not read, read whole, read and cut at
/// the cap (the text then ends with the truncation marker), or not readable.
#[derive(Debug, Clone, PartialEq)]
pub enum CapturedBody {
    NotCaptured,
    Truncated(String),
    Full(String),
    Failed(String),
}

/// Appended to a body that was cut at the cap.
pub open spec fn truncation_marker() -> Seq<char> {
    "…[truncated]"@
}

impl CapturedBody {
    /// The text logged for the body: the captured text, or a note on why
    /// capture failed.
    pub fn as_string(&self) -> (r: Option<String>)
        ensures
            r matches Some(t) ==> match *self {
                CapturedBody::Truncated(b) => t@ == b@,
                CapturedBody::Full(b) => t@ == b@,
                CapturedBody::Failed(m) => t@ == "<capture failed: "@ + m@ + ">"@,
                CapturedBody::NotCaptured => false,
            },
            r is None <==> *self is NotCaptured,
    {
        match self {
            CapturedBody::NotCaptured => None,
            CapturedBody::Truncated(body) => Some(body.clone()),
            CapturedBody::Full(body) => Some(body.clone()),
            CapturedBody::Failed(msg) => {
                let mut t = chars_of("<capture failed: ");
                append_str(&mut t, msg.as_str());
                append_str(&mut t, ">");
                Some(string_of(&t))
            },
        }
    }

    /// The body text alone, without the truncation marker; `None` when
    /// nothing was captured.
    pub fn raw_bytes_as_str(&self) -> (r: Option<String>)
        ensures
            r matches Some(t) ==> match *self {
                CapturedBody::Full(b) => t@ == b@,
                CapturedBody::Truncated(b) => t@ == if crate::text::ends_with(b@, truncation_marker()) {
                    b@.subrange(0, b@.len() - truncation_marker().len())
                } else {
                    b@
                },
                _ => false,
            },
            r is None <==> (*self is NotCaptured || *self is Failed),
    {
        match self {
            CapturedBody::NotCaptured => None,
            CapturedBody::Failed(_) => None,
            CapturedBody::Full(body) => Some(body.clone()),
            CapturedBody::Truncated(body) => {
                let b = chars_of(body.as_str());
                let marker = chars_of("…[truncated]");
                if crate::text::ends_with_of(&b, &marker) {
                    Some(string_of(&slice(&b, 0, b.len() - marker.len())))
                } else {
                    Some(body.clone())
                }
            },
        }
    }
}

/// What `String::from_utf8_lossy` makes of `bytes`.
pub uninterp spec fn utf8_lossy(bytes: Seq<u8>) -> Seq<char>;

/// `String::from_utf8_lossy`: the text of `bytes`, invalid sequences
/// replaced by U+FFFD. Claimed: the result is a function of the bytes, and
/// valid UTF-8 decodes to its characters.
#[verifier::external_body]
fn lossy_text(bytes: &[u8]) -> (r: String)
    ensures
        r@ == utf8_lossy(bytes@),
        vstd::utf8::valid_utf8(bytes@) ==> r@ == vstd::utf8::decode_utf8(bytes@),
{
    String::from_utf8_lossy(bytes).into_owned()
}

/// The first `n` elements of `v` as a new vector.
fn prefix_bytes(v: &Vec<u8>, n: usize) -> (r: Vec<u8>)
    requires
        n <= v@.len(),
    ensures
        r@ == v@.subrange(0, n as int),
{
    let mut r: Vec<u8> = Vec::new();
    let mut i: usize = 0;
    while i < n
        invariant
            i <= n,
            n <= v@.len(),
            r@ == v@.subrange(0, i as int),
        decreases n - i,
    {
        r.push(v[i]);
        i += 1;
        assert(r@ =~= v@.subrange(0, i as int));
    }
    r
}

/// The capture of a body read in full (up to twice the cap).
pub fn captured_from_bytes(bytes: &Vec<u8>) -> (r: CapturedBody)
    ensures
        bytes@.len() == 0 ==> r is NotCaptured,
        0 < bytes@.len() <= MAX_CAPTURED_BODY_BYTES ==> (r matches CapturedBody::Full(t) && t@ == utf8_lossy(
            bytes@,
        )),
        bytes@.len() > MAX_CAPTURED_BODY_BYTES ==> (r matches CapturedBody::Truncated(t) && t@ == utf8_lossy(
            bytes@.subrange(0, MAX_CAPTURED_BODY_BYTES as int),
        ) + truncation_marker()),
{
    if bytes.len() == 0 {
        return CapturedBody::NotCaptured;
    }
    if bytes.len() > MAX_CAPTURED_BODY_BYTES {
        let head = prefix_bytes(bytes, MAX_CAPTURED_BODY_BYTES);
        let mut t = chars_of(lossy_text(head.as_slice()).as_str());
        append_str(&mut t, "…[truncated]");
        CapturedBody::Truncated(string_of(&t))
    } else {
        CapturedBody::Full(lossy_text(bytes.as_slice()))
    }
}

/// `std::str::from_utf8`: the text of `bytes` when they are valid UTF-8.
#[verifier::external_body]
fn utf8_str(bytes: &[u8]) -> (r: Option<&str>)
    ensures
        r is Some <==> vstd::utf8::valid_utf8(bytes@),
        r matches Some(s) ==> s@ == vstd::utf8::decode_utf8(bytes@),
{
    std::str::from_utf8(bytes).ok()
}

#[verifier::external_type_specification]
#[verifier::external_body]
pub struct ExFromUtf8Error(std::string::FromUtf8Error);

/// `String::from_utf8`: the text of `bytes` when they are valid UTF-8, else
/// the error.
#[verifier::external_body]
fn string_from_utf8(bytes: Vec<u8>) -> (r: Result<String, std::string::FromUtf8Error>)
    ensures
        r is Ok <==> vstd::utf8::valid_utf8(bytes@),
        r matches Ok(s) ==> s@ == vstd::utf8::decode_utf8(bytes@),
{
    String::from_utf8(bytes)
}

/// `ToString::to_string` of a UTF-8 error: its message. Nothing is claimed
/// of the text.
#[verifier::external_body]
fn utf8_error_text(e: &std::string::FromUtf8Error) -> String {
    e.to_string()
}

pub open spec fn hex_value(c: char) -> int {
    if '0' <= c && c <= '9' {
        c as int - 48
    } else if 'a' <= c && c <= 'f' {
        c as int - 87
    } else {
        c as int - 55
    }
}

pub open spec fn is_hex_digit(c: char) -> bool {
    ('0' <= c && c <= '9') || ('a' <= c && c <= 'f') || ('A' <= c && c <= 'F')
}

/// What `u8::from_str_radix(t, 16)` gives for a text of at most two
/// characters: an optional `+` before a non-empty run of hex digits.
pub open spec fn hex_byte(t: Seq<char>) -> Option<u8> {
    let d = if t.len() > 1 && t[0] == '+' {
        t.subrange(1, t.len() as int)
    } else {
        t
    };
    if d.len() == 1 && is_hex_digit(d[0]) {
        Some(hex_value(d[0]) as u8)
    } else if d.len() == 2 && is_hex_digit(d[0]) && is_hex_digit(d[1]) {
        Some((hex_value(d[0]) * 16 + hex_value(d[1])) as u8)
    } else {
        None
    }
}

fn hex_digit_of(c: char) -> (r: Option<u8>)
    ensures
        r is Some <==> is_hex_digit(c),
        r matches Some(v) ==> v == hex_value(c) && v < 16,
{
    if '0' <= c && c <= '9' {
        Some((c as u32 - 48) as u8)
    } else if 'a' <= c && c <= 'f' {
        Some((c as u32 - 87) as u8)
    } else if 'A' <= c && c <= 'F' {
        Some((c as u32 - 55) as u8)
    } else {
        None
    }
}

fn hex_byte_of(t: &[char]) -> (r: Option<u8>)
    requires
        t@.len() <= 2,
    ensures
        r == hex_byte(t@),
{
    let d = if t.len() > 1 && t[0] == '+' {
        slice(t, 1, t.len())
    } else {
        let d = slice(t, 0, t.len());
        assert(d@ =~= t@);
        d
    };
    if d.len() == 1 {
        match hex_digit_of(d[0]) {
            Some(v) => Some(v),
            None => None,
        }
    } else if d.len() == 2 {
        match (hex_digit_of(d[0]), hex_digit_of(d[1])) {
            (Some(a), Some(b)) => Some(a * 16 + b),
            _ => None,
        }
    } else {
        None
    }
}

/// Valid UTF-8 decodes to no more characters than it has bytes.
pub proof fn lemma_decode_len(b: Seq<u8>)
    requires
        vstd::utf8::valid_utf8(b),
    ensures
        vstd::utf8::decode_utf8(b).len() <= b.len(),
    decreases b.len(),
{
    if b.len() > 0 {
        let l = vstd::utf8::length_of_first_scalar(b);
        assert(1 <= l <= b.len());
        let p = vstd::utf8::pop_first_scalar(b);
        assert(p.len() == b.len() - l);
        lemma_decode_len(p);
    }
}

/// One step of percent-decoding: the bytes produced so far, or the error.
pub open spec fn percent_decode(bytes: Seq<u8>, i: int, out: Seq<u8>) -> Result<Seq<u8>, Seq<char>>
    decreases bytes.len() - i,
{
    if i < 0 || i >= bytes.len() {
        Ok(out)
    } else if bytes[i] == 37 && i + 2 < bytes.len() {
        let pair = bytes.subrange(i + 1, i + 3);
        if !vstd::utf8::valid_utf8(pair) {
            Err("invalid percent escape"@)
        } else {
            match hex_byte(vstd::utf8::decode_utf8(pair)) {
                None => Err("bad hex"@),
                Some(b) => percent_decode(bytes, i + 3, out.push(b)),
            }
        }
    } else if bytes[i] == 43 {
        percent_decode(bytes, i + 1, out.push(32))
    } else {
        percent_decode(bytes, i + 1, out.push(bytes[i]))
    }
}

/// Decodes a query value: `%XY` escapes (when two more bytes follow the
/// `%`) become the byte `XY`, `+` becomes a space, and the result must be
/// UTF-8. Errors: an escape that is not two hex digits, or bytes that are
/// not UTF-8 (the message then comes from the UTF-8 check).
pub fn urldecode(input: &str) -> (r: Result<String, String>)
    ensures
        match percent_decode(input.spec_bytes(), 0, Seq::empty()) {
            Err(m) => r matches Err(e) && e@ == m,
            Ok(out) => if vstd::utf8::valid_utf8(out) {
                r matches Ok(s) && s@ == vstd::utf8::decode_utf8(out)
            } else {
                r is Err
            },
        },
{
    let bytes = input.as_bytes();
    let mut out: Vec<u8> = Vec::new();
    let mut i: usize = 0;
    while i < bytes.len()
        invariant
            i <= bytes@.len(),
            bytes@ == input.spec_bytes(),
            percent_decode(bytes@, 0, Seq::empty()) == percent_decode(bytes@, i as int, out@),
        decreases bytes.len() - i,
    {
        let b = bytes[i];
        if b == 37 && bytes.len() > 2 && i < bytes.len() - 2 {
            let pair: Vec<u8> = vec![bytes[i + 1], bytes[i + 2]];
            assert(pair@ =~= bytes@.subrange(i + 1, i + 3));
            let hex = match utf8_str(pair.as_slice()) {
                None => return Err(string_of(&chars_of("invalid percent escape"))),
                Some(h) => h,
            };
            let hc = chars_of(hex);
            proof {
                lemma_decode_len(pair@);
            }
            match hex_byte_of(&hc) {
                None => return Err(string_of(&chars_of("bad hex"))),
                Some(v) => {
                    out.push(v);
                    i += 3;
                },
            }
        } else if b == 43 {
            out.push(32);
            i += 1;
        } else {
            out.push(b);
            i += 1;
        }
    }
    match string_from_utf8(out) {
        Ok(s) => Ok(s),
        Err(e) => Err(utf8_error_text(&e)),
    }
}

} // verus!
