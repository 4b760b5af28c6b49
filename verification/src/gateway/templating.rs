//! Template substitution for mock payloads.
//!
//! Tokens are delimited by `{{ }}` and expanded in every string leaf of a
//! JSON value; other values pass through unchanged. Unknown tokens stay in
//! place. Supported tokens: `{{now}}` (RFC 3339 UTC), `{{now.epoch_ms}}`,
//! `{{uuid}}`, `{{random.int}}` (below 1 000 000), `{{random.int.<max>}}`
//! (below `max`, at least 1), `{{path.<name>}}` (the matched path
//! parameter, empty when absent) and `{{env.<NAME>}}` (the variable's value,
//! empty for unset or credential-like names).
use vstd::prelude::*;
use crate::assoc::{find_key, key_index, lemma_key_index, lookup};
use crate::gateway::calendar::{civil_to_days, rfc3339_of, rfc3339_text, valid_date};
use crate::json::{JsonSpec, JsonValue, lemma_view_entries, lemma_view_items, number_clone, view_entries, view_items, view_json};
use crate::model::{any_marker, has_marker};
use crate::text::{
    occurs_at,
    append, chars_eq, chars_of, decimal, decimal_of, decimal_of_u128, eq_str, find, find_of,
    hex_fixed, hex_fixed_of, lemma_find_from, parse_u64, parse_u64_of, slice, starts_with,
    starts_with_of, string_of, to_upper, trim, trimmed, upper,
};

verus! {

/// The credential markers that keep an environment variable out of payloads.
pub open spec fn sensitive_env_markers() -> Seq<Seq<char>> {
    seq![
        "SECRET"@,
        "PASSWORD"@,
        "PRIVATE_KEY"@,
        "API_KEY"@,
        "APIKEY"@,
        "TOKEN"@,
        "COOKIE"@,
        "AUTH"@,
        "CREDENTIAL"@,
    ]
}

/// A variable whose upper-cased name contains a credential marker is never
/// substituted into a payload.
pub fn is_sensitive_env_name(name: &str) -> (r: bool)
    ensures
        r == has_marker(upper(name@), sensitive_env_markers()),
{
    let chars = chars_of(name);
    let up = to_upper(&chars);
    let markers: Vec<&str> = vec![
        "SECRET",
        "PASSWORD",
        "PRIVATE_KEY",
        "API_KEY",
        "APIKEY",
        "TOKEN",
        "COOKIE",
        "AUTH",
        "CREDENTIAL",
    ];
    let r = any_marker(&up, &markers);
    proof {
        assert forall|i: int| 0 <= i < 9 implies #[trigger] markers@[i]@ == sensitive_env_markers()[i] by {}
        if r {
            let i = choose|i: int| 0 <= i < markers@.len() && crate::text::contains(up@, #[trigger] markers@[i]@);
            assert(crate::text::contains(up@, sensitive_env_markers()[i]));
        }
        if has_marker(upper(name@), sensitive_env_markers()) {
            let i = choose|i: int| 0 <= i < 9 && crate::text::contains(up@, #[trigger] sensitive_env_markers()[i]);
            assert(crate::text::contains(up@, markers@[i]@));
        }
    }
    r
}

/// One step of the payload generator: `x * 6364136223846793005 + 1 mod 2^64`.
pub open spec fn lcg(x: u64) -> u64 {
    ((x as int * 6364136223846793005int + 1) % 0x1_0000_0000_0000_0000int) as u64
}

/// The pseudo-random stream used by `{{uuid}}` and `{{random.int}}`. A zero
/// state is replaced by `reseed` before stepping.
#[derive(Debug, Clone, Copy, PartialEq, Eq)]
pub struct TemplateRng {
    pub state: u64,
    pub reseed: u64,
}

/// `(value, next state)` of one draw below `bound` (0 when `bound == 0`).
pub open spec fn draw(state: u64, reseed: u64, bound: u64) -> (u64, u64) {
    let x = lcg(if state == 0 {
        reseed
    } else {
        state
    });
    (if bound == 0 {
        0
    } else {
        ((x >> 33u64) % bound) as u64
    }, x)
}

/// One step of the generator.
pub fn lcg_next(x: u64) -> (r: u64)
    ensures
        r == lcg(x),
{
    let r = x.wrapping_mul(6_364_136_223_846_793_005u64).wrapping_add(1);
    proof {
        assert(((x as int * 6364136223846793005int) % 0x1_0000_0000_0000_0000int + 1)
            % 0x1_0000_0000_0000_0000int == (x as int * 6364136223846793005int + 1)
            % 0x1_0000_0000_0000_0000int) by (nonlinear_arith);
    }
    r
}

impl TemplateRng {
    pub fn next_random_int(&mut self, bound: u64) -> (v: u64)
        ensures
            (v, final(self).state) == draw(old(self).state, old(self).reseed, bound),
            final(self).reseed == old(self).reseed,
            bound > 0 ==> v < bound,
    {
        let x = lcg_next(if self.state == 0 {
            self.reseed
        } else {
            self.state
        });
        self.state = x;
        if bound == 0 {
            return 0;
        }
        (x >> 33) % bound
    }
}

/// `(text, next state)` of a v4-shaped UUID drawn from the stream.
pub open spec fn uuid_draw(state: u64, reseed: u64) -> (Seq<char>, u64) {
    let (a, s1) = draw(state, reseed, 0xFFFFFFFF);
    let (b, s2) = draw(s1, reseed, 0xFFFF);
    let (c, s3) = draw(s2, reseed, 0x0FFF);
    let (d, s4) = draw(s3, reseed, 0x3FFF);
    let (e_hi, s5) = draw(s4, reseed, 0xFFFF);
    let (e_lo, s6) = draw(s5, reseed, 0xFFFFFFFF);
    (hex_fixed(a as nat, 8) + "-"@ + hex_fixed(b as nat, 4) + "-"@ + hex_fixed((c | 0x4000u64) as nat, 4)
        + "-"@ + hex_fixed(((d | 0x8000u64) & 0xBFFFu64) as nat, 4) + "-"@ + hex_fixed(e_hi as nat, 4)
        + hex_fixed(e_lo as nat, 8), s6)
}

/// A lower-case v4-shaped UUID (version nibble 4, variant bits 10).
pub fn fake_uuid_v4(rng: &mut TemplateRng) -> (r: Vec<char>)
    ensures
        (r@, final(rng).state) == uuid_draw(old(rng).state, old(rng).reseed),
        final(rng).reseed == old(rng).reseed,
{
    let a = rng.next_random_int(0xFFFFFFFF);
    let b = rng.next_random_int(0xFFFF);
    let c = rng.next_random_int(0x0FFF) | 0x4000;
    let d = (rng.next_random_int(0x3FFF) | 0x8000) & 0xBFFF;
    let e_hi = rng.next_random_int(0xFFFF);
    let e_lo = rng.next_random_int(0xFFFFFFFF);
    let mut out = hex_fixed_of(a, 8);
    crate::text::append_str(&mut out, "-");
    append(&mut out, &hex_fixed_of(b, 4));
    crate::text::append_str(&mut out, "-");
    append(&mut out, &hex_fixed_of(c, 4));
    crate::text::append_str(&mut out, "-");
    append(&mut out, &hex_fixed_of(d, 4));
    crate::text::append_str(&mut out, "-");
    append(&mut out, &hex_fixed_of(e_hi, 4));
    append(&mut out, &hex_fixed_of(e_lo, 8));
    out
}

/// The value of a path parameter: the last binding of `name`.
pub open spec fn param_value(params: Seq<(String, String)>, name: Seq<char>) -> Option<Seq<char>>
    decreases params.len(),
{
    if params.len() == 0 {
        None
    } else if params.last().0@ == name {
        Some(params.last().1@)
    } else {
        param_value(params.drop_last(), name)
    }
}

pub fn param_value_of(params: &Vec<(String, String)>, name: &[char]) -> (r: Option<Vec<char>>)
    ensures
        match r {
            Some(v) => param_value(params@, name@) == Some(v@),
            None => param_value(params@, name@) is None,
        },
{
    let mut i: usize = params.len();
    assert(params@.subrange(0, params@.len() as int) =~= params@);
    while i > 0
        invariant
            i <= params@.len(),
            param_value(params@, name@) == param_value(params@.subrange(0, i as int), name@),
        decreases i,
    {
        proof {
            assert(params@.subrange(0, i as int).drop_last() =~= params@.subrange(0, i - 1));
        }
        let k = chars_of(params[i - 1].0.as_str());
        if chars_eq(&k, name) {
            return Some(chars_of(params[i - 1].1.as_str()));
        }
        i -= 1;
    }
    proof {
        assert(params@.subrange(0, 0) =~= Seq::<(String, String)>::empty());
    }
    None
}

/// The text an `{{env.NAME}}` token expands to: empty for a blank or
/// credential-like name or an unset variable, else the variable's value.
pub open spec fn env_text(env: Seq<(String, String)>, name: Seq<char>) -> Seq<char> {
    if trim(name).len() == 0 {
        Seq::empty()
    } else if has_marker(upper(name), sensitive_env_markers()) {
        Seq::empty()
    } else {
        match lookup(env, name) {
            Some(v) => v@,
            None => Seq::empty(),
        }
    }
}

pub fn read_env_var(env: &Vec<(String, String)>, name: &[char]) -> (r: Vec<char>)
    ensures
        r@ == env_text(env@, name@),
{
    let t = trimmed(name);
    if t.len() == 0 {
        return Vec::new();
    }
    let ns = string_of(name);
    if is_sensitive_env_name(ns.as_str()) {
        return Vec::new();
    }
    proof {
        lemma_key_index(env@, name@);
    }
    match find_key(env, name) {
        Some(i) => chars_of(env[i].1.as_str()),
        None => Vec::new(),
    }
}

/// Everything a template expansion reads besides the payload: the current
/// time as RFC 3339 text and as epoch milliseconds text, a snapshot of the
/// environment and the random stream.
pub struct TemplateContext {
    pub now_text: String,
    pub now_ms_text: String,
    pub env: Vec<(String, String)>,
    pub rng: TemplateRng,
}

/// The part of a context that an expansion reads but never changes.
pub struct TemplateInputs {
    pub now: Seq<char>,
    pub now_ms: Seq<char>,
    pub env: Seq<(String, String)>,
    pub reseed: u64,
}

impl TemplateContext {
    pub open spec fn inputs(self) -> TemplateInputs {
        TemplateInputs { now: self.now_text@, now_ms: self.now_ms_text@, env: self.env@, reseed: self.rng.reseed }
    }
}

#[verifier::external_type_specification]
#[verifier::external_body]
pub struct ExSystemTime(std::time::SystemTime);

#[verifier::external_type_specification]
#[verifier::external_body]
pub struct ExSystemTimeError(std::time::SystemTimeError);

/// `std::time::SystemTime::now`: the current wall-clock time. Nothing is
/// claimed of it.
#[verifier::external_body]
fn system_now() -> std::time::SystemTime {
    std::time::SystemTime::now()
}

/// `std::time::SystemTime::duration_since` against the Unix epoch; it fails
/// when the clock reads before the epoch. Nothing is claimed of the result.
#[verifier::external_body]
fn since_unix_epoch(t: &std::time::SystemTime) -> std::result::Result<std::time::Duration, std::time::SystemTimeError> {
    t.duration_since(std::time::UNIX_EPOCH)
}

/// `std::time::Duration::as_nanos`: the whole duration in nanoseconds.
#[verifier::external_body]
fn duration_nanos(d: &std::time::Duration) -> u128 {
    d.as_nanos()
}

/// The seed drawn from a clock reading: its low 64 bits mixed with a constant.
pub open spec fn clock_seed(nanos: u128) -> u64 {
    ((nanos % 0x1_0000_0000_0000_0000u128) as u64) ^ 0xA24BAED4963EE407u64
}

/// Whether `text` is the RFC 3339 rendering of some civil time for `secs`.
pub open spec fn is_rfc3339_of(text: Seq<char>, secs: u64) -> bool {
    exists|c: (u32, u32, u32, u32, u32, u32)|
        text == rfc3339_text(c) && valid_date(c.0 as int, c.1 as int, c.2 as int) && civil_to_days(
            c.0 as int,
            c.1 as int,
            c.2 as int,
        ) == (secs / 86400) as int % 0x1_0000_0000 && c.3 as int == (secs % 86400) / 3600 && c.4 as int
            == (secs % 3600) / 60 && c.5 as int == secs % 60
}

impl TemplateContext {
    /// The context of a request seen `nanos` nanoseconds after the Unix
    /// epoch, with the environment snapshot `env`.
    pub fn at(nanos: u128, env: Vec<(String, String)>) -> (r: TemplateContext)
        ensures
            is_rfc3339_of(r.now_text@, (nanos / 1_000_000_000) as u64),
            r.now_ms_text@ == decimal((nanos / 1_000_000) as nat),
            r.env@ == env@,
            r.rng.state == clock_seed(nanos),
            r.rng.reseed == clock_seed(nanos),
    {
        let secs: u64 = (nanos / 1_000_000_000) as u64;
        let ms: u128 = nanos / 1_000_000;
        let seed: u64 = ((nanos % 0x1_0000_0000_0000_0000u128) as u64) ^ 0xA24BAED4963EE407u64;
        TemplateContext {
            now_text: string_of(&rfc3339_of(secs)),
            now_ms_text: string_of(&decimal_of_u128(ms)),
            env,
            rng: TemplateRng { state: seed, reseed: seed },
        }
    }

    /// The context of a request seen now: reads the system clock (0 when it
    /// is before the epoch) and builds the context as `at` does.
    pub fn capture(env: Vec<(String, String)>) -> (r: TemplateContext)
        ensures
            exists|nanos: u128|
                is_rfc3339_of(r.now_text@, (nanos / 1_000_000_000) as u64) && r.now_ms_text@ == decimal(
                    (nanos / 1_000_000) as nat,
                ) && r.rng.state == clock_seed(nanos) && r.rng.reseed == clock_seed(nanos),
            r.env@ == env@,
    {
        let now = system_now();
        let nanos: u128 = match since_unix_epoch(&now) {
            Ok(d) => duration_nanos(&d),
            Err(_) => 0,
        };
        TemplateContext::at(nanos, env)
    }
}

/// `(expansion, next state)` of the token text `tok`; `None` for an
/// unknown token.
pub open spec fn token_value(
    tok: Seq<char>,
    params: Seq<(String, String)>,
    inp: TemplateInputs,
    state: u64,
) -> (Option<Seq<char>>, u64) {
    if tok == "now"@ {
        (Some(inp.now), state)
    } else if tok == "now.epoch_ms"@ {
        (Some(inp.now_ms), state)
    } else if tok == "uuid"@ {
        let (u, s) = uuid_draw(state, inp.reseed);
        (Some(u), s)
    } else if tok == "random.int"@ {
        let (v, s) = draw(state, inp.reseed, 1_000_000);
        (Some(decimal(v as nat)), s)
    } else if starts_with(tok, "random.int."@) {
        match parse_u64(tok.subrange(11, tok.len() as int)) {
            Some(max) => {
                let bound: u64 = if max >= 1 {
                    max
                } else {
                    1
                };
                let (v, s) = draw(state, inp.reseed, bound);
                (Some(decimal(v as nat)), s)
            },
            None => (None, state),
        }
    } else if starts_with(tok, "path."@) {
        match param_value(params, tok.subrange(5, tok.len() as int)) {
            Some(v) => (Some(v), state),
            None => (Some(Seq::empty()), state),
        }
    } else if starts_with(tok, "env."@) {
        (Some(env_text(inp.env, tok.subrange(4, tok.len() as int))), state)
    } else {
        (None, state)
    }
}

pub fn resolve_token(tok: &[char], params: &Vec<(String, String)>, ctx: &mut TemplateContext) -> (r: Option<Vec<char>>)
    ensures
        final(ctx).now_text == old(ctx).now_text,
        final(ctx).now_ms_text == old(ctx).now_ms_text,
        final(ctx).env == old(ctx).env,
        final(ctx).rng.reseed == old(ctx).rng.reseed,
        (match r {
            Some(v) => Some(v@),
            None => None,
        }, final(ctx).rng.state) == token_value(tok@, params@, old(ctx).inputs(), old(ctx).rng.state),
{
    if eq_str(tok, "now") {
        return Some(chars_of(ctx.now_text.as_str()));
    }
    if eq_str(tok, "now.epoch_ms") {
        return Some(chars_of(ctx.now_ms_text.as_str()));
    }
    if eq_str(tok, "uuid") {
        return Some(fake_uuid_v4(&mut ctx.rng));
    }
    if eq_str(tok, "random.int") {
        let v = ctx.rng.next_random_int(1_000_000);
        return Some(decimal_of(v));
    }
    proof {
        reveal_strlit("random.int.");
        reveal_strlit("path.");
        reveal_strlit("env.");
    }
    let random_prefix = chars_of("random.int.");
    if starts_with_of(tok, &random_prefix) {
        let rest = slice(tok, 11, tok.len());
        return match parse_u64_of(&rest) {
            Some(max) => {
                let bound = if max >= 1 {
                    max
                } else {
                    1
                };
                let v = ctx.rng.next_random_int(bound);
                Some(decimal_of(v))
            },
            None => None,
        };
    }
    let path_prefix = chars_of("path.");
    if starts_with_of(tok, &path_prefix) {
        let name = slice(tok, 5, tok.len());
        return match param_value_of(params, &name) {
            Some(v) => Some(v),
            None => Some(Vec::new()),
        };
    }
    let env_prefix = chars_of("env.");
    if starts_with_of(tok, &env_prefix) {
        let name = slice(tok, 4, tok.len());
        return Some(read_env_var(&ctx.env, &name));
    }
    None
}

/// `(expansion, next state)` of the text `rest`: literal text is kept, each
/// `{{ token }}` is replaced by its value (an unknown token is left in
/// place, exactly as written) and an unterminated `{{` is kept as is.
pub open spec fn expand_spec(rest: Seq<char>, params: Seq<(String, String)>, inp: TemplateInputs, state: u64) -> (
    Seq<char>,
    u64,
)
    decreases rest.len(),
{
    match find(rest, "{{"@) {
        None => (rest, state),
        Some(s) => {
            if s < 0 || s + 2 > rest.len() {
                (rest, state)
            } else {
                let after = rest.subrange(s + 2, rest.len() as int);
                match find(after, "}}"@) {
                    None => (rest.subrange(0, s) + "{{"@ + after, state),
                    Some(e) => {
                        if e < 0 || e + 2 > after.len() {
                            (rest, state)
                        } else {
                            let tok = trim(after.subrange(0, e));
                            let (val, s2) = token_value(tok, params, inp, state);
                            let piece = match val {
                                Some(v) => v,
                                None => "{{"@ + after.subrange(0, e) + "}}"@,
                            };
                            let (tail, s3) = expand_spec(
                                after.subrange(e + 2, after.len() as int),
                                params,
                                inp,
                                s2,
                            );
                            (rest.subrange(0, s) + piece + tail, s3)
                        }
                    },
                }
            }
        },
    }
}

/// Expands every `{{ token }}` of `input`.
pub fn expand_string(input: &[char], params: &Vec<(String, String)>, ctx: &mut TemplateContext) -> (r: Vec<char>)
    ensures
        final(ctx).now_text == old(ctx).now_text,
        final(ctx).now_ms_text == old(ctx).now_ms_text,
        final(ctx).env == old(ctx).env,
        final(ctx).rng.reseed == old(ctx).rng.reseed,
        (r@, final(ctx).rng.state) == expand_spec(input@, params@, old(ctx).inputs(), old(ctx).rng.state),
{
    let ghost c0 = *ctx;
    let open_marker = chars_of("{{");
    let close_marker = chars_of("}}");
    let mut out: Vec<char> = Vec::new();
    let mut rest = slice(input, 0, input.len());
    proof {
        assert(input@.subrange(0, input@.len() as int) =~= input@);
    }
    loop
        invariant
            c0 == *old(ctx),
            ctx.now_text == c0.now_text,
            ctx.now_ms_text == c0.now_ms_text,
            ctx.env == c0.env,
            ctx.rng.reseed == c0.rng.reseed,
            open_marker@ == "{{"@,
            close_marker@ == "}}"@,
            expand_spec(input@, params@, c0.inputs(), c0.rng.state) == (
                out@ + expand_spec(rest@, params@, c0.inputs(), ctx.rng.state).0,
                expand_spec(rest@, params@, c0.inputs(), ctx.rng.state).1,
            ),
        decreases rest@.len(),
    {
        proof {
            reveal_strlit("{{");
            reveal_strlit("}}");
            lemma_find_from(rest@, "{{"@, 0);
        }
        let start = match find_of(&rest, &open_marker) {
            None => {
                append(&mut out, &rest);
                return out;
            },
            Some(s) => s,
        };
        assert(occurs_at(rest@, "{{"@, start as int));
        assert("{{"@.len() == 2);
        assert(start + 2 <= rest@.len() && rest@.len() == rest.len());
        let after = slice(&rest, start + 2, rest.len());
        append(&mut out, &slice(&rest, 0, start));
        proof {
            lemma_find_from(after@, "}}"@, 0);
        }
        let end = match find_of(&after, &close_marker) {
            None => {
                crate::text::append_str(&mut out, "{{");
                append(&mut out, &after);
                return out;
            },
            Some(e) => e,
        };
        let raw = slice(&after, 0, end);
        let tok = trimmed(&raw);
        proof {
            assert(ctx.inputs() == c0.inputs());
        }
        match resolve_token(&tok, params, ctx) {
            Some(v) => append(&mut out, &v),
            None => {
                crate::text::append_str(&mut out, "{{");
                append(&mut out, &raw);
                crate::text::append_str(&mut out, "}}");
            },
        }
        rest = slice(&after, end + 2, after.len());
    }
}

/// `(templated value, next state)` of a JSON value: string leaves are
/// expanded left to right, everything else is kept.
pub open spec fn apply_spec(v: JsonValue, params: Seq<(String, String)>, inp: TemplateInputs, state: u64) -> (
    JsonSpec,
    u64,
)
    decreases v, 1int,
{
    match v {
        JsonValue::String(s) => {
            let (t, s2) = expand_spec(s@, params, inp, state);
            (JsonSpec::String(t), s2)
        },
        JsonValue::Array(items) => {
            let (xs, s2) = apply_items(items@, params, inp, state);
            (JsonSpec::Array(xs), s2)
        },
        JsonValue::Object(m) => {
            let (es, s2) = apply_entries(m@, params, inp, state);
            (JsonSpec::Object(es), s2)
        },
        _ => (view_json(v), state),
    }
}

pub open spec fn apply_items(s: Seq<JsonValue>, params: Seq<(String, String)>, inp: TemplateInputs, state: u64) -> (
    Seq<JsonSpec>,
    u64,
)
    decreases s, 0int,
{
    if s.len() == 0 {
        (Seq::empty(), state)
    } else {
        let (front, s1) = apply_items(s.drop_last(), params, inp, state);
        let (x, s2) = apply_spec(s.last(), params, inp, s1);
        (front.push(x), s2)
    }
}

pub open spec fn apply_entries(
    s: Seq<(String, JsonValue)>,
    params: Seq<(String, String)>,
    inp: TemplateInputs,
    state: u64,
) -> (Seq<(Seq<char>, JsonSpec)>, u64)
    decreases s, 0int,
{
    if s.len() == 0 {
        (Seq::empty(), state)
    } else {
        let (front, s1) = apply_entries(s.drop_last(), params, inp, state);
        let (x, s2) = apply_spec(s.last().1, params, inp, s1);
        (front.push((s.last().0@, x)), s2)
    }
}

/// No string anywhere in `v` holds an opening `{{`.
pub open spec fn plain_value(v: JsonValue) -> bool
    decreases v, 1int,
{
    match v {
        JsonValue::String(s) => !crate::text::contains(s@, "{{"@),
        JsonValue::Array(items) => plain_items(items@),
        JsonValue::Object(m) => plain_entries(m@),
        _ => true,
    }
}

pub open spec fn plain_items(s: Seq<JsonValue>) -> bool
    decreases s, 0int,
{
    s.len() == 0 || (plain_items(s.drop_last()) && plain_value(s.last()))
}

pub open spec fn plain_entries(s: Seq<(String, JsonValue)>) -> bool
    decreases s, 0int,
{
    s.len() == 0 || (plain_entries(s.drop_last()) && plain_value(s.last().1))
}

proof fn lemma_plain_items(s: Seq<JsonValue>, params: Seq<(String, String)>, inp: TemplateInputs, state: u64)
    requires
        plain_items(s),
    ensures
        apply_items(s, params, inp, state) == (view_items(s), state),
    decreases s, 0int,
{
    if s.len() > 0 {
        lemma_plain_items(s.drop_last(), params, inp, state);
        law_plain_text_unchanged(s.last(), params, inp, state);
        lemma_view_items(s);
        lemma_view_items(s.drop_last());
        assert(view_items(s) =~= view_items(s.drop_last()).push(view_json(s.last())));
    } else {
        assert(view_items(s) =~= Seq::<JsonSpec>::empty());
    }
}

proof fn lemma_plain_entries(s: Seq<(String, JsonValue)>, params: Seq<(String, String)>, inp: TemplateInputs, state: u64)
    requires
        plain_entries(s),
    ensures
        apply_entries(s, params, inp, state) == (view_entries(s), state),
    decreases s, 0int,
{
    if s.len() > 0 {
        lemma_plain_entries(s.drop_last(), params, inp, state);
        law_plain_text_unchanged(s.last().1, params, inp, state);
        lemma_view_entries(s);
        lemma_view_entries(s.drop_last());
        assert(view_entries(s) =~= view_entries(s.drop_last()).push((s.last().0@, view_json(s.last().1))));
    } else {
        assert(view_entries(s) =~= Seq::<(Seq<char>, JsonSpec)>::empty());
    }
}

/// A value whose strings hold no `{{` comes back from the templates
/// unchanged, and no random draw is made for it.
pub proof fn law_plain_text_unchanged(v: JsonValue, params: Seq<(String, String)>, inp: TemplateInputs, state: u64)
    requires
        plain_value(v),
    ensures
        apply_spec(v, params, inp, state) == (view_json(v), state),
    decreases v, 2int,
{
    match v {
        JsonValue::String(s) => {
            crate::text::lemma_find_from(s@, "{{"@, 0);
            if let Some(i) = crate::text::find(s@, "{{"@) {
                assert(crate::text::occurs_at(s@, "{{"@, i));
            }
        },
        JsonValue::Array(items) => {
            assert(decreases_to!(v => items));
            lemma_plain_items(items@, params, inp, state);
        },
        JsonValue::Object(m) => {
            assert(decreases_to!(v => m));
            lemma_plain_entries(m@, params, inp, state);
        },
        _ => {},
    }
}

/// Returns `value` with every string leaf template-expanded.
pub fn apply_templates(value: &JsonValue, params: &Vec<(String, String)>, ctx: &mut TemplateContext) -> (r: JsonValue)
    ensures
        final(ctx).now_text == old(ctx).now_text,
        final(ctx).now_ms_text == old(ctx).now_ms_text,
        final(ctx).env == old(ctx).env,
        final(ctx).rng.reseed == old(ctx).rng.reseed,
        (view_json(r), final(ctx).rng.state) == apply_spec(*value, params@, old(ctx).inputs(), old(ctx).rng.state),
    decreases value,
{
    let ghost c0 = *ctx;
    match value {
        JsonValue::String(s) => {
            let chars = chars_of(s.as_str());
            let t = expand_string(&chars, params, ctx);
            JsonValue::String(string_of(&t))
        },
        JsonValue::Array(items) => {
            let mut out: Vec<JsonValue> = Vec::new();
            let mut i: usize = 0;
            while i < items.len()
                invariant
                    i <= items.len(),
                    *value == JsonValue::Array(*items),
                    ctx.now_text == c0.now_text,
                    ctx.now_ms_text == c0.now_ms_text,
                    ctx.env == c0.env,
                    ctx.rng.reseed == c0.rng.reseed,
                    out@.len() == i,
                    (view_items(out@), ctx.rng.state) == apply_items(items@.subrange(0, i as int), params@, c0.inputs(), c0.rng.state),
                decreases items.len() - i,
            {
                proof {
                    assert(decreases_to!(*value => value->Array_0));
                    assert(decreases_to!(value->Array_0 => items@));
                    assert(decreases_to!(items@ => items@[i as int]));
                    assert(items@.subrange(0, i + 1).drop_last() =~= items@.subrange(0, i as int));
                    lemma_view_items(out@);
                }
                assert(ctx.inputs() == c0.inputs());
                let x = apply_templates(&items[i], params, ctx);
                let ghost prev = out@;
                out.push(x);
                proof {
                    lemma_view_items(out@);
                    lemma_view_items(prev);
                    assert(view_items(out@) =~= view_items(prev).push(view_json(x)));
                }
                i += 1;
            }
            proof {
                assert(items@.subrange(0, items@.len() as int) =~= items@);
            }
            JsonValue::Array(out)
        },
        JsonValue::Object(m) => {
            let mut out: Vec<(String, JsonValue)> = Vec::new();
            let mut i: usize = 0;
            while i < m.len()
                invariant
                    i <= m.len(),
                    *value == JsonValue::Object(*m),
                    ctx.now_text == c0.now_text,
                    ctx.now_ms_text == c0.now_ms_text,
                    ctx.env == c0.env,
                    ctx.rng.reseed == c0.rng.reseed,
                    out@.len() == i,
                    (view_entries(out@), ctx.rng.state) == apply_entries(m@.subrange(0, i as int), params@, c0.inputs(), c0.rng.state),
                decreases m.len() - i,
            {
                proof {
                    assert(decreases_to!(*value => value->Object_0));
                    assert(decreases_to!(value->Object_0 => m@));
                    assert(decreases_to!(m@ => m@[i as int]));
                    assert(decreases_to!(m@[i as int] => m@[i as int].1));
                    assert(m@.subrange(0, i + 1).drop_last() =~= m@.subrange(0, i as int));
                }
                assert(ctx.inputs() == c0.inputs());
                let x = apply_templates(&m[i].1, params, ctx);
                let ghost prev = out@;
                out.push((m[i].0.clone(), x));
                proof {
                    lemma_view_entries(out@);
                    lemma_view_entries(prev);
                    assert(view_entries(out@) =~= view_entries(prev).push((m@[i as int].0@, view_json(x))));
                }
                i += 1;
            }
            proof {
                assert(m@.subrange(0, m@.len() as int) =~= m@);
            }
            JsonValue::Object(out)
        },
        JsonValue::Null => JsonValue::Null,
        JsonValue::Bool(b) => JsonValue::Bool(*b),
        JsonValue::Number(n) => JsonValue::Number(number_clone(n)),
    }
}

} // verus!
