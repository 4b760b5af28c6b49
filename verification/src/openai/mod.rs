//! The generation adapter's own logic: what kind of example each intent
//! asks for, how model output is cleaned and read, what is read out of a
//! provider's reply, and the error messages.
use vstd::prelude::*;
use crate::canonical::{CanonicalEndpoint, MockExample, SchemaNode, same_schema, schema_clone};
use crate::json::{JsonSpec, JsonValue, json_clone, view_json};
use crate::json_text::{utf8_len, utf8_width};
use crate::model::{CapabilityStatus, DeliveryStage, MockExampleKind, example_kind_text};
use crate::text::{append, append_str, chars_of, ends_with, ends_with_of, find_char, find_char_of, lemma_find_from, slice, starts_with, starts_with_of, string_of, trim, trimmed};

pub mod hint;
pub mod generate;

verus! {

/// Which example a generation asks the model for.
#[derive(Debug, Clone, Copy, PartialEq, Eq, Structural)]
pub enum GenerationIntent {
    Success,
    Empty,
    Error,
}

pub open spec fn intent_kind(i: GenerationIntent) -> MockExampleKind {
    match i {
        GenerationIntent::Success => MockExampleKind::Success,
        GenerationIntent::Empty => MockExampleKind::Empty,
        GenerationIntent::Error => MockExampleKind::Error,
    }
}

pub open spec fn intent_title(i: GenerationIntent) -> Seq<char> {
    match i {
        GenerationIntent::Success => "AI Success"@,
        GenerationIntent::Empty => "AI Empty"@,
        GenerationIntent::Error => "AI Error"@,
    }
}

impl GenerationIntent {
    pub fn kind(&self) -> (k: MockExampleKind)
        ensures
            k == intent_kind(*self),
    {
        match self {
            GenerationIntent::Success => MockExampleKind::Success,
            GenerationIntent::Empty => MockExampleKind::Empty,
            GenerationIntent::Error => MockExampleKind::Error,
        }
    }

    pub fn title(&self) -> (t: String)
        ensures
            t@ == intent_title(*self),
    {
        match self {
            GenerationIntent::Success => "AI Success".to_string(),
            GenerationIntent::Empty => "AI Empty".to_string(),
            GenerationIntent::Error => "AI Error".to_string(),
        }
    }

    /// The label of the intent, the text of its example kind.
    pub fn intent_label(&self) -> (l: &'static str)
        ensures
            l@ == example_kind_text(intent_kind(*self)),
    {
        match self {
            GenerationIntent::Success => "success",
            GenerationIntent::Empty => "empty",
            GenerationIntent::Error => "error",
        }
    }
}

/// A chat request as sent to a provider.
#[derive(Debug, Clone)]
pub struct ChatCompletionRequest {
    pub model: String,
    pub system_prompt: String,
    pub user_prompt: String,
}

/// A chat reply's raw text.
#[derive(Debug, Clone)]
pub struct ChatCompletionResponse {
    pub raw_text: String,
}

/// Why a generation failed.
#[derive(Debug, Clone, PartialEq, Eq)]
pub enum OpenAiError {
    MissingApiKey(String),
    Transport(String),
    Provider { status: u16, body: String },
    Decode(String),
    MissingContent,
    Config(&'static str),
    NotImplemented(&'static str),
}

pub open spec fn openai_error_text(e: OpenAiError) -> Seq<char> {
    match e {
        OpenAiError::MissingApiKey(v) => "OpenAI API key environment variable `"@ + v@ + "` is not set"@,
        OpenAiError::Transport(m) => "transport error talking to provider: "@ + m@,
        OpenAiError::Provider { status, body } => "provider returned HTTP "@ + crate::text::decimal(status as nat)
            + ": "@ + body@,
        OpenAiError::Decode(m) => "failed to decode provider response: "@ + m@,
        OpenAiError::MissingContent => "provider response did not include an assistant message"@,
        OpenAiError::Config(m) => "provider configuration error: "@ + m@,
        OpenAiError::NotImplemented(m) => "provider not implemented: "@ + m@,
    }
}

impl OpenAiError {
    /// The error's message, as shown to users.
    pub fn message(&self) -> (r: String)
        ensures
            r@ == openai_error_text(*self),
    {
        let mut t: Vec<char>;
        match self {
            OpenAiError::MissingApiKey(v) => {
                t = chars_of("OpenAI API key environment variable `");
                append_str(&mut t, v.as_str());
                append_str(&mut t, "` is not set");
            },
            OpenAiError::Transport(m) => {
                t = chars_of("transport error talking to provider: ");
                append_str(&mut t, m.as_str());
            },
            OpenAiError::Provider { status, body } => {
                t = chars_of("provider returned HTTP ");
                append(&mut t, &crate::text::decimal_of(*status as u64));
                append_str(&mut t, ": ");
                append_str(&mut t, body.as_str());
            },
            OpenAiError::Decode(m) => {
                t = chars_of("failed to decode provider response: ");
                append_str(&mut t, m.as_str());
            },
            OpenAiError::MissingContent => {
                t = chars_of("provider response did not include an assistant message");
            },
            OpenAiError::Config(m) => {
                t = chars_of("provider configuration error: ");
                append_str(&mut t, m);
            },
            OpenAiError::NotImplemented(m) => {
                t = chars_of("provider not implemented: ");
                append_str(&mut t, m);
            },
        }
        string_of(&t)
    }
}

/// The adapter's capability notes.
pub fn planned_capabilities() -> (r: Vec<CapabilityStatus>)
    ensures
        r@.len() == 3,
        r@[0].name@ == "OpenAI Chat Completions adapter"@,
        r@[1].name@ == "Responses API adapter"@,
        r@[2].name@ == "Structured output enforcement"@,
        forall|i: int| 0 <= i < 3 ==> (#[trigger] r@[i]).stage == DeliveryStage::Partial,
        r@[0].note@ == "Chat Completions call with JSON mode wired; ready for real generation."@,
        r@[1].note@ == "OpenAI Responses endpoint is wired with JSON object mode and response text extraction; Azure Responses remains future work."@,
        r@[2].note@ == "JSON-object mode plus canonical schema validation and bounded repair retries are wired; stricter JSON Schema constraints remain future work."@,
{
    vec![
        CapabilityStatus {
            name: "OpenAI Chat Completions adapter".to_string(),
            stage: DeliveryStage::Partial,
            note: "Chat Completions call with JSON mode wired; ready for real generation.".to_string(),
        },
        CapabilityStatus {
            name: "Responses API adapter".to_string(),
            stage: DeliveryStage::Partial,
            note: "OpenAI Responses endpoint is wired with JSON object mode and response text extraction; Azure Responses remains future work.".to_string(),
        },
        CapabilityStatus {
            name: "Structured output enforcement".to_string(),
            stage: DeliveryStage::Partial,
            note: "JSON-object mode plus canonical schema validation and bounded repair retries are wired; stricter JSON Schema constraints remain future work.".to_string(),
        },
    ]
}

/// `s` with trailing copies of `pat` removed.
pub open spec fn strip_trailing_text(s: Seq<char>, pat: Seq<char>) -> Seq<char>
    decreases s.len(),
{
    if pat.len() > 0 && ends_with(s, pat) && pat.len() <= s.len() {
        strip_trailing_text(s.subrange(0, s.len() - pat.len()), pat)
    } else {
        s
    }
}

/// Model output without a surrounding Markdown code fence: after trimming,
/// text that opens with three backticks loses its first line (the fence
/// and language tag) and trailing backtick fences, and is trimmed again.
pub open spec fn without_code_fence(input: Seq<char>) -> Seq<char> {
    let t = trim(input);
    if !starts_with(t, "```"@) {
        t
    } else {
        let rest = t.subrange(3, t.len() as int);
        let body = match find_char(rest, '\n') {
            Some(i) => rest.subrange(i + 1, rest.len() as int),
            None => rest,
        };
        trim(strip_trailing_text(body, "```"@))
    }
}

pub fn strip_code_fence(input: &str) -> (r: String)
    ensures
        r@ == without_code_fence(input@),
{
    let t = trimmed(&chars_of(input));
    let fence = chars_of("```");
    proof {
        reveal_strlit("```");
    }
    if !starts_with_of(&t, &fence) {
        return string_of(&t);
    }
    let rest = slice(&t, 3, t.len());
    proof {
        lemma_find_from(rest@, seq!['\n'], 0);
    }
    let body = match find_char_of(&rest, '\n') {
        Some(i) => {
            assert(i < rest.len());
            slice(&rest, i + 1, rest.len())
        },
        None => {
            let b = slice(&rest, 0, rest.len());
            assert(b@ =~= rest@);
            b
        },
    };
    let mut end: usize = body.len();
    proof {
        assert(body@.subrange(0, body@.len() as int) =~= body@);
    }
    while end >= 3 && ends_with_of(&slice(&body, 0, end), &fence)
        invariant
            end <= body@.len(),
            fence@ == "```"@,
            "```"@.len() == 3,
            strip_trailing_text(body@, "```"@) == strip_trailing_text(body@.subrange(0, end as int), "```"@),
        decreases end,
    {
        proof {
            assert(body@.subrange(0, end as int).subrange(0, end - 3) =~= body@.subrange(0, end - 3));
        }
        end -= 3;
    }
    proof {
        let s = body@.subrange(0, end as int);
        if end < 3 {
            assert(!ends_with(s, "```"@) || s.len() < 3);
        }
    }
    string_of(&trimmed(&slice(&body, 0, end)))
}

/// The longest prefix of `s` that fits in `max` bytes of UTF-8.
pub open spec fn fitting_prefix(s: Seq<char>, max: nat) -> Seq<char>
    decreases s.len(),
{
    if utf8_len(s) <= max {
        s
    } else {
        fitting_prefix(s.drop_last(), max)
    }
}

/// `input` unchanged when it fits in `max` bytes, else the longest prefix
/// that does, followed by an ellipsis.
pub open spec fn truncated(input: Seq<char>, max: nat) -> Seq<char> {
    if utf8_len(input) <= max {
        input
    } else {
        fitting_prefix(input, max) + "…"@
    }
}

proof fn lemma_utf8_len_push(s: Seq<char>, c: char)
    ensures
        utf8_len(s.push(c)) == utf8_len(s) + utf8_width(c),
{
    assert(s.push(c).drop_last() =~= s);
}

/// The prefix of `s` that fits: the first `k` characters, when they fit
/// and one more would not.
proof fn lemma_fitting_prefix(s: Seq<char>, max: nat, k: int)
    requires
        0 <= k <= s.len(),
        utf8_len(s.subrange(0, k)) <= max,
        k == s.len() || utf8_len(s.subrange(0, k + 1)) > max,
    ensures
        fitting_prefix(s, max) == s.subrange(0, k),
    decreases s.len(),
{
    if k == s.len() {
        assert(s.subrange(0, k) =~= s);
    } else {
        assert(utf8_len(s) > max) by {
            crate::json_text::lemma_utf8_len_prefix(s, k + 1);
        }
        let t = s.drop_last();
        assert(t.subrange(0, k) =~= s.subrange(0, k));
        if k < t.len() {
            assert(t.subrange(0, k + 1) =~= s.subrange(0, k + 1));
        }
        lemma_fitting_prefix(t, max, k);
    }
}

pub fn truncate(input: &str, max: usize) -> (r: String)
    ensures
        r@ == truncated(input@, max as nat),
{
    let s = chars_of(input);
    let mut used: usize = 0;
    let mut k: usize = 0;
    while k < s.len()
        invariant
            k <= s@.len(),
            used == utf8_len(s@.subrange(0, k as int)),
            used <= max,
        ensures
            k <= s@.len(),
            used == utf8_len(s@.subrange(0, k as int)),
            k == s@.len() || utf8_len(s@.subrange(0, k + 1)) > max,
        decreases s.len() - k,
    {
        let code = s[k] as u32;
        let w: usize = if code < 0x80 {
            1
        } else if code < 0x800 {
            2
        } else if code < 0x10000 {
            3
        } else {
            4
        };
        proof {
            assert(s@.subrange(0, k + 1) =~= s@.subrange(0, k as int).push(s@[k as int]));
            lemma_utf8_len_push(s@.subrange(0, k as int), s@[k as int]);
        }
        if w > max - used {
            break;
        }
        used = used + w;
        k += 1;
    }
    proof {
        lemma_fitting_prefix(s@, max as nat, k as int);
    }
    if k == s.len() {
        proof {
            assert(s@.subrange(0, k as int) =~= s@);
        }
        return string_of(&s);
    }
    let mut out = slice(&s, 0, k);
    proof {
        crate::json_text::lemma_utf8_len_prefix(s@, k + 1);
    }
    append_str(&mut out, "…");
    string_of(&out)
}

/// `value` trimmed, when it is there and not blank.
pub open spec fn present(value: Option<Seq<char>>) -> Option<Seq<char>> {
    match value {
        Some(v) => if trim(v).len() > 0 {
            Some(trim(v))
        } else {
            None
        },
        None => None,
    }
}

pub open spec fn opt_str(o: Option<&str>) -> Option<Seq<char>> {
    match o {
        Some(s) => Some(s@),
        None => None,
    }
}

fn present_of(value: Option<&str>) -> (r: Option<String>)
    ensures
        match r {
            Some(v) => present(opt_str(value)) == Some(v@),
            None => present(opt_str(value)) is None,
        },
{
    match value {
        Some(v) => {
            let t = trimmed(&chars_of(v));
            if t.len() > 0 {
                Some(string_of(&t))
            } else {
                None
            }
        },
        None => None,
    }
}

/// A required setting: its trimmed value, else a configuration error with
/// `message`.
pub fn non_empty(value: Option<&str>, message: &'static str) -> (r: Result<String, OpenAiError>)
    ensures
        match present(opt_str(value)) {
            Some(v) => r matches Ok(s) && s@ == v,
            None => r == Err::<String, OpenAiError>(OpenAiError::Config(message)),
        },
{
    match present_of(value) {
        Some(v) => Ok(v),
        None => Err(OpenAiError::Config(message)),
    }
}

/// The Azure deployment: the configured one, else the model, each trimmed
/// and not blank.
pub fn non_empty_or_model(value: Option<&str>, model: &str) -> (r: Result<String, OpenAiError>)
    ensures
        match present(opt_str(value)) {
            Some(v) => r matches Ok(s) && s@ == v,
            None => match present(Some(model@)) {
                Some(m) => r matches Ok(s) && s@ == m,
                None => r == Err::<String, OpenAiError>(
                    OpenAiError::Config("Azure OpenAI deployment is required; set deployment or model"),
                ),
            },
        },
{
    match present_of(value) {
        Some(v) => Ok(v),
        None => match present_of(Some(model)) {
            Some(m) => Ok(m),
            None => Err(OpenAiError::Config("Azure OpenAI deployment is required; set deployment or model")),
        },
    }
}

} // verus!
