//! The generation flow around a provider call: the prompt sent for an
//! endpoint, what is read back out of a provider's reply, which schema a
//! reply is held to, and the decision after each reply (finish with an
//! example, or ask again with the validation problems listed).
use vstd::prelude::*;
use crate::canonical::{CanonicalEndpoint, CanonicalResponse, MockExample, SchemaNode, same_schema, schema_clone};
use crate::json::{JsonSpec, JsonValue, entry_index, find_entry, json_clone, lemma_entry_index, lemma_view_entries, lemma_view_items, view_entries, view_items, view_json};
use crate::json_text::{pretty_text, to_pretty_text};
use crate::model::{HttpMethod, MockExampleKind, ProviderApiType, example_kind_text, method_text};
use crate::openai::hint::{parameter_hint, parameter_hints, response_hint, response_hints, hint_of, schema_hint, text_or_null};
use crate::openai::{
    GenerationIntent, OpenAiError, intent_kind, intent_title, non_empty, non_empty_or_model, opt_str, present,
    strip_code_fence, strip_trailing_text, without_code_fence, openai_error_text,
};
use crate::parser::curl::{json_parse, parse_json};
use crate::text::{append, append_str, chars_of, decimal, decimal_of, ends_with, ends_with_of, join, slice, starts_with, string_of, trim, trimmed};
use crate::validate::{errors_at, msgs, validate_value};

verus! {

/// The two prompts sent to a provider, and the endpoint description the
/// user prompt carries.
#[derive(Debug)]
pub struct PromptBundle {
    pub system: String,
    pub user: String,
    pub endpoint_context: JsonValue,
}

pub open spec fn system_prompt() -> Seq<char> {
    "You are Albert, an API mock data generator. Produce a single JSON object that is a realistic mock response body for the described endpoint. Respond with JSON only, no markdown fences, no commentary. Use diverse but plausible values and respect the field types."@
}

pub open spec fn instruction(i: GenerationIntent) -> Seq<char> {
    match i {
        GenerationIntent::Success => "Return a representative success response payload. Include realistic IDs, timestamps (ISO-8601), and populated collections where applicable."@,
        GenerationIntent::Empty => "Return a minimal empty-state response payload. Collections should be empty arrays, counters should be zero, but the shape must still match the schema."@,
        GenerationIntent::Error => "Return a realistic validation-error response payload. Include an error code, a human readable message, and any 'errors' list the schema implies."@,
    }
}

pub open spec fn opt_text(o: Option<String>) -> JsonSpec {
    text_or_null(o)
}

pub open spec fn request_body_hint(e: CanonicalEndpoint) -> JsonSpec {
    match e.request_body {
        Some(b) => JsonSpec::Object(
            seq![
                ("content_type"@, JsonSpec::String(b.content_type@)),
                ("required"@, JsonSpec::Bool(b.required)),
                ("schema"@, hint_of(b.schema)),
            ],
        ),
        None => JsonSpec::Null,
    }
}

/// The endpoint as the model sees it: its metadata, and the hints of its
/// parameters, request body and responses.
pub open spec fn endpoint_context(e: CanonicalEndpoint) -> JsonSpec {
    JsonSpec::Object(
        seq![
            ("description"@, opt_text(e.description)),
            ("method"@, JsonSpec::String(method_text(e.method))),
            ("operation_id"@, opt_text(e.operation_id)),
            ("parameters"@, JsonSpec::Array(e.parameters@.map_values(|p| parameter_hint(p)))),
            ("path"@, JsonSpec::String(e.path@)),
            ("request_body"@, request_body_hint(e)),
            ("responses"@, JsonSpec::Array(e.responses@.map_values(|r| response_hint(r)))),
            ("summary"@, opt_text(e.summary)),
            ("tags"@, JsonSpec::Array(e.tags@.map_values(|t: String| JsonSpec::String(t@)))),
        ],
    )
}

/// The user prompt: the indented context, the kind of example wanted and
/// its instruction.
pub open spec fn user_prompt(context: JsonSpec, i: GenerationIntent) -> Seq<char> {
    "Endpoint context (JSON):\n"@ + pretty_text(context, Seq::empty()) + "\n\nMock type: "@ + example_kind_text(
        intent_kind(i),
    ) + "\nInstruction: "@ + instruction(i) + "\n\nRespond with a single JSON object only."@
}

fn opt_text_of(o: &Option<String>) -> (r: JsonValue)
    ensures
        view_json(r) == opt_text(*o),
{
    match o {
        Some(t) => JsonValue::String(t.clone()),
        None => JsonValue::Null,
    }
}

fn push_member(out: &mut Vec<(String, JsonValue)>, key: &str, v: JsonValue)
    ensures
        view_entries(final(out)@) == view_entries(old(out)@) + seq![(key@, view_json(v))],
{
    let ghost before = out@;
    out.push((key.to_string(), v));
    proof {
        lemma_view_entries(before);
        lemma_view_entries(out@);
        assert(view_entries(out@) =~= view_entries(before) + seq![(key@, view_json(v))]);
    }
}

fn context_of(e: &CanonicalEndpoint) -> (r: JsonValue)
    ensures
        view_json(r) == endpoint_context(*e),
{
    let mut out: Vec<(String, JsonValue)> = Vec::new();
    assert(view_entries(out@) =~= Seq::<(Seq<char>, JsonSpec)>::empty());
    push_member(&mut out, "description", opt_text_of(&e.description));
    push_member(&mut out, "method", JsonValue::String(e.method.as_str().to_string()));
    push_member(&mut out, "operation_id", opt_text_of(&e.operation_id));
    let params = parameter_hints(&e.parameters);
    proof {
        lemma_view_items(params@);
        assert(view_items(params@) =~= e.parameters@.map_values(|p| parameter_hint(p)));
    }
    push_member(&mut out, "parameters", JsonValue::Array(params));
    push_member(&mut out, "path", JsonValue::String(e.path.clone()));
    let body = match &e.request_body {
        Some(b) => {
            let mut m: Vec<(String, JsonValue)> = Vec::new();
            assert(view_entries(m@) =~= Seq::<(Seq<char>, JsonSpec)>::empty());
            push_member(&mut m, "content_type", JsonValue::String(b.content_type.clone()));
            push_member(&mut m, "required", JsonValue::Bool(b.required));
            push_member(&mut m, "schema", schema_hint(&b.schema));
            assert(view_entries(m@) =~= seq![
                ("content_type"@, JsonSpec::String(b.content_type@)),
                ("required"@, JsonSpec::Bool(b.required)),
                ("schema"@, hint_of(b.schema)),
            ]);
            JsonValue::Object(m)
        },
        None => JsonValue::Null,
    };
    push_member(&mut out, "request_body", body);
    let responses = response_hints(&e.responses);
    proof {
        lemma_view_items(responses@);
        assert(view_items(responses@) =~= e.responses@.map_values(|r| response_hint(r)));
    }
    push_member(&mut out, "responses", JsonValue::Array(responses));
    push_member(&mut out, "summary", opt_text_of(&e.summary));
    let mut tags: Vec<JsonValue> = Vec::new();
    let mut i: usize = 0;
    while i < e.tags.len()
        invariant
            i <= e.tags@.len(),
            tags@.len() == i,
            forall|k: int| 0 <= k < i ==> view_json(#[trigger] tags@[k]) == JsonSpec::String(e.tags@[k]@),
        decreases e.tags.len() - i,
    {
        tags.push(JsonValue::String(e.tags[i].clone()));
        i += 1;
    }
    proof {
        lemma_view_items(tags@);
        assert(view_items(tags@) =~= e.tags@.map_values(|t: String| JsonSpec::String(t@)));
    }
    push_member(&mut out, "tags", JsonValue::Array(tags));
    let r = JsonValue::Object(out);
    assert(view_entries(out@) =~= match endpoint_context(*e) {
        JsonSpec::Object(es) => es,
        _ => Seq::empty(),
    });
    r
}

/// The prompts for an example of the intended kind for `endpoint`.
pub fn build_prompt_bundle(endpoint: &CanonicalEndpoint, intent: GenerationIntent) -> (r: PromptBundle)
    ensures
        r.system@ == system_prompt(),
        view_json(r.endpoint_context) == endpoint_context(*endpoint),
        r.user@ == user_prompt(endpoint_context(*endpoint), intent),
{
    let system = "You are Albert, an API mock data generator. Produce a single JSON object that is a realistic mock response body for the described endpoint. Respond with JSON only, no markdown fences, no commentary. Use diverse but plausible values and respect the field types.".to_string();
    let context = context_of(endpoint);
    let instruction_text = match intent {
        GenerationIntent::Success => "Return a representative success response payload. Include realistic IDs, timestamps (ISO-8601), and populated collections where applicable.",
        GenerationIntent::Empty => "Return a minimal empty-state response payload. Collections should be empty arrays, counters should be zero, but the shape must still match the schema.",
        GenerationIntent::Error => "Return a realistic validation-error response payload. Include an error code, a human readable message, and any 'errors' list the schema implies.",
    };
    let mut user = chars_of("Endpoint context (JSON):\n");
    append(&mut user, &to_pretty_text(&context));
    append_str(&mut user, "\n\nMock type: ");
    append_str(&mut user, intent.intent_label());
    append_str(&mut user, "\nInstruction: ");
    append_str(&mut user, instruction_text);
    append_str(&mut user, "\n\nRespond with a single JSON object only.");
    PromptBundle { system, user: string_of(&user), endpoint_context: context }
}

/// The prompts that would be sent, for showing before any call is made.
pub fn preview_prompt(endpoint: &CanonicalEndpoint, intent: GenerationIntent) -> (r: PromptBundle)
    ensures
        r.system@ == system_prompt(),
        view_json(r.endpoint_context) == endpoint_context(*endpoint),
        r.user@ == user_prompt(endpoint_context(*endpoint), intent),
{
    build_prompt_bundle(endpoint, intent)
}

/// `Generated by OpenAI adapter (<kind>)`, then `. <extra>` when given.
pub open spec fn generated_note(kind: MockExampleKind, extra: Option<Seq<char>>) -> Seq<char> {
    let base = "Generated by OpenAI adapter ("@ + example_kind_text(kind) + ")"@;
    match extra {
        Some(x) => base + ". "@ + x,
        None => base,
    }
}

pub open spec fn opt_view(o: Option<String>) -> Option<Seq<char>> {
    match o {
        Some(s) => Some(s@),
        None => None,
    }
}

/// A reply as an example of the intended kind, with the adapter's note.
pub fn parse_response_payload(value: &JsonValue, intent: GenerationIntent, extra_note: Option<String>) -> (r: Result<
    MockExample,
    OpenAiError,
>)
    ensures
        r matches Ok(ex) && ex.kind == intent_kind(intent) && ex.title@ == intent_title(intent) && (view_json(
            ex.payload,
        ) == view_json(*value)) && (ex.note matches Some(n) && n@ == generated_note(
            intent_kind(intent),
            opt_view(extra_note),
        )),
{
    let kind = intent.kind();
    let mut base = chars_of("Generated by OpenAI adapter (");
    append_str(&mut base, kind.as_str());
    append_str(&mut base, ")");
    let note = match extra_note {
        Some(extra) => {
            append_str(&mut base, ". ");
            append_str(&mut base, extra.as_str());
            string_of(&base)
        },
        None => string_of(&base),
    };
    Ok(MockExample { kind, title: intent.title(), payload: json_clone(value), note: Some(note) })
}

/// Whether a status code is the one a reply of this intent is held to:
/// `4xx`/`5xx` for errors, `2xx` otherwise.
pub open spec fn wanted_status(code: Seq<char>, intent: GenerationIntent) -> bool {
    if intent_kind(intent) == MockExampleKind::Error {
        starts_with(code, "4"@) || starts_with(code, "5"@)
    } else {
        starts_with(code, "2"@)
    }
}

pub open spec fn first_wanted(rs: Seq<CanonicalResponse>, intent: GenerationIntent, i: int) -> bool {
    &&& 0 <= i < rs.len()
    &&& wanted_status(rs[i].status_code@, intent)
    &&& forall|k: int| 0 <= k < i ==> !wanted_status(#[trigger] rs[k].status_code@, intent)
}

/// The schema of the first response whose status the intent wants.
pub fn pick_validation_schema(endpoint: &CanonicalEndpoint, intent: GenerationIntent) -> (r: Option<SchemaNode>)
    ensures
        (forall|i: int| 0 <= i < endpoint.responses@.len() ==> !wanted_status(
            #[trigger] endpoint.responses@[i].status_code@,
            intent,
        )) ==> r is None,
        forall|i: int|
            first_wanted(endpoint.responses@, intent, i) ==> match endpoint.responses@[i].schema {
                None => r is None,
                Some(s) => r matches Some(x) && same_schema(s, x),
            },
{
    let error = matches!(intent.kind(), MockExampleKind::Error);
    let rs = &endpoint.responses;
    let four = chars_of("4");
    let five = chars_of("5");
    let two = chars_of("2");
    let mut i: usize = 0;
    while i < rs.len()
        invariant
            i <= rs@.len(),
            rs == &endpoint.responses,
            error == (intent_kind(intent) == MockExampleKind::Error),
            four@ == "4"@,
            five@ == "5"@,
            two@ == "2"@,
            forall|k: int| 0 <= k < i ==> !wanted_status(#[trigger] rs@[k].status_code@, intent),
        decreases rs.len() - i,
    {
        let code = chars_of(rs[i].status_code.as_str());
        let hit = if error {
            crate::text::starts_with_of(&code, &four) || crate::text::starts_with_of(&code, &five)
        } else {
            crate::text::starts_with_of(&code, &two)
        };
        if hit {
            assert(first_wanted(rs@, intent, i as int));
            assert forall|j: int| first_wanted(rs@, intent, j) implies j == i by {
                if j < i {
                } else if j > i {
                    assert(!wanted_status(rs@[i as int].status_code@, intent));
                }
            }
            return match &rs[i].schema {
                Some(s) => Some(schema_clone(s)),
                None => None,
            };
        }
        i += 1;
    }
    None
}

pub open spec fn listed_errors(errors: Seq<Seq<char>>) -> Seq<Seq<char>> {
    errors.map_values(|e: Seq<char>| "- "@ + e)
}

/// The original user prompt followed by the validation problems and a
/// request for a corrected object.
pub open spec fn repair_prompt(user: Seq<char>, errors: Seq<Seq<char>>) -> Seq<char> {
    user + "\n\nThe previous response failed schema validation:\n"@ + join(listed_errors(errors), "\n"@)
        + "\n\nReturn a new JSON object that fixes the listed issues. Respond with JSON only."@
}

proof fn lemma_join_push(parts: Seq<Seq<char>>, sep: Seq<char>, p: Seq<char>)
    requires
        parts.len() > 0,
    ensures
        join(parts.push(p), sep) == join(parts, sep) + sep + p,
{
    assert(parts.push(p).drop_last() =~= parts);
}

/// `parts` joined with `sep` between consecutive parts.
pub(crate) fn join_of(parts: &Vec<Vec<char>>, sep: &str) -> (r: Vec<char>)
    ensures
        r@ == join(crate::text::views(parts@), sep@),
{
    let mut out: Vec<char> = Vec::new();
    let mut i: usize = 0;
    assert(crate::text::views(parts@.subrange(0, 0)) =~= Seq::<Seq<char>>::empty());
    while i < parts.len()
        invariant
            i <= parts@.len(),
            out@ == join(crate::text::views(parts@.subrange(0, i as int)), sep@),
        decreases parts.len() - i,
    {
        let ghost prev = crate::text::views(parts@.subrange(0, i as int));
        proof {
            assert(crate::text::views(parts@.subrange(0, i + 1)) =~= prev.push(parts@[i as int]@));
        }
        if i > 0 {
            append_str(&mut out, sep);
            proof {
                lemma_join_push(prev, sep@, parts@[i as int]@);
            }
        } else {
            assert(prev.push(parts@[i as int]@) =~= seq![parts@[i as int]@]);
        }
        append(&mut out, &parts[i]);
        i += 1;
    }
    assert(parts@.subrange(0, parts@.len() as int) =~= parts@);
    out
}

/// The repair prompts: the original system prompt and context, and a user
/// prompt that lists the problems (see `repair_prompt`).
pub fn build_repair_bundle(original: &PromptBundle, errors: &Vec<String>) -> (r: PromptBundle)
    ensures
        r.system == original.system,
        view_json(r.endpoint_context) == view_json(original.endpoint_context),
        r.user@ == repair_prompt(original.user@, msgs(errors@)),
{
    let mut lines: Vec<Vec<char>> = Vec::new();
    let mut i: usize = 0;
    while i < errors.len()
        invariant
            i <= errors@.len(),
            lines@.len() == i,
            forall|k: int| 0 <= k < i ==> (#[trigger] lines@[k])@ == "- "@ + errors@[k]@,
        decreases errors.len() - i,
    {
        let mut line = chars_of("- ");
        append_str(&mut line, errors[i].as_str());
        lines.push(line);
        i += 1;
    }
    assert(crate::text::views(lines@) =~= listed_errors(msgs(errors@)));
    let mut user = chars_of(original.user.as_str());
    append_str(&mut user, "\n\nThe previous response failed schema validation:\n");
    append(&mut user, &join_of(&lines, "\n"));
    append_str(&mut user, "\n\nReturn a new JSON object that fixes the listed issues. Respond with JSON only.");
    PromptBundle {
        system: original.system.clone(),
        user: string_of(&user),
        endpoint_context: json_clone(&original.endpoint_context),
    }
}

// ---------------------------------------------------------------------
// Reading a provider's reply.

/// The member `key` of an object (its first entry with that key).
pub open spec fn member(v: JsonValue, key: Seq<char>) -> Option<JsonValue> {
    match v {
        JsonValue::Object(m) => match entry_index(m@, key) {
            Some(i) => Some(m@[i].1),
            None => None,
        },
        _ => None,
    }
}

pub open spec fn text_of(v: Option<JsonValue>) -> Option<Seq<char>> {
    match v {
        Some(JsonValue::String(s)) => Some(s@),
        _ => None,
    }
}

/// `choices[0].message.content` as text.
pub open spec fn chat_content(raw: JsonValue) -> Option<Seq<char>> {
    match member(raw, "choices"@) {
        Some(JsonValue::Array(cs)) => if cs@.len() > 0 {
            match member(cs@[0], "message"@) {
                Some(msg) => text_of(member(msg, "content"@)),
                None => None,
            }
        } else {
            None
        },
        _ => None,
    }
}

fn member_of<'a>(v: &'a JsonValue, key: &str) -> (r: Option<&'a JsonValue>)
    ensures
        match member(*v, key@) {
            Some(x) => r matches Some(y) && *y == x,
            None => r is None,
        },
{
    match v {
        JsonValue::Object(m) => {
            let k = chars_of(key);
            proof {
                lemma_entry_index(m@, key@);
            }
            match find_entry(m, &k) {
                Some(i) => Some(&m[i].1),
                None => None,
            }
        },
        _ => None,
    }
}

fn text_value_of(v: Option<&JsonValue>) -> (r: Option<String>)
    ensures
        match v {
            Some(x) => opt_view(r) == text_of(Some(*x)),
            None => r is None,
        },
{
    match v {
        Some(JsonValue::String(s)) => Some(s.clone()),
        _ => None,
    }
}

/// The assistant text of a Chat Completions reply.
pub fn extract_chat_completions_content(raw: &JsonValue) -> (r: Result<String, OpenAiError>)
    ensures
        match chat_content(*raw) {
            Some(t) => r matches Ok(s) && s@ == t,
            None => r == Err::<String, OpenAiError>(OpenAiError::MissingContent),
        },
{
    match member_of(raw, "choices") {
        Some(JsonValue::Array(cs)) => {
            if cs.len() == 0 {
                return Err(OpenAiError::MissingContent);
            }
            match member_of(&cs[0], "message") {
                Some(msg) => match text_value_of(member_of(msg, "content")) {
                    Some(t) => Ok(t),
                    None => Err(OpenAiError::MissingContent),
                },
                None => Err(OpenAiError::MissingContent),
            }
        },
        _ => Err(OpenAiError::MissingContent),
    }
}

/// The text of one content part: its `text`, when its `type` is
/// `output_text`, `text`, or not a string at all.
pub open spec fn part_text(part: JsonValue) -> Option<Seq<char>> {
    let ty = text_of(member(part, "type"@));
    match text_of(member(part, "text"@)) {
        Some(x) => if ty == Some("output_text"@) || ty is None || ty == Some("text"@) {
            Some(x)
        } else {
            None
        },
        None => None,
    }
}

pub open spec fn first_part_text(parts: Seq<JsonValue>) -> Option<Seq<char>>
    decreases parts.len(),
{
    if parts.len() == 0 {
        None
    } else {
        match part_text(parts[0]) {
            Some(x) => Some(x),
            None => first_part_text(parts.subrange(1, parts.len() as int)),
        }
    }
}

pub open spec fn item_text(item: JsonValue) -> Option<Seq<char>> {
    match member(item, "content"@) {
        Some(JsonValue::Array(parts)) => first_part_text(parts@),
        _ => None,
    }
}

pub open spec fn first_item_text(items: Seq<JsonValue>) -> Option<Seq<char>>
    decreases items.len(),
{
    if items.len() == 0 {
        None
    } else {
        match item_text(items[0]) {
            Some(x) => Some(x),
            None => first_item_text(items.subrange(1, items.len() as int)),
        }
    }
}

/// `output_text` when it is a string, else the first text part found in
/// the `content` lists of `output`, in order.
pub open spec fn responses_content(raw: JsonValue) -> Option<Seq<char>> {
    match text_of(member(raw, "output_text"@)) {
        Some(t) => Some(t),
        None => match member(raw, "output"@) {
            Some(JsonValue::Array(items)) => first_item_text(items@),
            _ => None,
        },
    }
}

fn part_text_of(part: &JsonValue) -> (r: Option<String>)
    ensures
        opt_view(r) == part_text(*part),
{
    let ty = text_value_of(member_of(part, "type"));
    proof {
        reveal_strlit("output_text");
        reveal_strlit("text");
    }
    match text_value_of(member_of(part, "text")) {
        Some(x) => {
            let ok = match &ty {
                Some(t) => crate::text::eq_str(&chars_of(t.as_str()), "output_text") || crate::text::eq_str(
                    &chars_of(t.as_str()),
                    "text",
                ),
                None => true,
            };
            if ok {
                Some(x)
            } else {
                None
            }
        },
        None => None,
    }
}

fn item_text_of(item: &JsonValue) -> (r: Option<String>)
    ensures
        opt_view(r) == item_text(*item),
{
    match member_of(item, "content") {
        Some(JsonValue::Array(parts)) => {
            let mut i: usize = 0;
            assert(parts@.subrange(0, parts@.len() as int) =~= parts@);
            while i < parts.len()
                invariant
                    i <= parts@.len(),
                    item_text(*item) == first_part_text(parts@),
                    first_part_text(parts@) == first_part_text(parts@.subrange(i as int, parts@.len() as int)),
                decreases parts.len() - i,
            {
                let ghost rest = parts@.subrange(i as int, parts@.len() as int);
                proof {
                    assert(rest[0] == parts@[i as int]);
                    assert(rest.subrange(1, rest.len() as int) =~= parts@.subrange(i + 1, parts@.len() as int));
                }
                let got = part_text_of(&parts[i]);
                if let Some(x) = got {
                    assert(first_part_text(rest) == part_text(parts@[i as int]));
                    return Some(x);
                }
                i += 1;
            }
            None
        },
        _ => None,
    }
}

/// The output text of a Responses API reply.
pub fn extract_responses_content(raw: &JsonValue) -> (r: Result<String, OpenAiError>)
    ensures
        match responses_content(*raw) {
            Some(t) => r matches Ok(s) && s@ == t,
            None => r == Err::<String, OpenAiError>(OpenAiError::MissingContent),
        },
{
    if let Some(t) = text_value_of(member_of(raw, "output_text")) {
        return Ok(t);
    }
    match member_of(raw, "output") {
        Some(JsonValue::Array(items)) => {
            let mut i: usize = 0;
            assert(items@.subrange(0, items@.len() as int) =~= items@);
            while i < items.len()
                invariant
                    i <= items@.len(),
                    responses_content(*raw) == first_item_text(items@),
                    first_item_text(items@) == first_item_text(items@.subrange(i as int, items@.len() as int)),
                decreases items.len() - i,
            {
                let ghost rest = items@.subrange(i as int, items@.len() as int);
                proof {
                    assert(rest[0] == items@[i as int]);
                    assert(rest.subrange(1, rest.len() as int) =~= items@.subrange(i + 1, items@.len() as int));
                }
                let got = item_text_of(&items[i]);
                if let Some(x) = got {
                    assert(first_item_text(rest) == item_text(items@[i as int]));
                    return Ok(x);
                }
                i += 1;
            }
            Err(OpenAiError::MissingContent)
        },
        _ => Err(OpenAiError::MissingContent),
    }
}

/// Model output read as JSON once trimmed and out of any code fence; a
/// text that does not parse is a decode error naming the parser's message.
pub fn parse_json_content(content: &str) -> (r: Result<JsonValue, OpenAiError>)
    ensures
        match json_parse(without_code_fence(trim(content@))) {
            Ok(v) => r matches Ok(x) && view_json(x) == v,
            Err(e) => r matches Err(OpenAiError::Decode(m)) && m@ == "model content not valid JSON: "@ + e,
        },
{
    let t = string_of(&trimmed(&chars_of(content)));
    let stripped = strip_code_fence(t.as_str());
    match parse_json(stripped.as_str()) {
        Ok(v) => Ok(v),
        Err(e) => {
            let mut m = chars_of("model content not valid JSON: ");
            append_str(&mut m, e.as_str());
            Err(OpenAiError::Decode(string_of(&m)))
        },
    }
}

// ---------------------------------------------------------------------
// Provider settings.

/// A configured output-token cap, when it is above zero.
pub fn provider_max_output_tokens(configured: Option<u32>) -> (r: Option<u32>)
    ensures
        r == (match configured {
            Some(n) => if n > 0 {
                Some(n)
            } else {
                None
            },
            None => None,
        }),
{
    match configured {
        Some(n) => if n > 0 {
            Some(n)
        } else {
            None
        },
        None => None,
    }
}

/// How many repair attempts to make: the configured count (two when none
/// is set), at most five.
pub fn provider_schema_repair_attempts(configured: Option<u8>) -> (r: usize)
    ensures
        r == (match configured {
            Some(n) => if n <= 5 {
                n as usize
            } else {
                5
            },
            None => 2,
        }),
{
    let n: usize = match configured {
        Some(n) => n as usize,
        None => 2,
    };
    if n <= 5 {
        n
    } else {
        5
    }
}

/// Which reply shape a provider sends back.
#[derive(Debug, Clone, Copy, PartialEq, Eq, Structural)]
pub enum ProviderResponseApi {
    ChatCompletions,
    Responses,
}

/// Where a generation request goes: its URL, whether the key travels in an
/// `api-key` header (else as a bearer `Authorization`), which reply shape
/// comes back, and the model named in the body, if any.
#[derive(Debug, Clone)]
pub struct ProviderTarget {
    pub url: String,
    pub api_key_header: bool,
    pub response_api: ProviderResponseApi,
    pub body_model: Option<String>,
}

/// The base URL without trailing slashes, then without trailing `/v1`.
pub open spec fn openai_base(base: Seq<char>) -> Seq<char> {
    strip_trailing_text(strip_trailing_text(base, "/"@), "/v1"@)
}

pub open spec fn target_spec(
    api: ProviderApiType,
    base: Seq<char>,
    model: Seq<char>,
    deployment: Option<Seq<char>>,
    version: Option<Seq<char>>,
) -> Result<(Seq<char>, bool, ProviderResponseApi, Option<Seq<char>>), OpenAiError> {
    match api {
        ProviderApiType::OpenAiCompatible => Ok(
            (openai_base(base) + "/v1/chat/completions"@, false, ProviderResponseApi::ChatCompletions, Some(model)),
        ),
        ProviderApiType::OpenAiResponses => Ok(
            (openai_base(base) + "/v1/responses"@, false, ProviderResponseApi::Responses, Some(model)),
        ),
        ProviderApiType::AzureOpenAiResponses => match present(deployment) {
            Some(d) => Ok(
                (strip_trailing_text(base, "/"@) + "/openai/v1/responses"@, true, ProviderResponseApi::Responses, Some(d)),
            ),
            None => match present(Some(model)) {
                Some(m) => Ok(
                    (strip_trailing_text(base, "/"@) + "/openai/v1/responses"@, true, ProviderResponseApi::Responses, Some(m)),
                ),
                None => Err(OpenAiError::Config("Azure OpenAI deployment is required; set deployment or model")),
            },
        },
        ProviderApiType::AzureOpenAi => {
            let d = match present(deployment) {
                Some(d) => Some(d),
                None => present(Some(model)),
            };
            match d {
                None => Err(OpenAiError::Config("Azure OpenAI deployment is required; set deployment or model")),
                Some(d) => match present(version) {
                    None => Err(OpenAiError::Config("Azure OpenAI API version is required for azure_openai providers")),
                    Some(v) => Ok(
                        (
                            strip_trailing_text(base, "/"@) + "/openai/deployments/"@ + d + "/chat/completions?api-version="@ + v,
                            true,
                            ProviderResponseApi::ChatCompletions,
                            None,
                        ),
                    ),
                },
            }
        },
    }
}

fn strip_trailing(s: &Vec<char>, pat: &str) -> (r: Vec<char>)
    requires
        pat@.len() > 0,
    ensures
        r@ == strip_trailing_text(s@, pat@),
{
    let p = chars_of(pat);
    let mut end: usize = s.len();
    assert(s@.subrange(0, s@.len() as int) =~= s@);
    while end >= p.len() && ends_with_of(&slice(s, 0, end), &p)
        invariant
            end <= s@.len(),
            p@ == pat@,
            p@.len() > 0,
            strip_trailing_text(s@, pat@) == strip_trailing_text(s@.subrange(0, end as int), pat@),
        decreases end,
    {
        proof {
            assert(s@.subrange(0, end as int).subrange(0, end - p@.len()) =~= s@.subrange(0, end - p@.len()));
        }
        end -= p.len();
    }
    slice(s, 0, end)
}

/// Where a request goes for the configured provider (see `target_spec`).
pub fn provider_target(
    api: ProviderApiType,
    base_url: &str,
    model: &str,
    azure_deployment: Option<&str>,
    azure_api_version: Option<&str>,
) -> (r: Result<ProviderTarget, OpenAiError>)
    ensures
        match target_spec(api, base_url@, model@, opt_str(azure_deployment), opt_str(azure_api_version)) {
            Ok(t) => r matches Ok(x) && x.url@ == t.0 && x.api_key_header == t.1 && x.response_api == t.2
                && opt_view(x.body_model) == t.3,
            Err(e) => r == Err::<ProviderTarget, OpenAiError>(e),
        },
{
    proof {
        reveal_strlit("/");
        reveal_strlit("/v1");
    }
    let base = strip_trailing(&chars_of(base_url), "/");
    match api {
        ProviderApiType::OpenAiCompatible => {
            let mut url = strip_trailing(&base, "/v1");
            append_str(&mut url, "/v1/chat/completions");
            Ok(ProviderTarget {
                url: string_of(&url),
                api_key_header: false,
                response_api: ProviderResponseApi::ChatCompletions,
                body_model: Some(model.to_string()),
            })
        },
        ProviderApiType::OpenAiResponses => {
            let mut url = strip_trailing(&base, "/v1");
            append_str(&mut url, "/v1/responses");
            Ok(ProviderTarget {
                url: string_of(&url),
                api_key_header: false,
                response_api: ProviderResponseApi::Responses,
                body_model: Some(model.to_string()),
            })
        },
        ProviderApiType::AzureOpenAiResponses => {
            let deployment = match non_empty_or_model(azure_deployment, model) {
                Ok(d) => d,
                Err(e) => return Err(e),
            };
            let mut url = base;
            append_str(&mut url, "/openai/v1/responses");
            Ok(ProviderTarget {
                url: string_of(&url),
                api_key_header: true,
                response_api: ProviderResponseApi::Responses,
                body_model: Some(deployment),
            })
        },
        ProviderApiType::AzureOpenAi => {
            let deployment = match non_empty_or_model(azure_deployment, model) {
                Ok(d) => d,
                Err(e) => return Err(e),
            };
            let version = match non_empty(
                azure_api_version,
                "Azure OpenAI API version is required for azure_openai providers",
            ) {
                Ok(v) => v,
                Err(e) => return Err(e),
            };
            let mut url = base;
            append_str(&mut url, "/openai/deployments/");
            append_str(&mut url, deployment.as_str());
            append_str(&mut url, "/chat/completions?api-version=");
            append_str(&mut url, version.as_str());
            Ok(ProviderTarget {
                url: string_of(&url),
                api_key_header: true,
                response_api: ProviderResponseApi::ChatCompletions,
                body_model: None,
            })
        },
    }
}

/// The header that carries a provider key, and its value: a bearer token
/// under `authorization`, or the bare key under `api-key` (Azure).
pub open spec fn credential_header(api_key_header: bool, key: Seq<char>) -> (Seq<char>, Seq<char>) {
    if api_key_header {
        ("api-key"@, key)
    } else {
        ("authorization"@, "Bearer "@ + key)
    }
}

/// The credential header of a provider request. Without a key there is no
/// request: the error names the variable that should have held it. This is
/// decided before anything else about the request.
pub fn request_credentials(api_key: Option<&str>, api_key_env: &str, api_key_header: bool) -> (r: Result<(String, String), OpenAiError>)
    ensures
        match api_key {
            None => r matches Err(OpenAiError::MissingApiKey(v)) && v@ == api_key_env@,
            Some(k) => r matches Ok(h) && (h.0@, h.1@) == credential_header(api_key_header, k@),
        },
{
    match api_key {
        None => Err(OpenAiError::MissingApiKey(api_key_env.to_string())),
        Some(k) => {
            if api_key_header {
                Ok(("api-key".to_string(), k.to_string()))
            } else {
                let mut v = chars_of("Bearer ");
                append_str(&mut v, k);
                Ok(("authorization".to_string(), string_of(&v)))
            }
        },
    }
}

// ---------------------------------------------------------------------
// The decisions between provider calls.

/// What follows a reply: keep an example, or send a repair prompt (the
/// reply that was checked rides along, as the payload to fall back on).
#[derive(Debug)]
pub enum GenerationStep {
    Finish(MockExample),
    Retry { bundle: PromptBundle, current: JsonValue },
}

/// `step` keeps `payload` as an example of the intent, noted with `extra`.
pub open spec fn finished(step: GenerationStep, payload: JsonValue, intent: GenerationIntent, extra: Option<Seq<char>>) -> bool {
    step matches GenerationStep::Finish(ex) && ex.kind == intent_kind(intent) && ex.title@ == intent_title(intent)
        && (view_json(ex.payload) == view_json(payload)) && (ex.note matches Some(n) && n@ == generated_note(
        intent_kind(intent),
        extra,
    ))
}

/// `step` asks again with the repair prompt for `errors`, keeping `current`.
pub open spec fn retrying(step: GenerationStep, original: PromptBundle, errors: Seq<Seq<char>>, current: JsonValue) -> bool {
    step matches GenerationStep::Retry { bundle, current: c } && bundle.system == original.system && (view_json(
        bundle.endpoint_context,
    ) == view_json(original.endpoint_context)) && bundle.user@ == repair_prompt(original.user@, errors) && (view_json(
        c,
    ) == view_json(current))
}

fn finish_with(payload: &JsonValue, intent: GenerationIntent, extra: Option<String>) -> (r: GenerationStep)
    ensures
        finished(r, *payload, intent, opt_view(extra)),
{
    GenerationStep::Finish(parse_response_payload(payload, intent, extra).unwrap())
}

fn joined(errors: &Vec<String>, sep: &str) -> (r: Vec<char>)
    ensures
        r@ == join(msgs(errors@), sep@),
{
    let mut parts: Vec<Vec<char>> = Vec::new();
    let mut i: usize = 0;
    while i < errors.len()
        invariant
            i <= errors@.len(),
            parts@.len() == i,
            forall|k: int| 0 <= k < i ==> (#[trigger] parts@[k])@ == errors@[k]@,
        decreases errors.len() - i,
    {
        parts.push(chars_of(errors[i].as_str()));
        i += 1;
    }
    assert(crate::text::views(parts@) =~= msgs(errors@));
    join_of(&parts, sep)
}

/// The step that follows a first reply `raw` (see `after_first_reply`).
pub open spec fn first_step(
    schema: Option<SchemaNode>,
    bundle: PromptBundle,
    intent: GenerationIntent,
    repair_attempts: usize,
    raw: JsonValue,
    r: GenerationStep,
) -> bool {
    match schema {
        None => finished(r, raw, intent, None),
        Some(s) => {
            let errs = errors_at(s, raw, "$"@);
            if errs.len() == 0 {
                finished(r, raw, intent, None)
            } else if repair_attempts == 0 {
                finished(
                    r,
                    raw,
                    intent,
                    Some("Schema validation failed and repair retries are disabled: "@ + join(errs, "; "@)),
                )
            } else {
                retrying(r, bundle, errs, raw)
            }
        },
    }
}

/// The step that follows the reply to repair attempt `attempt` (see
/// `after_repair_reply`).
pub open spec fn repair_step(
    schema: SchemaNode,
    bundle: PromptBundle,
    intent: GenerationIntent,
    repair_attempts: usize,
    attempt: usize,
    current: JsonValue,
    reply: Result<JsonValue, OpenAiError>,
    r: GenerationStep,
) -> bool {
    match reply {
        Err(e) => finished(
            r,
            current,
            intent,
            Some(
                "Schema validation failed; repair attempt "@ + decimal(attempt as nat) + " errored: "@
                    + openai_error_text(e),
            ),
        ),
        Ok(v) => {
            let errs = errors_at(schema, v, "$"@);
            if errs.len() == 0 {
                finished(
                    r,
                    v,
                    intent,
                    Some("Repaired after "@ + decimal(attempt as nat) + " validation retry attempt(s)."@),
                )
            } else if attempt >= repair_attempts {
                finished(
                    r,
                    v,
                    intent,
                    Some(
                        "Schema validation still failing after "@ + decimal(repair_attempts as nat)
                            + " repair attempt(s): "@ + join(errs, "; "@),
                    ),
                )
            } else {
                retrying(r, bundle, errs, v)
            }
        },
    }
}

/// The step after the first reply: keep it when there is no schema to hold
/// it to or it passes; otherwise keep it with a note when repairs are off,
/// else ask for a repair.
pub fn after_first_reply(
    schema: &Option<SchemaNode>,
    bundle: &PromptBundle,
    intent: GenerationIntent,
    repair_attempts: usize,
    raw: &JsonValue,
) -> (r: GenerationStep)
    ensures
        first_step(*schema, *bundle, intent, repair_attempts, *raw, r),
{
    match schema {
        None => finish_with(raw, intent, None),
        Some(s) => {
            let errors = validate_value(s, raw);
            assert(msgs(errors@).len() == errors@.len());
            if errors.len() == 0 {
                return finish_with(raw, intent, None);
            }
            if repair_attempts == 0 {
                let mut note = chars_of("Schema validation failed and repair retries are disabled: ");
                append(&mut note, &joined(&errors, "; "));
                return finish_with(raw, intent, Some(string_of(&note)));
            }
            GenerationStep::Retry { bundle: build_repair_bundle(bundle, &errors), current: json_clone(raw) }
        },
    }
}

/// The step after repair attempt `attempt`: a failed call keeps the last
/// payload with a note; a reply that passes is kept as repaired; after the
/// last allowed attempt a failing reply is kept with its problems noted;
/// otherwise another repair is asked for.
pub fn after_repair_reply(
    schema: &SchemaNode,
    bundle: &PromptBundle,
    intent: GenerationIntent,
    repair_attempts: usize,
    attempt: usize,
    current: &JsonValue,
    reply: &Result<JsonValue, OpenAiError>,
) -> (r: GenerationStep)
    ensures
        repair_step(*schema, *bundle, intent, repair_attempts, attempt, *current, *reply, r),
{
    match reply {
        Err(e) => {
            let mut note = chars_of("Schema validation failed; repair attempt ");
            append(&mut note, &decimal_of(attempt as u64));
            append_str(&mut note, " errored: ");
            append_str(&mut note, e.message().as_str());
            finish_with(current, intent, Some(string_of(&note)))
        },
        Ok(v) => {
            let errors = validate_value(schema, v);
            assert(msgs(errors@).len() == errors@.len());
            if errors.len() == 0 {
                let mut note = chars_of("Repaired after ");
                append(&mut note, &decimal_of(attempt as u64));
                append_str(&mut note, " validation retry attempt(s).");
                return finish_with(v, intent, Some(string_of(&note)));
            }
            if attempt >= repair_attempts {
                let mut note = chars_of("Schema validation still failing after ");
                append(&mut note, &decimal_of(repair_attempts as u64));
                append_str(&mut note, " repair attempt(s): ");
                append(&mut note, &joined(&errors, "; "));
                return finish_with(v, intent, Some(string_of(&note)));
            }
            GenerationStep::Retry { bundle: build_repair_bundle(bundle, &errors), current: json_clone(v) }
        },
    }
}

/// The repair loop is bounded: with repairs off the first reply already
/// ends the generation, and the reply to attempt `repair_attempts` (or any
/// later one) ends it whatever it holds, so a driver that numbers its
/// repair attempts from 1 sends at most `1 + repair_attempts` requests.
pub proof fn law_repair_bounded(
    schema: SchemaNode,
    first_schema: Option<SchemaNode>,
    bundle: PromptBundle,
    intent: GenerationIntent,
    repair_attempts: usize,
    attempt: usize,
    raw: JsonValue,
    current: JsonValue,
    reply: Result<JsonValue, OpenAiError>,
    first: GenerationStep,
    later: GenerationStep,
)
    ensures
        repair_attempts == 0 && first_step(first_schema, bundle, intent, repair_attempts, raw, first) ==> first is Finish,
        attempt >= repair_attempts && repair_step(schema, bundle, intent, repair_attempts, attempt, current, reply, later)
            ==> later is Finish,
{
}

/// `steps` is a run of the generation loop: the first step follows the
/// first reply, and each later step follows the reply `replies[i - 1]` to
/// repair attempt `i`, sent because the step before it asked for a repair
/// (with that step's prompt and kept payload).
pub open spec fn generation_run(
    schema: SchemaNode,
    bundle: PromptBundle,
    intent: GenerationIntent,
    repair_attempts: usize,
    raw: JsonValue,
    replies: Seq<Result<JsonValue, OpenAiError>>,
    steps: Seq<GenerationStep>,
) -> bool {
    &&& steps.len() >= 1
    &&& steps.len() <= replies.len() + 1
    &&& first_step(Some(schema), bundle, intent, repair_attempts, raw, steps[0])
    &&& forall|i: int|
        1 <= i < steps.len() ==> i <= usize::MAX && repaired_after(schema, intent, repair_attempts, i as usize, steps[i - 1], replies[i - 1], #[trigger] steps[i])
}

/// `next` follows the reply to repair attempt `attempt`, which `prev`
/// asked for.
pub open spec fn repaired_after(
    schema: SchemaNode,
    intent: GenerationIntent,
    repair_attempts: usize,
    attempt: usize,
    prev: GenerationStep,
    reply: Result<JsonValue, OpenAiError>,
    next: GenerationStep,
) -> bool {
    match prev {
        GenerationStep::Retry { bundle, current } => repair_step(schema, bundle, intent, repair_attempts, attempt, current, reply, next),
        GenerationStep::Finish(_) => false,
    }
}

/// A run of the generation loop sends at most `1 + repair_attempts`
/// requests: no run has more steps than that.
pub proof fn law_generation_run_bounded(
    schema: SchemaNode,
    bundle: PromptBundle,
    intent: GenerationIntent,
    repair_attempts: usize,
    raw: JsonValue,
    replies: Seq<Result<JsonValue, OpenAiError>>,
    steps: Seq<GenerationStep>,
)
    requires
        generation_run(schema, bundle, intent, repair_attempts, raw, replies, steps),
    ensures
        steps.len() <= repair_attempts + 1,
{
    if steps.len() > repair_attempts + 1 {
        let n = repair_attempts as int;
        if n == 0 {
            assert(steps[0] is Retry) by {
                let _ = steps[1];
            }
        } else {
            assert(steps[n] is Retry) by {
                let _ = steps[n + 1];
            }
            let _ = steps[n];
            assert(steps[n - 1] is Retry);
        }
    }
}

} // verus!
