//! Mock payloads synthesized from schemas, and the default examples of an
//! endpoint.
use vstd::prelude::*;
use crate::canonical::{CanonicalEndpoint, CanonicalResponse, MockExample, SchemaNode};
use crate::json::{JsonNumber, JsonSpec, JsonValue, NumberSpec, json_clone, lemma_view_entries, lemma_view_items, view_entries, view_items, view_json};
use crate::model::{MockExampleKind, SchemaNodeType, spec_is_error_status, spec_is_success_status, is_error_status, is_success_status};
use crate::text::{chars_of, contains, contains_of, ends_with, ends_with_of, eq_str, lower, to_lower};

verus! {

/// How a schema is walked: a rich sample, an empty-state variant, or the
/// error variant.
#[derive(Debug, Clone, Copy, PartialEq, Eq)]
pub enum SynthMode {
    Rich,
    Empty,
    Error,
}

pub open spec fn uuid_sample() -> Seq<char> {
    "00000000-0000-4000-8000-000000000000"@
}

/// The sample string for a property, by its lower-cased name.
pub open spec fn string_sample(hint: Seq<char>) -> Seq<char> {
    if hint == "id"@ || hint == "uuid"@ || hint == "guid"@ || ends_with(hint, "id"@) {
        uuid_sample()
    } else if ends_with(hint, "at"@) || contains(hint, "time"@) || contains(hint, "date"@) {
        "2026-01-01T00:00:00Z"@
    } else if contains(hint, "email"@) {
        "user@example.com"@
    } else if contains(hint, "url"@) || contains(hint, "link"@) {
        "https://example.com"@
    } else if contains(hint, "name"@) {
        "Ada Lovelace"@
    } else if contains(hint, "phone"@) {
        "+1-555-0100"@
    } else {
        "sample"@
    }
}

/// The payload synthesized for `schema`: its example when it has one, else
/// a value per type (`name` is the property the schema describes).
pub open spec fn synth_spec(schema: SchemaNode, name: Option<Seq<char>>, mode: SynthMode) -> JsonSpec
    decreases schema, 1int,
{
    if schema.example is Some {
        view_json(schema.example->0)
    } else {
        match schema.node_type {
            SchemaNodeType::Object => JsonSpec::Object(synth_props(schema.properties@, mode)),
            SchemaNodeType::Array => if mode == SynthMode::Empty {
                JsonSpec::Array(Seq::empty())
            } else {
                match schema.items {
                    Some(inner) => JsonSpec::Array(seq![synth_spec(*inner, None, mode)]),
                    None => JsonSpec::Array(seq![JsonSpec::Null]),
                }
            },
            SchemaNodeType::String => if schema.enum_values@.len() > 0 {
                view_json(schema.enum_values@[0])
            } else if mode == SynthMode::Empty {
                JsonSpec::String(Seq::empty())
            } else {
                JsonSpec::String(
                    string_sample(
                        lower(
                            match name {
                                Some(n) => n,
                                None => "value"@,
                            },
                        ),
                    ),
                )
            },
            SchemaNodeType::Integer => if schema.enum_values@.len() > 0 {
                view_json(schema.enum_values@[0])
            } else if mode == SynthMode::Empty {
                JsonSpec::Number(NumberSpec::PosInt(0))
            } else {
                JsonSpec::Number(NumberSpec::PosInt(42))
            },
            SchemaNodeType::Number => if mode == SynthMode::Empty {
                JsonSpec::Number(NumberSpec::Float("0.0"@))
            } else {
                JsonSpec::Number(NumberSpec::Float("1.5"@))
            },
            SchemaNodeType::Boolean => JsonSpec::Bool(mode == SynthMode::Rich),
            SchemaNodeType::Null => JsonSpec::Null,
            SchemaNodeType::Unknown => if schema.nullable {
                JsonSpec::Null
            } else {
                JsonSpec::String(Seq::empty())
            },
        }
    }
}

/// Each property with the payload of its schema, in property order.
pub open spec fn synth_props(props: Seq<(String, SchemaNode)>, mode: SynthMode) -> Seq<(Seq<char>, JsonSpec)>
    decreases props, 0int,
{
    if props.len() == 0 {
        Seq::empty()
    } else {
        synth_props(props.drop_last(), mode).push(
            (props.last().0@, synth_spec(props.last().1, Some(props.last().0@), mode)),
        )
    }
}

fn string_sample_of(hint: &[char]) -> (r: &'static str)
    ensures
        r@ == string_sample(hint@),
{
    if eq_str(hint, "id") || eq_str(hint, "uuid") || eq_str(hint, "guid") || ends_with_of(hint, &chars_of("id")) {
        "00000000-0000-4000-8000-000000000000"
    } else if ends_with_of(hint, &chars_of("at")) || contains_of(hint, &chars_of("time")) || contains_of(
        hint,
        &chars_of("date"),
    ) {
        proof {
            crate::text::lemma_find_from(hint@, "time"@, 0);
            crate::text::lemma_find_from(hint@, "date"@, 0);
        }
        "2026-01-01T00:00:00Z"
    } else {
        proof {
            crate::text::lemma_find_from(hint@, "time"@, 0);
            crate::text::lemma_find_from(hint@, "date"@, 0);
            crate::text::lemma_find_from(hint@, "email"@, 0);
            crate::text::lemma_find_from(hint@, "url"@, 0);
            crate::text::lemma_find_from(hint@, "link"@, 0);
            crate::text::lemma_find_from(hint@, "name"@, 0);
            crate::text::lemma_find_from(hint@, "phone"@, 0);
        }
        if contains_of(hint, &chars_of("email")) {
            "user@example.com"
        } else if contains_of(hint, &chars_of("url")) || contains_of(hint, &chars_of("link")) {
            "https://example.com"
        } else if contains_of(hint, &chars_of("name")) {
            "Ada Lovelace"
        } else if contains_of(hint, &chars_of("phone")) {
            "+1-555-0100"
        } else {
            "sample"
        }
    }
}

fn text(s: &str) -> (r: JsonValue)
    ensures
        view_json(r) == JsonSpec::String(s@),
{
    JsonValue::String(s.to_string())
}

/// The payload of `schema` (see `synth_spec`).
pub fn synthesize_value_with_name(schema: &SchemaNode, name: Option<&str>, mode: SynthMode) -> (r: JsonValue)
    ensures
        view_json(r) == synth_spec(
            *schema,
            match name {
                Some(n) => Some(n@),
                None => None,
            },
            mode,
        ),
    decreases *schema,
{
    if let Some(example) = &schema.example {
        return json_clone(example);
    }
    match schema.node_type {
        SchemaNodeType::Object => {
            let mut out: Vec<(String, JsonValue)> = Vec::new();
            let mut i: usize = 0;
            proof {
                assert(decreases_to!(*schema => schema.properties));
                assert(decreases_to!(schema.properties => schema.properties@));
            }
            while i < schema.properties.len()
                invariant
                    i <= schema.properties@.len(),
                    view_entries(out@) == synth_props(schema.properties@.subrange(0, i as int), mode),
                    decreases_to!(*schema => schema.properties@),
                decreases schema.properties.len() - i,
            {
                proof {
                    assert(decreases_to!(schema.properties@ => schema.properties@[i as int]));
                    assert(decreases_to!(schema.properties@[i as int] => schema.properties@[i as int].1));
                    assert(schema.properties@.subrange(0, i + 1).drop_last() =~= schema.properties@.subrange(0, i as int));
                }
                let v = synthesize_value_with_name(&schema.properties[i].1, Some(schema.properties[i].0.as_str()), mode);
                let ghost prev = out@;
                out.push((schema.properties[i].0.clone(), v));
                proof {
                    lemma_view_entries(out@);
                    lemma_view_entries(prev);
                    assert(view_entries(out@) =~= view_entries(prev).push((schema.properties@[i as int].0@, view_json(v))));
                }
                i += 1;
            }
            proof {
                assert(schema.properties@.subrange(0, schema.properties@.len() as int) =~= schema.properties@);
            }
            JsonValue::Object(out)
        },
        SchemaNodeType::Array => {
            if matches!(mode, SynthMode::Empty) {
                let empty: Vec<JsonValue> = Vec::new();
                proof {
                    lemma_view_items(empty@);
                    assert(view_items(empty@) =~= Seq::<JsonSpec>::empty());
                }
                return JsonValue::Array(empty);
            }
            let item = match &schema.items {
                Some(inner) => {
                    proof {
                        assert(decreases_to!(*schema => schema.items));
                    }
                    synthesize_value_with_name(inner, None, mode)
                },
                None => JsonValue::Null,
            };
            let mut v: Vec<JsonValue> = Vec::new();
            v.push(item);
            proof {
                lemma_view_items(v@);
                assert(view_items(v@) =~= seq![view_json(item)]);
            }
            JsonValue::Array(v)
        },
        SchemaNodeType::String => {
            if schema.enum_values.len() > 0 {
                return json_clone(&schema.enum_values[0]);
            }
            if matches!(mode, SynthMode::Empty) {
                return JsonValue::String(String::new());
            }
            let hint = match name {
                Some(n) => to_lower(&chars_of(n)),
                None => to_lower(&chars_of("value")),
            };
            text(string_sample_of(&hint))
        },
        SchemaNodeType::Integer => {
            if schema.enum_values.len() > 0 {
                return json_clone(&schema.enum_values[0]);
            }
            if matches!(mode, SynthMode::Empty) {
                JsonValue::Number(JsonNumber::PosInt(0))
            } else {
                JsonValue::Number(JsonNumber::PosInt(42))
            }
        },
        SchemaNodeType::Number => {
            if matches!(mode, SynthMode::Empty) {
                JsonValue::Number(JsonNumber::Float("0.0".to_string()))
            } else {
                JsonValue::Number(JsonNumber::Float("1.5".to_string()))
            }
        },
        SchemaNodeType::Boolean => JsonValue::Bool(matches!(mode, SynthMode::Rich)),
        SchemaNodeType::Null => JsonValue::Null,
        SchemaNodeType::Unknown => {
            if schema.nullable {
                JsonValue::Null
            } else {
                JsonValue::String(String::new())
            }
        },
    }
}

/// A plausible payload for `schema`.
pub fn synthesize_value(schema: &SchemaNode) -> (r: JsonValue)
    ensures
        view_json(r) == synth_spec(*schema, None, SynthMode::Rich),
{
    synthesize_value_with_name(schema, None, SynthMode::Rich)
}

/// An example note holding `t`.
pub open spec fn note_is(o: Option<String>, t: Seq<char>) -> bool {
    match o {
        Some(n) => n@ == t,
        None => false,
    }
}

/// `{"success": true}`.
pub open spec fn success_placeholder() -> JsonSpec {
    JsonSpec::Object(seq![("success"@, JsonSpec::Bool(true))])
}

/// `{"data": []}`.
pub open spec fn empty_placeholder() -> JsonSpec {
    JsonSpec::Object(seq![("data"@, JsonSpec::Array(Seq::empty()))])
}

/// `{"error": {"message": message}}`, with `code` first when given.
pub open spec fn error_placeholder(code: Option<Seq<char>>, message: Seq<char>) -> JsonSpec {
    JsonSpec::Object(
        seq![
            (
                "error"@,
                JsonSpec::Object(
                    match code {
                        Some(c) => seq![("code"@, JsonSpec::String(c)), ("message"@, JsonSpec::String(message))],
                        None => seq![("message"@, JsonSpec::String(message))],
                    },
                ),
            ),
        ],
    )
}

fn object_of(entries: Vec<(String, JsonValue)>) -> (r: JsonValue)
    ensures
        view_json(r) == JsonSpec::Object(view_entries(entries@)),
{
    JsonValue::Object(entries)
}

fn success_payload() -> (r: JsonValue)
    ensures
        view_json(r) == success_placeholder(),
{
    let mut e: Vec<(String, JsonValue)> = Vec::new();
    e.push(("success".to_string(), JsonValue::Bool(true)));
    proof {
        lemma_view_entries(e@);
        assert(view_entries(e@) =~= seq![("success"@, JsonSpec::Bool(true))]);
    }
    object_of(e)
}

fn empty_payload() -> (r: JsonValue)
    ensures
        view_json(r) == empty_placeholder(),
{
    let items: Vec<JsonValue> = Vec::new();
    proof {
        lemma_view_items(items@);
        assert(view_items(items@) =~= Seq::<JsonSpec>::empty());
    }
    let mut e: Vec<(String, JsonValue)> = Vec::new();
    e.push(("data".to_string(), JsonValue::Array(items)));
    proof {
        lemma_view_entries(e@);
        assert(view_entries(e@) =~= seq![("data"@, JsonSpec::Array(Seq::empty()))]);
    }
    object_of(e)
}

fn error_payload(code: Option<&str>, message: &str) -> (r: JsonValue)
    ensures
        view_json(r) == error_placeholder(
            match code {
                Some(c) => Some(c@),
                None => None,
            },
            message@,
        ),
{
    let mut inner: Vec<(String, JsonValue)> = Vec::new();
    if let Some(c) = code {
        inner.push(("code".to_string(), text(c)));
    }
    inner.push(("message".to_string(), text(message)));
    proof {
        lemma_view_entries(inner@);
        match code {
            Some(c) => assert(view_entries(inner@) =~= seq![("code"@, JsonSpec::String(c@)), ("message"@, JsonSpec::String(message@))]),
            None => assert(view_entries(inner@) =~= seq![("message"@, JsonSpec::String(message@))]),
        }
    }
    let mut e: Vec<(String, JsonValue)> = Vec::new();
    let inner_value = object_of(inner);
    e.push(("error".to_string(), inner_value));
    proof {
        lemma_view_entries(e@);
        assert(view_entries(e@) =~= seq![("error"@, view_json(inner_value))]);
    }
    object_of(e)
}

fn example(kind: MockExampleKind, title: &str, payload: JsonValue, note: &str) -> (r: MockExample)
    ensures
        r.kind == kind,
        r.title@ == title@,
        view_json(r.payload) == view_json(payload),
        note_is(r.note, note@),
{
    MockExample { kind, title: title.to_string(), payload, note: Some(note.to_string()) }
}

/// The placeholder examples: success, empty and error, in that order.
pub open spec fn is_default_examples(r: Seq<MockExample>) -> bool {
    &&& r.len() == 3
    &&& r[0].kind == MockExampleKind::Success && r[0].title@ == "Success"@ && view_json(r[0].payload)
        == success_placeholder() && note_is(r[0].note, "Default success placeholder generated during import."@)
    &&& r[1].kind == MockExampleKind::Empty && r[1].title@ == "Empty"@ && view_json(r[1].payload)
        == empty_placeholder() && note_is(r[1].note, "Default empty placeholder generated during import."@)
    &&& r[2].kind == MockExampleKind::Error && r[2].title@ == "Error"@ && view_json(r[2].payload)
        == error_placeholder(None, "Mock error placeholder"@) && note_is(
        r[2].note,
        "Default error placeholder generated during import."@,
    )
}

/// The placeholder examples of an endpoint imported without any: success,
/// empty and error, in that order.
pub fn default_mock_examples() -> (r: Vec<MockExample>)
    ensures
        is_default_examples(r@),
{
    let mut v: Vec<MockExample> = Vec::new();
    v.push(example(MockExampleKind::Success, "Success", success_payload(), "Default success placeholder generated during import."));
    v.push(example(MockExampleKind::Empty, "Empty", empty_payload(), "Default empty placeholder generated during import."));
    v.push(example(MockExampleKind::Error, "Error", error_payload(None, "Mock error placeholder"), "Default error placeholder generated during import."));
    v
}

/// Index of the first response whose status code is a success (`2xx`) or,
/// when `success` is false, an error (`4xx`/`5xx`).
pub open spec fn pick_response(responses: Seq<CanonicalResponse>, success: bool) -> Option<int>
    decreases responses.len(),
{
    if responses.len() == 0 {
        None
    } else {
        match pick_response(responses.drop_last(), success) {
            Some(i) => Some(i),
            None => {
                let code = responses.last().status_code@;
                if (success && spec_is_success_status(code)) || (!success && spec_is_error_status(code)) {
                    Some(responses.len() - 1)
                } else {
                    None
                }
            },
        }
    }
}

fn pick_response_of(responses: &Vec<CanonicalResponse>, success: bool) -> (r: Option<usize>)
    ensures
        match r {
            Some(i) => pick_response(responses@, success) == Some(i as int) && i < responses@.len(),
            None => pick_response(responses@, success) is None,
        },
{
    let mut i: usize = 0;
    while i < responses.len()
        invariant
            i <= responses@.len(),
            pick_response(responses@.subrange(0, i as int), success) is None,
        decreases responses.len() - i,
    {
        proof {
            assert(responses@.subrange(0, i + 1).drop_last() =~= responses@.subrange(0, i as int));
        }
        let code = responses[i].status_code.as_str();
        let hit = if success {
            is_success_status(code)
        } else {
            is_error_status(code)
        };
        if hit {
            proof {
                lemma_pick_prefix(responses@, i as int + 1, success);
            }
            return Some(i);
        }
        i += 1;
    }
    proof {
        assert(responses@.subrange(0, responses@.len() as int) =~= responses@);
    }
    None
}

/// A pick found in a prefix is the pick of the whole list.
proof fn lemma_pick_prefix(rs: Seq<CanonicalResponse>, n: int, success: bool)
    requires
        0 <= n <= rs.len(),
        pick_response(rs.subrange(0, n), success) is Some,
    ensures
        pick_response(rs, success) == pick_response(rs.subrange(0, n), success),
    decreases rs.len() - n,
{
    if n < rs.len() {
        assert(rs.subrange(0, n + 1).drop_last() =~= rs.subrange(0, n));
        lemma_pick_prefix(rs, n + 1, success);
    } else {
        assert(rs.subrange(0, n) =~= rs);
    }
}

/// The schema of the picked response, if it has one.
pub open spec fn picked_schema(responses: Seq<CanonicalResponse>, success: bool) -> Option<SchemaNode> {
    match pick_response(responses, success) {
        Some(i) => responses[i].schema,
        None => None,
    }
}

pub open spec fn payload_or(schema: Option<SchemaNode>, mode: SynthMode, fallback: JsonSpec) -> JsonSpec {
    match schema {
        Some(s) => synth_spec(s, None, mode),
        None => fallback,
    }
}

/// The success, empty and error examples synthesized for an endpoint with
/// these responses.
pub open spec fn synthesized(responses: Seq<CanonicalResponse>, r: Seq<MockExample>) -> bool {
    &&& r.len() == 3
    &&& r[0].kind == MockExampleKind::Success && r[0].title@ == "Success"@ && view_json(r[0].payload)
        == payload_or(picked_schema(responses, true), SynthMode::Rich, success_placeholder())
        && note_is(r[0].note, "Synthesized from response schema."@)
    &&& r[1].kind == MockExampleKind::Empty && r[1].title@ == "Empty"@ && view_json(r[1].payload)
        == payload_or(picked_schema(responses, true), SynthMode::Empty, empty_placeholder())
        && note_is(r[1].note, "Empty-state variant synthesized from schema."@)
    &&& r[2].kind == MockExampleKind::Error && r[2].title@ == "Error"@ && view_json(r[2].payload)
        == payload_or(picked_schema(responses, false), SynthMode::Error, error_placeholder(Some("bad_request"@), "Mock error"@))
        && note_is(r[2].note, "Error variant synthesized from schema or defaults."@)
}

/// The success, empty and error examples of an endpoint, synthesized from
/// its first success (`2xx`) and first error (`4xx`/`5xx`) response
/// schemas; a missing schema gives the generic placeholder payload.
pub fn synthesize_examples(endpoint: &CanonicalEndpoint) -> (r: Vec<MockExample>)
    ensures
        synthesized(endpoint.responses@, r@),
{
    let success_schema: Option<&SchemaNode> = match pick_response_of(&endpoint.responses, true) {
        Some(i) => match &endpoint.responses[i].schema {
            Some(s) => Some(s),
            None => None,
        },
        None => None,
    };
    let error_schema: Option<&SchemaNode> = match pick_response_of(&endpoint.responses, false) {
        Some(i) => match &endpoint.responses[i].schema {
            Some(s) => Some(s),
            None => None,
        },
        None => None,
    };
    let success = match success_schema {
        Some(s) => synthesize_value_with_name(s, None, SynthMode::Rich),
        None => success_payload(),
    };
    let empty = match success_schema {
        Some(s) => synthesize_value_with_name(s, None, SynthMode::Empty),
        None => empty_payload(),
    };
    let error = match error_schema {
        Some(s) => synthesize_value_with_name(s, None, SynthMode::Error),
        None => error_payload(Some("bad_request"), "Mock error"),
    };
    let mut v: Vec<MockExample> = Vec::new();
    v.push(example(MockExampleKind::Success, "Success", success, "Synthesized from response schema."));
    v.push(example(MockExampleKind::Empty, "Empty", empty, "Empty-state variant synthesized from schema."));
    v.push(example(MockExampleKind::Error, "Error", error, "Error variant synthesized from schema or defaults."));
    v
}


/// A synthesized value respects the schema's choices: a given example is
/// used as it is, and a string or integer schema with an enumeration
/// yields one of its members.
pub proof fn law_synthesized_value_in_enum(schema: SchemaNode, name: Option<Seq<char>>, mode: SynthMode)
    ensures
        schema.example matches Some(e) ==> synth_spec(schema, name, mode) == view_json(e),
        schema.example is None && schema.enum_values@.len() > 0 && (schema.node_type == SchemaNodeType::String
            || schema.node_type == SchemaNodeType::Integer) ==> exists|i: int|
            0 <= i < schema.enum_values@.len() && synth_spec(schema, name, mode) == view_json(
                #[trigger] schema.enum_values@[i],
            ),
{
    if schema.example is None && schema.enum_values@.len() > 0 && (schema.node_type == SchemaNodeType::String
        || schema.node_type == SchemaNodeType::Integer) {
        assert(synth_spec(schema, name, mode) == view_json(schema.enum_values@[0]));
    }
}


/// The keys of object entries, in order.
pub open spec fn entry_names(es: Seq<(Seq<char>, JsonSpec)>) -> Seq<Seq<char>> {
    es.map_values(|e: (Seq<char>, JsonSpec)| e.0)
}

/// The property names of a schema, in order.
pub open spec fn prop_names(props: Seq<(String, SchemaNode)>) -> Seq<Seq<char>> {
    props.map_values(|p: (String, SchemaNode)| p.0@)
}

proof fn lemma_synth_props_names(props: Seq<(String, SchemaNode)>, mode: SynthMode)
    ensures
        entry_names(synth_props(props, mode)) == prop_names(props),
    decreases props.len(),
{
    if props.len() > 0 {
        let t = props.drop_last();
        lemma_synth_props_names(t, mode);
        let a = synth_props(t, mode);
        let r = synth_props(props, mode);
        assert(a.len() == t.len()) by {
            assert(entry_names(a).len() == prop_names(t).len());
        }
        assert forall|i: int| 0 <= i < props.len() implies entry_names(r)[i]
            == #[trigger] prop_names(props)[i] by {
            if i < t.len() {
                assert(r[i] == a[i]);
                assert(entry_names(a)[i] == prop_names(t)[i]);
                assert(t[i] == props[i]);
            }
        }
        assert(entry_names(r) =~= prop_names(props));
    } else {
        assert(entry_names(synth_props(props, mode)) =~= prop_names(props));
    }
}

/// Without an example or an enumeration, a synthesized value has the
/// schema's type: an object with exactly the declared properties in order,
/// an array (empty in the empty mode, one item otherwise), a string, an
/// integer, a number, a boolean or null.
pub proof fn law_synthesized_value_has_schema_type(schema: SchemaNode, name: Option<Seq<char>>, mode: SynthMode)
    requires
        schema.example is None,
        schema.enum_values@.len() == 0,
    ensures
        ({
            let v = synth_spec(schema, name, mode);
            match schema.node_type {
                SchemaNodeType::Object => v matches JsonSpec::Object(es) && entry_names(es)
                    == prop_names(schema.properties@),
                SchemaNodeType::Array => v matches JsonSpec::Array(xs) && xs.len() == if mode == SynthMode::Empty {
                    0int
                } else {
                    1int
                },
                SchemaNodeType::String => v is String,
                SchemaNodeType::Integer => v matches JsonSpec::Number(n) && (n is PosInt || n is NegInt),
                SchemaNodeType::Number => v is Number,
                SchemaNodeType::Boolean => v is Bool,
                SchemaNodeType::Null => v is Null,
                SchemaNodeType::Unknown => true,
            }
        }),
{
    if schema.node_type == SchemaNodeType::Object {
        lemma_synth_props_names(schema.properties@, mode);
    }
}

} // verus!
