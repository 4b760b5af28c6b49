//! Request-body check for the mock gateway: walks a schema and reports the
//! first mismatch of a JSON body, with a `$`-rooted path to the offending
//! spot and a one-line message.
//!
//! It checks the declared type, required object fields, array items, enum
//! membership and non-nullability; `null` passes only a nullable schema or a
//! null-typed one. Integers also accept floats with no fractional part.
use vstd::prelude::*;
use crate::canonical::SchemaNode;
use crate::json::{JsonValue, entry_index, find_entry, json_contains, lemma_entry_index, number_is_whole, number_is_whole_of, view_json, view_number};
use crate::json_text::{json_text, to_json_text, utf8_len, utf8_len_exceeds};
use crate::model::SchemaNodeType;
use crate::text::{append, append_str, chars_of, decimal, decimal_of, slice, string_of};

verus! {

/// The first mismatch found: where it is and what is wrong.
#[derive(Debug, Clone, PartialEq, Eq)]
pub struct ValidationError {
    pub path: String,
    pub message: String,
}

pub open spec fn schema_type_name(t: SchemaNodeType) -> Seq<char> {
    match t {
        SchemaNodeType::Object => "object"@,
        SchemaNodeType::Array => "array"@,
        SchemaNodeType::String => "string"@,
        SchemaNodeType::Integer => "integer"@,
        SchemaNodeType::Number => "number"@,
        SchemaNodeType::Boolean => "boolean"@,
        SchemaNodeType::Null => "null"@,
        SchemaNodeType::Unknown => "any"@,
    }
}

/// How a body value is named in messages; integers and floats differ.
pub open spec fn primitive_name(v: JsonValue) -> Seq<char> {
    match v {
        JsonValue::Object(_) => "object"@,
        JsonValue::Array(_) => "array"@,
        JsonValue::String(_) => "string"@,
        JsonValue::Number(crate::json::JsonNumber::Float(_)) => "number"@,
        JsonValue::Number(_) => "integer"@,
        JsonValue::Bool(_) => "boolean"@,
        JsonValue::Null => "null"@,
    }
}

/// The first `n` characters of `s` (all of it when shorter).
pub open spec fn prefix(s: Seq<char>, n: nat) -> Seq<char> {
    if s.len() <= n {
        s
    } else {
        s.subrange(0, n as int)
    }
}

/// A value's JSON text, cut to 40 characters and an ellipsis when it takes
/// more than 40 bytes.
pub open spec fn compact_text(v: JsonValue) -> Seq<char> {
    let s = json_text(view_json(v));
    if utf8_len(s) > 40 {
        prefix(s, 40) + "…"@
    } else {
        s
    }
}

/// Whether some enum value equals `v`.
pub open spec fn in_enum(values: Seq<JsonValue>, v: JsonValue) -> bool {
    exists|i: int| 0 <= i < values.len() && view_json(#[trigger] values[i]) == view_json(v)
}

/// The message for a value of the wrong type.
pub open spec fn expected(want: Seq<char>, v: JsonValue) -> Seq<char> {
    "expected "@ + want + ", got "@ + primitive_name(v)
}

/// Whether `v` has the JSON type that `t` names (`Unknown` takes anything).
pub open spec fn type_matches(t: SchemaNodeType, v: JsonValue) -> bool {
    match t {
        SchemaNodeType::String => v is String,
        SchemaNodeType::Integer => match v {
            JsonValue::Number(n) => number_is_whole(view_number(n)),
            _ => false,
        },
        SchemaNodeType::Number => v is Number,
        SchemaNodeType::Boolean => v is Bool,
        SchemaNodeType::Null => v is Null,
        _ => true,
    }
}

/// The first mismatch of `body` against `schema` at `path`, or `None`.
pub open spec fn check_at(path: Seq<char>, body: JsonValue, schema: SchemaNode) -> Option<
    (Seq<char>, Seq<char>),
>
    decreases schema, 0int, 0int,
{
    if body is Null {
        if schema.nullable || schema.node_type == SchemaNodeType::Null {
            None
        } else {
            Some((path, "expected "@ + schema_type_name(schema.node_type) + ", got null"@))
        }
    } else if schema.enum_values@.len() > 0 && !in_enum(schema.enum_values@, body) {
        Some((path, "value "@ + compact_text(body) + " is not in the declared enum"@))
    } else {
        match schema.node_type {
            SchemaNodeType::Object => match body {
                JsonValue::Object(m) => check_props(path, m@, schema.properties@),
                _ => Some((path, expected("object"@, body))),
            },
            SchemaNodeType::Array => match body {
                JsonValue::Array(xs) => match schema.items {
                    Some(item) => check_items(path, xs@, *item, 0),
                    None => None,
                },
                _ => Some((path, expected("array"@, body))),
            },
            _ => if type_matches(schema.node_type, body) {
                None
            } else {
                Some((path, expected(schema_type_name(schema.node_type), body)))
            },
        }
    }
}

/// The first mismatch among the declared properties, in declaration order:
/// a present property is checked at `path.name`; an absent one is a
/// mismatch only when required.
pub open spec fn check_props(
    path: Seq<char>,
    m: Seq<(String, JsonValue)>,
    props: Seq<(String, SchemaNode)>,
) -> Option<(Seq<char>, Seq<char>)>
    decreases props, 0int, 0int,
{
    if props.len() == 0 {
        None
    } else {
        let name = props[0].0@;
        let child_path = path + "."@ + name;
        let here = match entry_index(m, name) {
            Some(k) => check_at(child_path, m[k].1, props[0].1),
            None => if props[0].1.required {
                Some((child_path, "required field \""@ + name + "\" missing"@))
            } else {
                None
            },
        };
        match here {
            Some(e) => Some(e),
            None => check_props(path, m, props.subrange(1, props.len() as int)),
        }
    }
}

/// The first mismatch among array items, item `k` checked at `path[k]`.
pub open spec fn check_items(path: Seq<char>, xs: Seq<JsonValue>, item: SchemaNode, k: nat) -> Option<
    (Seq<char>, Seq<char>),
>
    decreases item, 1int, xs.len(),
{
    if xs.len() == 0 {
        None
    } else {
        match check_at(path + "["@ + decimal(k) + "]"@, xs[0], item) {
            Some(e) => Some(e),
            None => check_items(path, xs.subrange(1, xs.len() as int), item, k + 1),
        }
    }
}

fn schema_type_label(t: &SchemaNodeType) -> (r: &'static str)
    ensures
        r@ == schema_type_name(*t),
{
    let r = match t {
        SchemaNodeType::Object => "object",
        SchemaNodeType::Array => "array",
        SchemaNodeType::String => "string",
        SchemaNodeType::Integer => "integer",
        SchemaNodeType::Number => "number",
        SchemaNodeType::Boolean => "boolean",
        SchemaNodeType::Null => "null",
        SchemaNodeType::Unknown => "any",
    };
    r
}

fn primitive_label(v: &JsonValue) -> (r: &'static str)
    ensures
        r@ == primitive_name(*v),
{
    match v {
        JsonValue::Object(_) => "object",
        JsonValue::Array(_) => "array",
        JsonValue::String(_) => "string",
        JsonValue::Number(crate::json::JsonNumber::Float(_)) => "number",
        JsonValue::Number(_) => "integer",
        JsonValue::Bool(_) => "boolean",
        JsonValue::Null => "null",
    }
}

/// The JSON text of `v`, shortened as `compact_text` says.
pub fn compact(v: &JsonValue) -> (r: Vec<char>)
    ensures
        r@ == compact_text(*v),
{
    let s = to_json_text(v);
    if utf8_len_exceeds(&s, 40) {
        let mut out = if s.len() <= 40 {
            slice(&s, 0, s.len())
        } else {
            slice(&s, 0, 40)
        };
        proof {
            if s@.len() <= 40 {
                assert(out@ =~= s@);
            }
        }
        append_str(&mut out, "…");
        out
    } else {
        s
    }
}

fn mismatch(path: &Vec<char>, message: Vec<char>) -> (e: ValidationError)
    ensures
        e.path@ == path@,
        e.message@ == message@,
{
    ValidationError { path: string_of(path), message: string_of(&message) }
}

fn expected_message(want: &str, v: &JsonValue) -> (r: Vec<char>)
    ensures
        r@ == expected(want@, *v),
{
    let mut m = chars_of("expected ");
    append_str(&mut m, want);
    append_str(&mut m, ", got ");
    append_str(&mut m, primitive_label(v));
    assert(m@ =~= expected(want@, *v));
    m
}

fn type_matches_of(t: &SchemaNodeType, v: &JsonValue) -> (r: bool)
    ensures
        r == type_matches(*t, *v),
{
    match t {
        SchemaNodeType::String => matches!(v, JsonValue::String(_)),
        SchemaNodeType::Integer => match v {
            JsonValue::Number(n) => number_is_whole_of(n),
            _ => false,
        },
        SchemaNodeType::Number => matches!(v, JsonValue::Number(_)),
        SchemaNodeType::Boolean => matches!(v, JsonValue::Bool(_)),
        SchemaNodeType::Null => matches!(v, JsonValue::Null),
        _ => true,
    }
}

pub open spec fn outcome(r: Result<(), ValidationError>) -> Option<(Seq<char>, Seq<char>)> {
    match r {
        Ok(()) => None,
        Err(e) => Some((e.path@, e.message@)),
    }
}

fn validate_at(path: &Vec<char>, body: &JsonValue, schema: &SchemaNode) -> (r: Result<(), ValidationError>)
    ensures
        outcome(r) == check_at(path@, *body, *schema),
    decreases schema,
{
    if matches!(body, JsonValue::Null) {
        if schema.nullable || matches!(schema.node_type, SchemaNodeType::Null) {
            return Ok(());
        }
        let mut m = chars_of("expected ");
        append_str(&mut m, schema_type_label(&schema.node_type));
        append_str(&mut m, ", got null");
        proof {
            reveal_strlit("expected ");
        }
        return Err(mismatch(path, m));
    }
    if schema.enum_values.len() > 0 && !json_contains(&schema.enum_values, body) {
        let mut m = chars_of("value ");
        append(&mut m, &compact(body));
        append_str(&mut m, " is not in the declared enum");
        return Err(mismatch(path, m));
    }
    match &schema.node_type {
        SchemaNodeType::Object => match body {
            JsonValue::Object(map) => {
                let mut i: usize = 0;
                assert(schema.properties@.subrange(0, schema.properties@.len() as int) =~= schema.properties@);
                while i < schema.properties.len()
                    invariant
                        i <= schema.properties@.len(),
                        *body == JsonValue::Object(*map),
                        check_at(path@, *body, *schema) == check_props(path@, map@, schema.properties@),
                        check_props(path@, map@, schema.properties@) == check_props(
                            path@,
                            map@,
                            schema.properties@.subrange(i as int, schema.properties@.len() as int),
                        ),
                    decreases schema.properties.len() - i,
                {
                    let ghost props = schema.properties@;
                    let ghost rest = props.subrange(i as int, props.len() as int);
                    proof {
                        assert(rest[0] == props[i as int]);
                        assert(rest.subrange(1, rest.len() as int) =~= props.subrange(i + 1, props.len() as int));
                        assert(decreases_to!(*schema => schema.properties));
                        assert(decreases_to!(schema.properties => schema.properties@));
                        assert(decreases_to!(schema.properties@ => schema.properties@[i as int]));
                        assert(decreases_to!(schema.properties@[i as int] => schema.properties@[i as int].1));
                    }
                    let name = chars_of(schema.properties[i].0.as_str());
                    let mut child_path = path.clone();
                    proof {
                        assert(child_path@ == path@);
                    }
                    child_path.push('.');
                    append(&mut child_path, &name);
                    proof {
                        lemma_entry_index(map@, name@);
                    }
                    match find_entry(map, &name) {
                        Some(k) => {
                            let r = validate_at(&child_path, &map[k].1, &schema.properties[i].1);
                            if r.is_err() {
                                proof {
                                    assert(child_path@ =~= path@ + "."@ + name@) by {
                                        reveal_strlit(".");
                                    }
                                }
                                return r;
                            }
                            proof {
                                assert(child_path@ =~= path@ + "."@ + name@) by {
                                    reveal_strlit(".");
                                }
                            }
                        },
                        None => {
                            if schema.properties[i].1.required {
                                let mut m = chars_of("required field \"");
                                append(&mut m, &name);
                                append_str(&mut m, "\" missing");
                                proof {
                                    assert(child_path@ =~= path@ + "."@ + name@) by {
                                        reveal_strlit(".");
                                    }
                                }
                                return Err(mismatch(&child_path, m));
                            }
                        },
                    }
                    i += 1;
                }
                Ok(())
            },
            _ => Err(mismatch(path, expected_message("object", body))),
        },
        SchemaNodeType::Array => match body {
            JsonValue::Array(xs) => {
                match &schema.items {
                    None => Ok(()),
                    Some(item) => {
                        let mut i: usize = 0;
                        assert(xs@.subrange(0, xs@.len() as int) =~= xs@);
                        while i < xs.len()
                            invariant
                                i <= xs@.len(),
                                *body == JsonValue::Array(*xs),
                                schema.items == Some(*item),
                                check_at(path@, *body, *schema) == check_items(path@, xs@, **item, 0),
                                check_items(path@, xs@, **item, 0) == check_items(
                                    path@,
                                    xs@.subrange(i as int, xs@.len() as int),
                                    **item,
                                    i as nat,
                                ),
                            decreases xs.len() - i,
                        {
                            let ghost rest = xs@.subrange(i as int, xs@.len() as int);
                            proof {
                                assert(rest[0] == xs@[i as int]);
                                assert(rest.subrange(1, rest.len() as int) =~= xs@.subrange(i + 1, xs@.len() as int));
                                assert(decreases_to!(*schema => schema.items));
                            }
                            let mut child_path = path.clone();
                            proof {
                                assert(child_path@ == path@);
                            }
                            child_path.push('[');
                            append(&mut child_path, &decimal_of(i as u64));
                            child_path.push(']');
                            proof {
                                assert(child_path@ =~= path@ + "["@ + decimal(i as nat) + "]"@) by {
                                    reveal_strlit("[");
                                    reveal_strlit("]");
                                }
                            }
                            let r = validate_at(&child_path, &xs[i], item);
                            if r.is_err() {
                                return r;
                            }
                            i += 1;
                        }
                        Ok(())
                    },
                }
            },
            _ => Err(mismatch(path, expected_message("array", body))),
        },
        _ => {
            if type_matches_of(&schema.node_type, body) {
                Ok(())
            } else {
                Err(mismatch(path, expected_message(schema_type_label(&schema.node_type), body)))
            }
        },
    }
}

/// Checks `body` against `schema`: `Ok` when it matches, else the first
/// mismatch, found depth-first in declaration order from the root `$`.
pub fn validate(body: &JsonValue, schema: &SchemaNode) -> (r: Result<(), ValidationError>)
    ensures
        outcome(r) == check_at("$"@, *body, *schema),
{
    let root = chars_of("$");
    validate_at(&root, body, schema)
}

} // verus!
