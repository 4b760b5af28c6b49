//! What kind of source a text is, the parse errors, and the schema that a
//! sample JSON value implies.
use vstd::prelude::*;
use crate::canonical::{SchemaNode, blank_schema};
use crate::json::{JsonNumber, JsonSpec, JsonValue, json_clone, view_json};
use crate::model::{CapabilityStatus, DeliveryStage, InputSourceKind, SchemaNodeType};
use crate::text::{chars_of, contains, contains_of, starts_with, starts_with_of, trim_start, lemma_find_from, lemma_trim_start, trim_bounds, slice};

verus! {

/// A text to import, with an optional display name.
#[derive(Debug, Clone)]
pub struct ParseSource {
    pub name: Option<String>,
    pub body: String,
}

/// Why an import failed.
#[derive(Debug, Clone, PartialEq)]
pub enum ParseError {
    UnsupportedInput,
    InvalidSource(String),
    ParseFailed(String),
}

impl ParseError {
    /// The error's message, as shown to users.
    pub fn message(&self) -> (r: String)
        ensures
            r@ == match *self {
                ParseError::UnsupportedInput => "unsupported input source"@,
                ParseError::InvalidSource(m) => "invalid source: "@ + m@,
                ParseError::ParseFailed(m) => "parse failed: "@ + m@,
            },
    {
        match self {
            ParseError::UnsupportedInput => "unsupported input source".to_string(),
            ParseError::InvalidSource(m) => {
                let mut t = chars_of("invalid source: ");
                crate::text::append_str(&mut t, m.as_str());
                crate::text::string_of(&t)
            },
            ParseError::ParseFailed(m) => {
                let mut t = chars_of("parse failed: ");
                crate::text::append_str(&mut t, m.as_str());
                crate::text::string_of(&t)
            },
        }
    }
}

/// A parser of one kind of source.
pub trait ApiParser {
    fn kind(&self) -> InputSourceKind;

    fn parse(&self, source: ParseSource) -> Result<crate::canonical::CanonicalApiCollection, ParseError>;
}

/// The parser capability notes.
pub fn planned_capabilities() -> (r: Vec<CapabilityStatus>)
    ensures
        r@.len() == 3,
        r@[0].name@ == "OpenAPI parser"@,
        r@[1].name@ == "cURL parser"@,
        r@[2].name@ == "Canonical schema transform"@,
        forall|i: int| 0 <= i < 3 ==> (#[trigger] r@[i]).stage == DeliveryStage::Partial,
        r@[0].note@ == "OpenAPI JSON and YAML parsing is implemented for core request and response shapes."@,
        r@[1].note@ == "Common request flags and JSON request bodies are normalized into canonical endpoints."@,
        r@[2].note@ == "OpenAPI schemas and JSON payloads are converted into canonical schema nodes."@,
{
    vec![
        CapabilityStatus {
            name: "OpenAPI parser".to_string(),
            stage: DeliveryStage::Partial,
            note: "OpenAPI JSON and YAML parsing is implemented for core request and response shapes.".to_string(),
        },
        CapabilityStatus {
            name: "cURL parser".to_string(),
            stage: DeliveryStage::Partial,
            note: "Common request flags and JSON request bodies are normalized into canonical endpoints.".to_string(),
        },
        CapabilityStatus {
            name: "Canonical schema transform".to_string(),
            stage: DeliveryStage::Partial,
            note: "OpenAPI schemas and JSON payloads are converted into canonical schema nodes.".to_string(),
        },
    ]
}

/// A text starting (after leading whitespace) with `curl ` is a cURL
/// command; one mentioning `"openapi"` or `openapi:` is an OpenAPI document.
pub open spec fn detected_kind(raw: Seq<char>) -> Option<InputSourceKind> {
    let t = trim_start(raw);
    if starts_with(t, "curl "@) {
        Some(InputSourceKind::Curl)
    } else if contains(t, "\"openapi\""@) || contains(t, "openapi:"@) {
        Some(InputSourceKind::OpenApi)
    } else {
        None
    }
}

/// Which parser a source needs; `UnsupportedInput` when neither applies.
pub fn detect_parser(raw: &str) -> (r: Result<InputSourceKind, ParseError>)
    ensures
        match detected_kind(raw@) {
            Some(k) => r == Ok::<InputSourceKind, ParseError>(k),
            None => r == Err::<InputSourceKind, ParseError>(ParseError::UnsupportedInput),
        },
{
    let chars = chars_of(raw);
    let t = crate::text::trimmed_start(&chars);
    if starts_with_of(&t, &chars_of("curl ")) {
        return Ok(InputSourceKind::Curl);
    }
    proof {
        lemma_find_from(t@, "\"openapi\""@, 0);
        lemma_find_from(t@, "openapi:"@, 0);
    }
    if contains_of(&t, &chars_of("\"openapi\"")) || contains_of(&t, &chars_of("openapi:")) {
        return Ok(InputSourceKind::OpenApi);
    }
    Err(ParseError::UnsupportedInput)
}

/// Every constraint of `s` is unset (type, flags, properties, items and
/// example aside).
pub open spec fn unconstrained(s: SchemaNode) -> bool {
    &&& s.description is None
    &&& s.prefix_items@.len() == 0
    &&& s.enum_values@.len() == 0
    &&& s.format is None
    &&& s.pattern is None
    &&& s.min_length is None
    &&& s.max_length is None
    &&& s.minimum is None
    &&& s.maximum is None
    &&& !s.exclusive_minimum
    &&& !s.exclusive_maximum
    &&& s.min_items is None
    &&& s.max_items is None
    &&& s.contains is None
    &&& s.min_contains is None
    &&& s.max_contains is None
    &&& s.min_properties is None
    &&& s.max_properties is None
    &&& s.dependent_required@.len() == 0
    &&& s.dependent_schemas@.len() == 0
    &&& s.if_schema is None
    &&& s.then_schema is None
    &&& s.else_schema is None
    &&& !s.unique_items
    &&& s.multiple_of is None
    &&& s.additional_properties is None
    &&& s.allow_additional_properties
    &&& s.allow_unevaluated_properties
    &&& s.allow_unevaluated_items
    &&& s.bool_schema is None
}

/// The schema a sample value implies (`required` is the flag the node
/// carries): objects and arrays recurse (an array takes the schema of its
/// first item, an empty one a plain object schema; every object property is
/// required), each node keeps the sample as its example; integers and
/// floats are told apart; only `null` is nullable.
pub open spec fn inferred_schema(v: JsonValue, s: SchemaNode, required: bool) -> bool
    decreases v, 1int,
{
    &&& unconstrained(s)
    &&& s.example matches Some(e) && view_json(e) == view_json(v)
    &&& s.required == required
    &&& s.nullable == (v is Null)
    &&& match v {
        JsonValue::Object(m) => s.node_type == SchemaNodeType::Object && s.items is None && inferred_props(
            m@,
            s.properties@,
        ),
        JsonValue::Array(xs) => s.node_type == SchemaNodeType::Array && s.properties@.len() == 0 && match s.items {
            Some(item) => if xs@.len() > 0 {
                inferred_schema(xs@[0], *item, false)
            } else {
                blank_schema(SchemaNodeType::Object, *item) && item.items is None
            },
            None => false,
        },
        _ => s.properties@.len() == 0 && s.items is None && s.node_type == match v {
            JsonValue::String(_) => SchemaNodeType::String,
            JsonValue::Number(JsonNumber::Float(_)) => SchemaNodeType::Number,
            JsonValue::Number(_) => SchemaNodeType::Integer,
            JsonValue::Bool(_) => SchemaNodeType::Boolean,
            _ => SchemaNodeType::Null,
        },
    }
}

/// Each entry gives a required property of the same name, in order.
pub open spec fn inferred_props(m: Seq<(String, JsonValue)>, props: Seq<(String, SchemaNode)>) -> bool
    decreases m, 0int,
{
    &&& m.len() == props.len()
    &&& (m.len() == 0 || (inferred_props(m.drop_last(), props.drop_last()) && m.last().0 == props.last().0
        && inferred_schema(m.last().1, props.last().1, true)))
}

fn fresh(t: SchemaNodeType, example: &JsonValue) -> (s: SchemaNode)
    ensures
        unconstrained(s),
        s.node_type == t,
        s.example matches Some(e) && view_json(e) == view_json(*example),
        !s.required,
        s.nullable == (t == SchemaNodeType::Null),
        s.properties@.len() == 0,
        s.items is None,
{
    let mut s = SchemaNode::object();
    s.node_type = t;
    s.nullable = matches!(t, SchemaNodeType::Null);
    s.example = Some(json_clone(example));
    s
}

/// The schema a sample value implies (see `inferred_schema`), not required.
pub fn schema_from_json_value(value: &JsonValue) -> (s: SchemaNode)
    ensures
        inferred_schema(*value, s, false),
    decreases value,
{
    match value {
        JsonValue::Object(map) => {
            let mut node = fresh(SchemaNodeType::Object, value);
            let mut props: Vec<(String, SchemaNode)> = Vec::new();
            let mut i: usize = 0;
            while i < map.len()
                invariant
                    i <= map@.len(),
                    *value == JsonValue::Object(*map),
                    inferred_props(map@.subrange(0, i as int), props@),
                decreases map.len() - i,
            {
                proof {
                    assert(decreases_to!(*value => value->Object_0));
                    assert(decreases_to!(value->Object_0 => map@));
                    assert(decreases_to!(map@ => map@[i as int]));
                    assert(decreases_to!(map@[i as int] => map@[i as int].1));
                }
                let mut child = schema_from_json_value(&map[i].1);
                let ghost c0 = child;
                child.required = true;
                proof {
                    assert(child == SchemaNode { required: true, ..c0 });
                    assert(inferred_schema(map@[i as int].1, child, true));
                }
                let ghost prev = props@;
                props.push((map[i].0.clone(), child));
                proof {
                    assert(map@.subrange(0, i + 1).drop_last() =~= map@.subrange(0, i as int));
                    assert(props@.drop_last() =~= prev);
                }
                i += 1;
            }
            proof {
                assert(map@.subrange(0, map@.len() as int) =~= map@);
            }
            node.properties = props;
            node
        },
        JsonValue::Array(items) => {
            let inferred = if items.len() > 0 {
                proof {
                    assert(decreases_to!(*value => value->Array_0));
                    assert(decreases_to!(value->Array_0 => items@));
                    assert(decreases_to!(items@ => items@[0]));
                }
                schema_from_json_value(&items[0])
            } else {
                SchemaNode::object()
            };
            let mut node = SchemaNode::array(inferred);
            node.example = Some(json_clone(value));
            node
        },
        JsonValue::String(_) => fresh(SchemaNodeType::String, value),
        JsonValue::Number(JsonNumber::Float(_)) => fresh(SchemaNodeType::Number, value),
        JsonValue::Number(_) => fresh(SchemaNodeType::Integer, value),
        JsonValue::Bool(_) => fresh(SchemaNodeType::Boolean, value),
        JsonValue::Null => fresh(SchemaNodeType::Null, value),
    }
}


/// The view of the schema a sample value implies.
pub open spec fn inferred_view(v: JsonSpec, required: bool) -> crate::schema_view::SchemaView
    decreases v, 1int,
{
    let t = match v {
        JsonSpec::Object(_) => SchemaNodeType::Object,
        JsonSpec::Array(_) => SchemaNodeType::Array,
        JsonSpec::String(_) => SchemaNodeType::String,
        JsonSpec::Number(crate::json::NumberSpec::Float(_)) => SchemaNodeType::Number,
        JsonSpec::Number(_) => SchemaNodeType::Integer,
        JsonSpec::Bool(_) => SchemaNodeType::Boolean,
        JsonSpec::Null => SchemaNodeType::Null,
    };
    crate::schema_view::SchemaView {
        example: Some(v),
        required,
        nullable: v is Null,
        properties: match v {
            JsonSpec::Object(m) => inferred_entries(m),
            _ => Seq::empty(),
        },
        items: match v {
            JsonSpec::Array(xs) => Some(Box::new(if xs.len() > 0 {
                inferred_view(xs[0], false)
            } else {
                crate::schema_view::blank_view(SchemaNodeType::Object)
            })),
            _ => None,
        },
        ..crate::schema_view::blank_view(t)
    }
}

pub open spec fn inferred_entries(m: Seq<(Seq<char>, JsonSpec)>) -> Seq<(Seq<char>, crate::schema_view::SchemaView)>
    decreases m, 0int,
{
    if m.len() == 0 {
        Seq::empty()
    } else {
        inferred_entries(m.drop_last()).push((m.last().0, inferred_view(m.last().1, true)))
    }
}

proof fn lemma_unconstrained_view(s: SchemaNode)
    requires
        unconstrained(s),
    ensures
        crate::schema_view::list_view(s.prefix_items@) =~= Seq::<crate::schema_view::SchemaView>::empty(),
        crate::json::view_items(s.enum_values@) =~= Seq::<JsonSpec>::empty(),
        crate::schema_view::props_view(s.dependent_schemas@) =~= Seq::<(Seq<char>, crate::schema_view::SchemaView)>::empty(),
        crate::schema_view::dependencies_view(s.dependent_required@) =~= Seq::<(Seq<char>, Seq<Seq<char>>)>::empty(),
{
}

/// The view of an inferred schema is `inferred_view`.
pub proof fn lemma_inferred_view(v: JsonValue, s: SchemaNode, required: bool)
    requires
        inferred_schema(v, s, required),
    ensures
        s@ == inferred_view(v@, required),
    decreases v, 1int,
{
    lemma_unconstrained_view(s);
    match v {
        JsonValue::Object(m) => {
            assert(decreases_to!(v => m));
            lemma_inferred_props_view(m@, s.properties@);
        },
        JsonValue::Array(xs) => {
            crate::json::lemma_view_items(xs@);
            assert(crate::schema_view::props_view(s.properties@) =~= Seq::<(Seq<char>, crate::schema_view::SchemaView)>::empty());
            match s.items {
                Some(item) => {
                    if xs@.len() > 0 {
                        assert(decreases_to!(v => xs));
                        lemma_inferred_view(xs@[0], *item, false);
                    } else {
                        crate::schema_view::lemma_blank_view(SchemaNodeType::Object, *item);
                    }
                },
                None => {},
            }
        },
        _ => {
            assert(crate::schema_view::props_view(s.properties@) =~= Seq::<(Seq<char>, crate::schema_view::SchemaView)>::empty());
        },
    }
}

pub proof fn lemma_inferred_props_view(m: Seq<(String, JsonValue)>, props: Seq<(String, SchemaNode)>)
    requires
        inferred_props(m, props),
    ensures
        crate::schema_view::props_view(props) == inferred_entries(crate::json::view_entries(m)),
    decreases m, 0int,
{
    if m.len() > 0 {
        lemma_inferred_props_view(m.drop_last(), props.drop_last());
        lemma_inferred_view(m.last().1, props.last().1, true);
        crate::schema_view::lemma_props_view_push(props.drop_last(), props.last());
        assert(props.drop_last().push(props.last()) =~= props);
        crate::json::lemma_view_entries(m);
        crate::json::lemma_view_entries(m.drop_last());
        assert(crate::json::view_entries(m).drop_last() =~= crate::json::view_entries(m.drop_last()));
    } else {
        assert(crate::schema_view::props_view(props) =~= Seq::<(Seq<char>, crate::schema_view::SchemaView)>::empty());
    }
}

} // verus!
