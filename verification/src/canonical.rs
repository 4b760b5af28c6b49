//! Canonical API collection types and the schema node that describes
//! request and response payloads.
use vstd::prelude::*;
use crate::json::{JsonNumber, JsonValue, view_json};
use crate::model::{AuthRequirement, HttpMethod, InputSourceKind, MockExampleKind, ParameterLocation, SchemaNodeType};

verus! {

/// A canonical schema. Numeric bounds are JSON numbers; maps keyed by name
/// are entry lists in key order.
#[derive(Debug)]
pub struct SchemaNode {
    pub node_type: SchemaNodeType,
    pub description: Option<String>,
    pub required: bool,
    pub nullable: bool,
    pub properties: Vec<(String, SchemaNode)>,
    pub items: Option<Box<SchemaNode>>,
    pub prefix_items: Vec<SchemaNode>,
    pub enum_values: Vec<JsonValue>,
    pub example: Option<JsonValue>,
    pub format: Option<String>,
    pub pattern: Option<String>,
    pub min_length: Option<usize>,
    pub max_length: Option<usize>,
    pub minimum: Option<JsonNumber>,
    pub maximum: Option<JsonNumber>,
    pub exclusive_minimum: bool,
    pub exclusive_maximum: bool,
    pub min_items: Option<usize>,
    pub max_items: Option<usize>,
    pub contains: Option<Box<SchemaNode>>,
    pub min_contains: Option<usize>,
    pub max_contains: Option<usize>,
    pub min_properties: Option<usize>,
    pub max_properties: Option<usize>,
    pub dependent_required: Vec<(String, Vec<String>)>,
    pub dependent_schemas: Vec<(String, SchemaNode)>,
    pub if_schema: Option<Box<SchemaNode>>,
    pub then_schema: Option<Box<SchemaNode>>,
    pub else_schema: Option<Box<SchemaNode>>,
    pub unique_items: bool,
    pub multiple_of: Option<JsonNumber>,
    pub additional_properties: Option<Box<SchemaNode>>,
    pub allow_additional_properties: bool,
    pub allow_unevaluated_properties: bool,
    pub allow_unevaluated_items: bool,
    pub bool_schema: Option<bool>,
}

/// A schema of the given type with every constraint unset.
pub open spec fn blank_schema(t: SchemaNodeType, s: SchemaNode) -> bool {
    &&& s.node_type == t
    &&& s.description is None
    &&& !s.required
    &&& !s.nullable
    &&& s.properties@.len() == 0
    &&& s.prefix_items@.len() == 0
    &&& s.enum_values@.len() == 0
    &&& s.example is None
    &&& s.format is None
    &&& s.pattern is None
    &&& s.min_length is None
    &&& s.max_length is None
    &&& s.minimum is None
    &&& s.maximum is None
    &&& !s.exclusive_minimum
    &&& !s.exclusive_maximum
    &&& s.min_items is None
    &&& s.max_items is None
    &&& s.contains is None
    &&& s.min_contains is None
    &&& s.max_contains is None
    &&& s.min_properties is None
    &&& s.max_properties is None
    &&& s.dependent_required@.len() == 0
    &&& s.dependent_schemas@.len() == 0
    &&& s.if_schema is None
    &&& s.then_schema is None
    &&& s.else_schema is None
    &&& !s.unique_items
    &&& s.multiple_of is None
    &&& s.additional_properties is None
    &&& s.allow_additional_properties
    &&& s.allow_unevaluated_properties
    &&& s.allow_unevaluated_items
    &&& s.bool_schema is None
}

fn blank(t: SchemaNodeType) -> (s: SchemaNode)
    ensures
        blank_schema(t, s),
        s.items is None,
{
    SchemaNode {
        node_type: t,
        description: None,
        required: false,
        nullable: false,
        properties: Vec::new(),
        items: None,
        prefix_items: Vec::new(),
        enum_values: Vec::new(),
        example: None,
        format: None,
        pattern: None,
        min_length: None,
        max_length: None,
        minimum: None,
        maximum: None,
        exclusive_minimum: false,
        exclusive_maximum: false,
        min_items: None,
        max_items: None,
        contains: None,
        min_contains: None,
        max_contains: None,
        min_properties: None,
        max_properties: None,
        dependent_required: Vec::new(),
        dependent_schemas: Vec::new(),
        if_schema: None,
        then_schema: None,
        else_schema: None,
        unique_items: false,
        multiple_of: None,
        additional_properties: None,
        allow_additional_properties: true,
        allow_unevaluated_properties: true,
        allow_unevaluated_items: true,
        bool_schema: None,
    }
}

impl SchemaNode {
    pub fn object() -> (s: Self)
        ensures
            blank_schema(SchemaNodeType::Object, s),
            s.items is None,
    {
        blank(SchemaNodeType::Object)
    }

    pub fn string() -> (s: Self)
        ensures
            blank_schema(SchemaNodeType::String, s),
            s.items is None,
    {
        blank(SchemaNodeType::String)
    }

    pub fn array(items: SchemaNode) -> (s: Self)
        ensures
            blank_schema(SchemaNodeType::Array, s),
            s.items == Some(Box::new(items)),
    {
        let mut s = blank(SchemaNodeType::Array);
        s.items = Some(Box::new(items));
        s
    }

    /// A boolean schema: `true` accepts every value and `false` none.
    pub fn bool_schema(value: bool) -> (s: Self)
        ensures
            s.bool_schema == Some(value),
            s.node_type == SchemaNodeType::Unknown,
            s.items is None,
    {
        let mut s = blank(SchemaNodeType::Unknown);
        s.bool_schema = Some(value);
        s
    }
}

#[derive(Debug)]
pub struct MockExample {
    pub kind: MockExampleKind,
    pub title: String,
    pub payload: JsonValue,
    pub note: Option<String>,
}

#[derive(Debug)]
pub struct CanonicalParameter {
    pub name: String,
    pub location: ParameterLocation,
    pub description: Option<String>,
    pub required: bool,
    pub schema: SchemaNode,
}

#[derive(Debug)]
pub struct CanonicalRequestBody {
    pub content_type: String,
    pub required: bool,
    pub schema: SchemaNode,
}

#[derive(Debug)]
pub struct CanonicalResponse {
    pub status_code: String,
    pub description: Option<String>,
    pub content_type: String,
    pub schema: Option<SchemaNode>,
}

#[derive(Debug)]
pub struct CanonicalEndpoint {
    pub operation_id: Option<String>,
    pub method: HttpMethod,
    pub path: String,
    pub summary: Option<String>,
    pub description: Option<String>,
    pub tags: Vec<String>,
    pub parameters: Vec<CanonicalParameter>,
    pub request_body: Option<CanonicalRequestBody>,
    pub responses: Vec<CanonicalResponse>,
    pub examples: Vec<MockExample>,
    pub auth: Option<AuthRequirement>,
}

#[derive(Debug)]
pub struct CanonicalApiCollection {
    pub id: String,
    pub name: String,
    pub source: InputSourceKind,
    pub description: Option<String>,
    pub endpoints: Vec<CanonicalEndpoint>,
}

/// Two JSON lists with equal views, element by element.
pub open spec fn same_json_list(a: Seq<JsonValue>, b: Seq<JsonValue>) -> bool {
    a.len() == b.len() && forall|i: int| 0 <= i < a.len() ==> view_json(#[trigger] a[i]) == view_json(b[i])
}

pub open spec fn same_json_opt(a: Option<JsonValue>, b: Option<JsonValue>) -> bool {
    match (a, b) {
        (None, None) => true,
        (Some(x), Some(y)) => view_json(x) == view_json(y),
        _ => false,
    }
}

pub open spec fn same_number_opt(a: Option<JsonNumber>, b: Option<JsonNumber>) -> bool {
    match (a, b) {
        (None, None) => true,
        (Some(x), Some(y)) => crate::json::view_number(x) == crate::json::view_number(y),
        _ => false,
    }
}

/// `b` is a copy of `a`: every field equal, JSON values equal by view and
/// nested schemas copies in turn.
pub open spec fn same_schema(a: SchemaNode, b: SchemaNode) -> bool
    decreases a, 1int,
{
    &&& a.node_type == b.node_type
    &&& a.description == b.description
    &&& a.required == b.required
    &&& a.nullable == b.nullable
    &&& same_props(a.properties@, b.properties@)
    &&& same_opt(a.items, b.items)
    &&& same_list(a.prefix_items@, b.prefix_items@)
    &&& same_json_list(a.enum_values@, b.enum_values@)
    &&& same_json_opt(a.example, b.example)
    &&& a.format == b.format
    &&& a.pattern == b.pattern
    &&& a.min_length == b.min_length
    &&& a.max_length == b.max_length
    &&& same_number_opt(a.minimum, b.minimum)
    &&& same_number_opt(a.maximum, b.maximum)
    &&& a.exclusive_minimum == b.exclusive_minimum
    &&& a.exclusive_maximum == b.exclusive_maximum
    &&& a.min_items == b.min_items
    &&& a.max_items == b.max_items
    &&& same_opt(a.contains, b.contains)
    &&& a.min_contains == b.min_contains
    &&& a.max_contains == b.max_contains
    &&& a.min_properties == b.min_properties
    &&& a.max_properties == b.max_properties
    &&& a.dependent_required@.len() == b.dependent_required@.len()
    &&& (forall|i: int|
        0 <= i < a.dependent_required@.len() ==> (#[trigger] a.dependent_required@[i]).0 == b.dependent_required@[i].0
            && a.dependent_required@[i].1@ == b.dependent_required@[i].1@)
    &&& same_props(a.dependent_schemas@, b.dependent_schemas@)
    &&& same_opt(a.if_schema, b.if_schema)
    &&& same_opt(a.then_schema, b.then_schema)
    &&& same_opt(a.else_schema, b.else_schema)
    &&& a.unique_items == b.unique_items
    &&& same_number_opt(a.multiple_of, b.multiple_of)
    &&& same_opt(a.additional_properties, b.additional_properties)
    &&& a.allow_additional_properties == b.allow_additional_properties
    &&& a.allow_unevaluated_properties == b.allow_unevaluated_properties
    &&& a.allow_unevaluated_items == b.allow_unevaluated_items
    &&& a.bool_schema == b.bool_schema
}

pub open spec fn same_opt(a: Option<Box<SchemaNode>>, b: Option<Box<SchemaNode>>) -> bool
    decreases a, 0int,
{
    match (a, b) {
        (None, None) => true,
        (Some(x), Some(y)) => same_schema(*x, *y),
        _ => false,
    }
}

pub open spec fn same_props(a: Seq<(String, SchemaNode)>, b: Seq<(String, SchemaNode)>) -> bool
    decreases a, 0int,
{
    &&& a.len() == b.len()
    &&& (a.len() == 0 || (same_props(a.drop_last(), b.drop_last()) && a.last().0 == b.last().0 && same_schema(
        a.last().1,
        b.last().1,
    )))
}

pub open spec fn same_list(a: Seq<SchemaNode>, b: Seq<SchemaNode>) -> bool
    decreases a, 0int,
{
    &&& a.len() == b.len()
    &&& (a.len() == 0 || (same_list(a.drop_last(), b.drop_last()) && same_schema(a.last(), b.last())))
}

fn clone_opt_string(o: &Option<String>) -> (r: Option<String>)
    ensures
        r == *o,
{
    match o {
        Some(s) => Some(s.clone()),
        None => None,
    }
}

fn clone_opt_json(o: &Option<JsonValue>) -> (r: Option<JsonValue>)
    ensures
        same_json_opt(*o, r),
{
    match o {
        Some(v) => Some(crate::json::json_clone(v)),
        None => None,
    }
}

fn clone_opt_number(o: &Option<JsonNumber>) -> (r: Option<JsonNumber>)
    ensures
        same_number_opt(*o, r),
{
    match o {
        Some(n) => Some(crate::json::number_clone(n)),
        None => None,
    }
}

fn clone_json_list(v: &Vec<JsonValue>) -> (r: Vec<JsonValue>)
    ensures
        same_json_list(v@, r@),
{
    let mut out: Vec<JsonValue> = Vec::new();
    let mut i: usize = 0;
    while i < v.len()
        invariant
            i <= v@.len(),
            out@.len() == i,
            forall|k: int| 0 <= k < i ==> view_json(#[trigger] v@[k]) == view_json(out@[k]),
        decreases v.len() - i,
    {
        out.push(crate::json::json_clone(&v[i]));
        i += 1;
    }
    out
}

fn clone_strings(v: &Vec<String>) -> (r: Vec<String>)
    ensures
        r@ == v@,
{
    let mut out: Vec<String> = Vec::new();
    let mut i: usize = 0;
    while i < v.len()
        invariant
            i <= v@.len(),
            out@ == v@.subrange(0, i as int),
        decreases v.len() - i,
    {
        out.push(v[i].clone());
        i += 1;
        assert(out@ =~= v@.subrange(0, i as int));
    }
    out
}

fn clone_dependencies(v: &Vec<(String, Vec<String>)>) -> (r: Vec<(String, Vec<String>)>)
    ensures
        r@.len() == v@.len(),
        forall|i: int| 0 <= i < v@.len() ==> (#[trigger] v@[i]).0 == r@[i].0 && v@[i].1@ == r@[i].1@,
{
    let mut out: Vec<(String, Vec<String>)> = Vec::new();
    let mut i: usize = 0;
    while i < v.len()
        invariant
            i <= v@.len(),
            out@.len() == i,
            forall|k: int| 0 <= k < i ==> (#[trigger] v@[k]).0 == out@[k].0 && v@[k].1@ == out@[k].1@,
        decreases v.len() - i,
    {
        out.push((v[i].0.clone(), clone_strings(&v[i].1)));
        i += 1;
    }
    out
}

fn clone_opt_schema(o: &Option<Box<SchemaNode>>) -> (r: Option<Box<SchemaNode>>)
    ensures
        same_opt(*o, r),
    decreases *o, 0int,
{
    match o {
        Some(b) => {
            proof {
                assert(decreases_to!(*o => o->0));
            }
            Some(Box::new(schema_clone(b)))
        },
        None => None,
    }
}

fn clone_props(v: &Vec<(String, SchemaNode)>) -> (r: Vec<(String, SchemaNode)>)
    ensures
        same_props(v@, r@),
    decreases v@, 0int,
{
    let mut out: Vec<(String, SchemaNode)> = Vec::new();
    let mut i: usize = 0;
    while i < v.len()
        invariant
            i <= v@.len(),
            same_props(v@.subrange(0, i as int), out@),
        decreases v.len() - i,
    {
        proof {
            assert(decreases_to!(v@ => v@[i as int]));
            assert(decreases_to!(v@[i as int] => v@[i as int].1));
        }
        let c = schema_clone(&v[i].1);
        let ghost prev = out@;
        out.push((v[i].0.clone(), c));
        proof {
            assert(v@.subrange(0, i + 1).drop_last() =~= v@.subrange(0, i as int));
            assert(out@.drop_last() =~= prev);
        }
        i += 1;
    }
    proof {
        assert(v@.subrange(0, v@.len() as int) =~= v@);
    }
    out
}

fn clone_list(v: &Vec<SchemaNode>) -> (r: Vec<SchemaNode>)
    ensures
        same_list(v@, r@),
    decreases v@, 0int,
{
    let mut out: Vec<SchemaNode> = Vec::new();
    let mut i: usize = 0;
    while i < v.len()
        invariant
            i <= v@.len(),
            same_list(v@.subrange(0, i as int), out@),
        decreases v.len() - i,
    {
        proof {
            assert(decreases_to!(v@ => v@[i as int]));
        }
        let c = schema_clone(&v[i]);
        let ghost prev = out@;
        out.push(c);
        proof {
            assert(v@.subrange(0, i + 1).drop_last() =~= v@.subrange(0, i as int));
            assert(out@.drop_last() =~= prev);
        }
        i += 1;
    }
    proof {
        assert(v@.subrange(0, v@.len() as int) =~= v@);
    }
    out
}

/// A deep copy of a schema.
pub fn schema_clone(s: &SchemaNode) -> (r: SchemaNode)
    ensures
        same_schema(*s, r),
    decreases *s, 1int,
{
    proof {
        assert(decreases_to!(*s => s.properties));
        assert(decreases_to!(s.properties => s.properties@));
        assert(decreases_to!(*s => s.prefix_items));
        assert(decreases_to!(s.prefix_items => s.prefix_items@));
        assert(decreases_to!(*s => s.dependent_schemas));
        assert(decreases_to!(s.dependent_schemas => s.dependent_schemas@));
    }
    let properties = clone_props(&s.properties);
    let items = clone_opt_schema(&s.items);
    let prefix_items = clone_list(&s.prefix_items);
    let contains = clone_opt_schema(&s.contains);
    let dependent_schemas = clone_props(&s.dependent_schemas);
    let if_schema = clone_opt_schema(&s.if_schema);
    let then_schema = clone_opt_schema(&s.then_schema);
    let else_schema = clone_opt_schema(&s.else_schema);
    let additional_properties = clone_opt_schema(&s.additional_properties);
    SchemaNode {
        node_type: s.node_type,
        description: clone_opt_string(&s.description),
        required: s.required,
        nullable: s.nullable,
        properties,
        items,
        prefix_items,
        enum_values: clone_json_list(&s.enum_values),
        example: clone_opt_json(&s.example),
        format: clone_opt_string(&s.format),
        pattern: clone_opt_string(&s.pattern),
        min_length: s.min_length,
        max_length: s.max_length,
        minimum: clone_opt_number(&s.minimum),
        maximum: clone_opt_number(&s.maximum),
        exclusive_minimum: s.exclusive_minimum,
        exclusive_maximum: s.exclusive_maximum,
        min_items: s.min_items,
        max_items: s.max_items,
        contains,
        min_contains: s.min_contains,
        max_contains: s.max_contains,
        min_properties: s.min_properties,
        max_properties: s.max_properties,
        dependent_required: clone_dependencies(&s.dependent_required),
        dependent_schemas,
        if_schema,
        then_schema,
        else_schema,
        unique_items: s.unique_items,
        multiple_of: clone_opt_number(&s.multiple_of),
        additional_properties,
        allow_additional_properties: s.allow_additional_properties,
        allow_unevaluated_properties: s.allow_unevaluated_properties,
        allow_unevaluated_items: s.allow_unevaluated_items,
        bool_schema: s.bool_schema,
    }
}

/// `b` is a copy of the example `a`.
pub open spec fn same_example(a: MockExample, b: MockExample) -> bool {
    a.kind == b.kind && a.title == b.title && view_json(a.payload) == view_json(b.payload) && a.note == b.note
}

pub fn example_clone(e: &MockExample) -> (r: MockExample)
    ensures
        same_example(*e, r),
{
    MockExample {
        kind: e.kind,
        title: e.title.clone(),
        payload: crate::json::json_clone(&e.payload),
        note: clone_opt_string(&e.note),
    }
}

pub open spec fn text_view(o: Option<String>) -> Option<Seq<char>> {
    match o {
        Some(t) => Some(t@),
        None => None,
    }
}

pub open spec fn texts_view(v: Seq<String>) -> Seq<Seq<char>> {
    v.map_values(|t: String| t@)
}

/// Two schemas describe the same contract: every field equal, text by its
/// characters, JSON by value, nested schemas alike in turn.
pub open spec fn eq_schema(a: SchemaNode, b: SchemaNode) -> bool
    decreases a, 1int,
{
    &&& a.node_type == b.node_type
    &&& text_view(a.description) == text_view(b.description)
    &&& a.required == b.required
    &&& a.nullable == b.nullable
    &&& eq_props(a.properties@, b.properties@)
    &&& eq_opt(a.items, b.items)
    &&& eq_list(a.prefix_items@, b.prefix_items@)
    &&& same_json_list(a.enum_values@, b.enum_values@)
    &&& same_json_opt(a.example, b.example)
    &&& text_view(a.format) == text_view(b.format)
    &&& text_view(a.pattern) == text_view(b.pattern)
    &&& a.min_length == b.min_length
    &&& a.max_length == b.max_length
    &&& same_number_opt(a.minimum, b.minimum)
    &&& same_number_opt(a.maximum, b.maximum)
    &&& a.exclusive_minimum == b.exclusive_minimum
    &&& a.exclusive_maximum == b.exclusive_maximum
    &&& a.min_items == b.min_items
    &&& a.max_items == b.max_items
    &&& eq_opt(a.contains, b.contains)
    &&& a.min_contains == b.min_contains
    &&& a.max_contains == b.max_contains
    &&& a.min_properties == b.min_properties
    &&& a.max_properties == b.max_properties
    &&& eq_dependencies(a.dependent_required@, b.dependent_required@)
    &&& eq_props(a.dependent_schemas@, b.dependent_schemas@)
    &&& eq_opt(a.if_schema, b.if_schema)
    &&& eq_opt(a.then_schema, b.then_schema)
    &&& eq_opt(a.else_schema, b.else_schema)
    &&& a.unique_items == b.unique_items
    &&& same_number_opt(a.multiple_of, b.multiple_of)
    &&& eq_opt(a.additional_properties, b.additional_properties)
    &&& a.allow_additional_properties == b.allow_additional_properties
    &&& a.allow_unevaluated_properties == b.allow_unevaluated_properties
    &&& a.allow_unevaluated_items == b.allow_unevaluated_items
    &&& a.bool_schema == b.bool_schema
}

pub open spec fn eq_dependencies(a: Seq<(String, Vec<String>)>, b: Seq<(String, Vec<String>)>) -> bool {
    a.len() == b.len() && forall|i: int|
        0 <= i < a.len() ==> (#[trigger] a[i]).0@ == b[i].0@ && texts_view(a[i].1@) == texts_view(b[i].1@)
}

pub open spec fn eq_opt(a: Option<Box<SchemaNode>>, b: Option<Box<SchemaNode>>) -> bool
    decreases a, 0int,
{
    match (a, b) {
        (None, None) => true,
        (Some(x), Some(y)) => eq_schema(*x, *y),
        _ => false,
    }
}

pub open spec fn eq_props(a: Seq<(String, SchemaNode)>, b: Seq<(String, SchemaNode)>) -> bool
    decreases a, 0int,
{
    &&& a.len() == b.len()
    &&& (a.len() == 0 || (eq_props(a.drop_last(), b.drop_last()) && a.last().0@ == b.last().0@ && eq_schema(
        a.last().1,
        b.last().1,
    )))
}

pub open spec fn eq_list(a: Seq<SchemaNode>, b: Seq<SchemaNode>) -> bool
    decreases a, 0int,
{
    &&& a.len() == b.len()
    &&& (a.len() == 0 || (eq_list(a.drop_last(), b.drop_last()) && eq_schema(a.last(), b.last())))
}

/// Every schema describes the same contract as itself.
pub proof fn lemma_eq_schema_refl(a: SchemaNode)
    ensures
        eq_schema(a, a),
    decreases a, 2int,
{
    lemma_eq_opt_refl(a.items);
    lemma_eq_opt_refl(a.contains);
    lemma_eq_opt_refl(a.if_schema);
    lemma_eq_opt_refl(a.then_schema);
    lemma_eq_opt_refl(a.else_schema);
    lemma_eq_opt_refl(a.additional_properties);
    assert(decreases_to!(a => a.properties));
    assert(decreases_to!(a => a.dependent_schemas));
    assert(decreases_to!(a => a.prefix_items));
    lemma_eq_props_refl(a.properties@);
    lemma_eq_props_refl(a.dependent_schemas@);
    lemma_eq_list_refl(a.prefix_items@);
}

pub proof fn lemma_eq_opt_refl(a: Option<Box<SchemaNode>>)
    ensures
        eq_opt(a, a),
    decreases a, 1int,
{
    match a {
        Some(x) => lemma_eq_schema_refl(*x),
        None => {},
    }
}

pub proof fn lemma_eq_props_refl(a: Seq<(String, SchemaNode)>)
    ensures
        eq_props(a, a),
    decreases a, 1int,
{
    if a.len() > 0 {
        lemma_eq_props_refl(a.drop_last());
        lemma_eq_schema_refl(a.last().1);
    }
}

pub proof fn lemma_eq_list_refl(a: Seq<SchemaNode>)
    ensures
        eq_list(a, a),
    decreases a, 1int,
{
    if a.len() > 0 {
        lemma_eq_list_refl(a.drop_last());
        lemma_eq_schema_refl(a.last());
    }
}

pub fn text_opt_equal(a: &Option<String>, b: &Option<String>) -> (r: bool)
    ensures
        r == (text_view(*a) == text_view(*b)),
{
    match (a, b) {
        (None, None) => true,
        (Some(x), Some(y)) => *x == *y,
        _ => false,
    }
}

pub fn texts_equal(a: &Vec<String>, b: &Vec<String>) -> (r: bool)
    ensures
        r == (texts_view(a@) == texts_view(b@)),
{
    if a.len() != b.len() {
        assert(texts_view(a@).len() != texts_view(b@).len());
        return false;
    }
    let mut i: usize = 0;
    while i < a.len()
        invariant
            i <= a@.len(),
            a@.len() == b@.len(),
            forall|k: int| 0 <= k < i ==> (#[trigger] a@[k])@ == b@[k]@,
        decreases a.len() - i,
    {
        if a[i] != b[i] {
            assert(texts_view(a@)[i as int] != texts_view(b@)[i as int]);
            return false;
        }
        i += 1;
    }
    assert(texts_view(a@) =~= texts_view(b@));
    true
}

fn json_list_equal(a: &Vec<JsonValue>, b: &Vec<JsonValue>) -> (r: bool)
    ensures
        r == same_json_list(a@, b@),
{
    if a.len() != b.len() {
        return false;
    }
    let mut i: usize = 0;
    while i < a.len()
        invariant
            i <= a@.len(),
            a@.len() == b@.len(),
            forall|k: int| 0 <= k < i ==> view_json(#[trigger] a@[k]) == view_json(b@[k]),
        decreases a.len() - i,
    {
        if !crate::json::json_eq(&a[i], &b[i]) {
            return false;
        }
        i += 1;
    }
    true
}

fn json_opt_equal(a: &Option<JsonValue>, b: &Option<JsonValue>) -> (r: bool)
    ensures
        r == same_json_opt(*a, *b),
{
    match (a, b) {
        (None, None) => true,
        (Some(x), Some(y)) => crate::json::json_eq(x, y),
        _ => false,
    }
}

fn number_opt_equal(a: &Option<JsonNumber>, b: &Option<JsonNumber>) -> (r: bool)
    ensures
        r == same_number_opt(*a, *b),
{
    match (a, b) {
        (None, None) => true,
        (Some(x), Some(y)) => crate::json::number_eq(x, y),
        _ => false,
    }
}

fn dependencies_equal(a: &Vec<(String, Vec<String>)>, b: &Vec<(String, Vec<String>)>) -> (r: bool)
    ensures
        r == eq_dependencies(a@, b@),
{
    if a.len() != b.len() {
        return false;
    }
    let mut i: usize = 0;
    while i < a.len()
        invariant
            i <= a@.len(),
            a@.len() == b@.len(),
            forall|k: int|
                0 <= k < i ==> (#[trigger] a@[k]).0@ == b@[k].0@ && texts_view(a@[k].1@) == texts_view(b@[k].1@),
        decreases a.len() - i,
    {
        if a[i].0 != b[i].0 || !texts_equal(&a[i].1, &b[i].1) {
            return false;
        }
        i += 1;
    }
    true
}

fn opt_schema_equal(a: &Option<Box<SchemaNode>>, b: &Option<Box<SchemaNode>>) -> (r: bool)
    ensures
        r == eq_opt(*a, *b),
    decreases *a, 0int,
{
    match (a, b) {
        (None, None) => true,
        (Some(x), Some(y)) => {
            proof {
                assert(decreases_to!(*a => a->0));
            }
            schema_equal(x, y)
        },
        _ => false,
    }
}

fn props_equal(a: &Vec<(String, SchemaNode)>, b: &Vec<(String, SchemaNode)>) -> (r: bool)
    ensures
        r == eq_props(a@, b@),
    decreases a@, 0int,
{
    if a.len() != b.len() {
        return false;
    }
    let mut i: usize = 0;
    assert(a@.subrange(0, 0) =~= Seq::<(String, SchemaNode)>::empty());
    assert(b@.subrange(0, 0) =~= Seq::<(String, SchemaNode)>::empty());
    while i < a.len()
        invariant
            i <= a@.len(),
            a@.len() == b@.len(),
            eq_props(a@.subrange(0, i as int), b@.subrange(0, i as int)),
        decreases a.len() - i,
    {
        proof {
            assert(decreases_to!(a@ => a@[i as int]));
            assert(decreases_to!(a@[i as int] => a@[i as int].1));
            assert(a@.subrange(0, i + 1).drop_last() =~= a@.subrange(0, i as int));
            assert(b@.subrange(0, i + 1).drop_last() =~= b@.subrange(0, i as int));
        }
        if a[i].0 != b[i].0 || !schema_equal(&a[i].1, &b[i].1) {
            proof {
                if eq_props(a@, b@) {
                    lemma_eq_props_prefix(a@, b@, i + 1);
                }
            }
            return false;
        }
        i += 1;
    }
    assert(a@.subrange(0, a@.len() as int) =~= a@);
    assert(b@.subrange(0, b@.len() as int) =~= b@);
    true
}

proof fn lemma_eq_props_prefix(a: Seq<(String, SchemaNode)>, b: Seq<(String, SchemaNode)>, k: int)
    requires
        0 <= k <= a.len(),
        a.len() == b.len(),
        eq_props(a, b),
    ensures
        eq_props(a.subrange(0, k), b.subrange(0, k)),
    decreases a.len(),
{
    if k < a.len() {
        lemma_eq_props_prefix(a.drop_last(), b.drop_last(), k);
        assert(a.drop_last().subrange(0, k) =~= a.subrange(0, k));
        assert(b.drop_last().subrange(0, k) =~= b.subrange(0, k));
    } else {
        assert(a.subrange(0, k) =~= a);
        assert(b.subrange(0, k) =~= b);
    }
}

proof fn lemma_eq_list_prefix(a: Seq<SchemaNode>, b: Seq<SchemaNode>, k: int)
    requires
        0 <= k <= a.len(),
        a.len() == b.len(),
        eq_list(a, b),
    ensures
        eq_list(a.subrange(0, k), b.subrange(0, k)),
    decreases a.len(),
{
    if k < a.len() {
        lemma_eq_list_prefix(a.drop_last(), b.drop_last(), k);
        assert(a.drop_last().subrange(0, k) =~= a.subrange(0, k));
        assert(b.drop_last().subrange(0, k) =~= b.subrange(0, k));
    } else {
        assert(a.subrange(0, k) =~= a);
        assert(b.subrange(0, k) =~= b);
    }
}

fn list_equal(a: &Vec<SchemaNode>, b: &Vec<SchemaNode>) -> (r: bool)
    ensures
        r == eq_list(a@, b@),
    decreases a@, 0int,
{
    if a.len() != b.len() {
        return false;
    }
    let mut i: usize = 0;
    assert(a@.subrange(0, 0) =~= Seq::<SchemaNode>::empty());
    assert(b@.subrange(0, 0) =~= Seq::<SchemaNode>::empty());
    while i < a.len()
        invariant
            i <= a@.len(),
            a@.len() == b@.len(),
            eq_list(a@.subrange(0, i as int), b@.subrange(0, i as int)),
        decreases a.len() - i,
    {
        proof {
            assert(decreases_to!(a@ => a@[i as int]));
            assert(a@.subrange(0, i + 1).drop_last() =~= a@.subrange(0, i as int));
            assert(b@.subrange(0, i + 1).drop_last() =~= b@.subrange(0, i as int));
        }
        if !schema_equal(&a[i], &b[i]) {
            proof {
                if eq_list(a@, b@) {
                    lemma_eq_list_prefix(a@, b@, i + 1);
                }
            }
            return false;
        }
        i += 1;
    }
    assert(a@.subrange(0, a@.len() as int) =~= a@);
    assert(b@.subrange(0, b@.len() as int) =~= b@);
    true
}

/// Whether two schemas describe the same contract (see `eq_schema`).
pub fn schema_equal(a: &SchemaNode, b: &SchemaNode) -> (r: bool)
    ensures
        r == eq_schema(*a, *b),
    decreases *a, 1int,
{
    proof {
        assert(decreases_to!(*a => a.properties));
        assert(decreases_to!(a.properties => a.properties@));
        assert(decreases_to!(*a => a.prefix_items));
        assert(decreases_to!(a.prefix_items => a.prefix_items@));
        assert(decreases_to!(*a => a.dependent_schemas));
        assert(decreases_to!(a.dependent_schemas => a.dependent_schemas@));
    }
    a.node_type == b.node_type && text_opt_equal(&a.description, &b.description) && a.required == b.required
        && a.nullable == b.nullable && props_equal(&a.properties, &b.properties) && opt_schema_equal(
        &a.items,
        &b.items,
    ) && list_equal(&a.prefix_items, &b.prefix_items) && json_list_equal(&a.enum_values, &b.enum_values)
        && json_opt_equal(&a.example, &b.example) && text_opt_equal(&a.format, &b.format) && text_opt_equal(
        &a.pattern,
        &b.pattern,
    ) && a.min_length == b.min_length && a.max_length == b.max_length && number_opt_equal(&a.minimum, &b.minimum)
        && number_opt_equal(&a.maximum, &b.maximum) && a.exclusive_minimum == b.exclusive_minimum
        && a.exclusive_maximum == b.exclusive_maximum && a.min_items == b.min_items && a.max_items == b.max_items
        && opt_schema_equal(&a.contains, &b.contains) && a.min_contains == b.min_contains && a.max_contains
        == b.max_contains && a.min_properties == b.min_properties && a.max_properties == b.max_properties
        && dependencies_equal(&a.dependent_required, &b.dependent_required) && props_equal(
        &a.dependent_schemas,
        &b.dependent_schemas,
    ) && opt_schema_equal(&a.if_schema, &b.if_schema) && opt_schema_equal(&a.then_schema, &b.then_schema)
        && opt_schema_equal(&a.else_schema, &b.else_schema) && a.unique_items == b.unique_items
        && number_opt_equal(&a.multiple_of, &b.multiple_of) && opt_schema_equal(
        &a.additional_properties,
        &b.additional_properties,
    ) && a.allow_additional_properties == b.allow_additional_properties && a.allow_unevaluated_properties
        == b.allow_unevaluated_properties && a.allow_unevaluated_items == b.allow_unevaluated_items
        && a.bool_schema == b.bool_schema
}

} // verus!
