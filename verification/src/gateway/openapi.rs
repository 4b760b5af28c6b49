//! The live collections as an OpenAPI 3.0 document, for tools that read
//! API descriptions. Every JSON object here is a key-ordered map: an entry
//! inserted under a key already present replaces it in place.
//!
//! Two things are lost on the way: a parameter keeps its schema as the
//! canonical form has it, and schemas come out as plain object, array and
//! primitive shapes. The success example is pinned on each 2xx response,
//! the error example on the others.
use vstd::prelude::*;
use crate::assoc::{entries_insert, keyed_view, lemma_map_insert_view, vinsert};
use crate::canonical::{
    CanonicalApiCollection, CanonicalEndpoint, CanonicalParameter, CanonicalRequestBody, CanonicalResponse,
    MockExample, SchemaNode,
};
use crate::json::{JsonSpec, JsonValue, json_clone, lemma_view_entries, lemma_view_items, view_entries, view_items, view_json};
use crate::model::{HttpMethod, MockExampleKind, ParameterLocation, SchemaNodeType};
use crate::text::{chars_of, join, string_of};

verus! {

// ---------------------------------------------------------------------
// The document, as a value.

/// The `type` keyword of a node type; an unknown type has none.
pub open spec fn type_label(t: SchemaNodeType) -> Option<Seq<char>> {
    match t {
        SchemaNodeType::Object => Some("object"@),
        SchemaNodeType::Array => Some("array"@),
        SchemaNodeType::String => Some("string"@),
        SchemaNodeType::Integer => Some("integer"@),
        SchemaNodeType::Number => Some("number"@),
        SchemaNodeType::Boolean => Some("boolean"@),
        SchemaNodeType::Null => Some("null"@),
        SchemaNodeType::Unknown => None,
    }
}

/// The names of the required properties, in list order.
pub open spec fn required_names(s: Seq<(String, SchemaNode)>) -> Seq<JsonSpec>
    decreases s.len(),
{
    if s.len() == 0 {
        Seq::empty()
    } else {
        required_names(s.drop_last()) + if s.last().1.required {
            seq![JsonSpec::String(s.last().0@)]
        } else {
            Seq::empty()
        }
    }
}

/// A schema as an OpenAPI schema object: its type, the properties of an
/// object and which of them are required, the items of an array (a string
/// when none are given), nullability, description, enumeration and example.
pub open spec fn schema_doc(node: SchemaNode) -> JsonSpec
    decreases node, 1int,
{
    let has_props = node.node_type == SchemaNodeType::Object && node.properties@.len() > 0;
    let req = required_names(node.properties@);
    JsonSpec::Object(
        (match node.description {
            Some(d) => seq![("description"@, JsonSpec::String(d@))],
            None => Seq::empty(),
        }) + (if node.enum_values@.len() > 0 {
            seq![("enum"@, JsonSpec::Array(view_items(node.enum_values@)))]
        } else {
            Seq::empty()
        }) + (match node.example {
            Some(e) => seq![("example"@, view_json(e))],
            None => Seq::empty(),
        }) + (if node.node_type == SchemaNodeType::Array {
            seq![("items"@, items_doc(node.items))]
        } else {
            Seq::empty()
        }) + (if node.nullable {
            seq![("nullable"@, JsonSpec::Bool(true))]
        } else {
            Seq::empty()
        }) + (if has_props {
            seq![("properties"@, JsonSpec::Object(props_doc(node.properties@)))]
        } else {
            Seq::empty()
        }) + (if has_props && req.len() > 0 {
            seq![("required"@, JsonSpec::Array(req))]
        } else {
            Seq::empty()
        }) + (match type_label(node.node_type) {
            Some(t) => seq![("type"@, JsonSpec::String(t))],
            None => Seq::empty(),
        }),
    )
}

pub open spec fn string_schema_doc() -> JsonSpec {
    JsonSpec::Object(seq![("type"@, JsonSpec::String("string"@))])
}

pub open spec fn items_doc(items: Option<Box<SchemaNode>>) -> JsonSpec
    decreases items, 0int,
{
    match items {
        Some(b) => schema_doc(*b),
        None => string_schema_doc(),
    }
}

/// The properties as a map from name to schema object, later names
/// replacing earlier ones.
pub open spec fn props_doc(s: Seq<(String, SchemaNode)>) -> Seq<(Seq<char>, JsonSpec)>
    decreases s, 0int,
{
    if s.len() == 0 {
        Seq::empty()
    } else {
        vinsert(props_doc(s.drop_last()), s.last().0@, schema_doc(s.last().1))
    }
}

pub open spec fn location_key(l: ParameterLocation) -> Seq<char> {
    match l {
        ParameterLocation::Path => "path"@,
        ParameterLocation::Query => "query"@,
        ParameterLocation::Header => "header"@,
        ParameterLocation::Cookie => "cookie"@,
    }
}

/// A parameter object: description, location, name, whether required,
/// and schema.
pub open spec fn parameter_doc(p: CanonicalParameter) -> JsonSpec {
    JsonSpec::Object(
        (match p.description {
            Some(d) => seq![("description"@, JsonSpec::String(d@))],
            None => Seq::empty(),
        }) + seq![
            ("in"@, JsonSpec::String(location_key(p.location))),
            ("name"@, JsonSpec::String(p.name@)),
            ("required"@, JsonSpec::Bool(p.required)),
            ("schema"@, schema_doc(p.schema)),
        ],
    )
}

/// A request body object: its one media type with its schema, and whether
/// it is required.
pub open spec fn body_doc(b: CanonicalRequestBody) -> JsonSpec {
    JsonSpec::Object(
        seq![
            ("content"@, JsonSpec::Object(seq![(b.content_type@, JsonSpec::Object(seq![("schema"@, schema_doc(b.schema))]))])),
            ("required"@, JsonSpec::Bool(b.required)),
        ],
    )
}

/// The first example of a kind, if any.
pub open spec fn first_of_kind(es: Seq<MockExample>, k: MockExampleKind) -> Option<MockExample>
    decreases es.len(),
{
    if es.len() == 0 {
        None
    } else if es[0].kind == k {
        Some(es[0])
    } else {
        first_of_kind(es.subrange(1, es.len() as int), k)
    }
}

pub open spec fn is_success_status(s: Seq<char>) -> bool {
    s.len() > 0 && s[0] == '2'
}

/// The example pinned on a response: the first success example on a 2xx
/// status, the first error example on any other.
pub open spec fn pinned_example(e: CanonicalEndpoint, r: CanonicalResponse) -> Option<MockExample> {
    if is_success_status(r.status_code@) {
        first_of_kind(e.examples@, MockExampleKind::Success)
    } else {
        first_of_kind(e.examples@, MockExampleKind::Error)
    }
}

pub open spec fn media_doc(e: CanonicalEndpoint, r: CanonicalResponse) -> JsonSpec {
    JsonSpec::Object(
        (match pinned_example(e, r) {
            Some(x) => seq![("example"@, view_json(x.payload))],
            None => Seq::empty(),
        }) + (match r.schema {
            Some(s) => seq![("schema"@, schema_doc(s))],
            None => Seq::empty(),
        }),
    )
}

/// A response object: its media type, and its description (the status
/// code when it has none).
pub open spec fn response_doc(e: CanonicalEndpoint, r: CanonicalResponse) -> JsonSpec {
    JsonSpec::Object(
        seq![
            ("content"@, JsonSpec::Object(seq![(r.content_type@, media_doc(e, r))])),
            ("description"@, JsonSpec::String(
                match r.description {
                    Some(d) => d@,
                    None => r.status_code@,
                },
            )),
        ],
    )
}

pub open spec fn responses_entries(e: CanonicalEndpoint, rs: Seq<CanonicalResponse>) -> Seq<(Seq<char>, JsonSpec)>
    decreases rs.len(),
{
    if rs.len() == 0 {
        Seq::empty()
    } else {
        vinsert(responses_entries(e, rs.drop_last()), rs.last().status_code@, response_doc(e, rs.last()))
    }
}

pub open spec fn no_response_doc() -> JsonSpec {
    JsonSpec::Object(seq![("description"@, JsonSpec::String("OK (no response schema declared)"@))])
}

/// The responses by status code; never empty: with no responses declared
/// there is a `200` without a schema.
pub open spec fn responses_doc(e: CanonicalEndpoint) -> JsonSpec {
    let m = responses_entries(e, e.responses@);
    if m.len() == 0 {
        JsonSpec::Object(seq![("200"@, no_response_doc())])
    } else {
        JsonSpec::Object(m)
    }
}

pub open spec fn texts_json(ts: Seq<String>) -> Seq<JsonSpec> {
    ts.map_values(|t: String| JsonSpec::String(t@))
}

/// The endpoint's tags, then the collection's name unless a tag is it.
pub open spec fn operation_tags(c: CanonicalApiCollection, e: CanonicalEndpoint) -> Seq<JsonSpec> {
    let ts = texts_json(e.tags@);
    if ts.contains(JsonSpec::String(c.name@)) {
        ts
    } else {
        ts.push(JsonSpec::String(c.name@))
    }
}

/// An operation object of an endpoint in a collection.
pub open spec fn operation_doc(c: CanonicalApiCollection, e: CanonicalEndpoint) -> JsonSpec {
    JsonSpec::Object(
        (match e.description {
            Some(d) => seq![("description"@, JsonSpec::String(d@))],
            None => Seq::empty(),
        }) + (match e.operation_id {
            Some(o) => seq![("operationId"@, JsonSpec::String(o@))],
            None => Seq::empty(),
        }) + (if e.parameters@.len() > 0 {
            seq![("parameters"@, JsonSpec::Array(e.parameters@.map_values(|p: CanonicalParameter| parameter_doc(p))))]
        } else {
            Seq::empty()
        }) + (match e.request_body {
            Some(b) => seq![("requestBody"@, body_doc(b))],
            None => Seq::empty(),
        }) + seq![("responses"@, responses_doc(e))] + (match e.summary {
            Some(s) => seq![("summary"@, JsonSpec::String(s@))],
            None => Seq::empty(),
        }) + seq![("tags"@, JsonSpec::Array(operation_tags(c, e)))],
    )
}

/// The operation key of a method.
pub open spec fn method_key(m: HttpMethod) -> Seq<char> {
    match m {
        HttpMethod::Get => "get"@,
        HttpMethod::Post => "post"@,
        HttpMethod::Put => "put"@,
        HttpMethod::Patch => "patch"@,
        HttpMethod::Delete => "delete"@,
        HttpMethod::Options => "options"@,
        HttpMethod::Head => "head"@,
    }
}

/// The entries of the object first stored under `k`; none when there is
/// no such object.
pub open spec fn item_of(m: Seq<(Seq<char>, JsonSpec)>, k: Seq<char>) -> Seq<(Seq<char>, JsonSpec)>
    decreases m.len(),
{
    if m.len() == 0 {
        Seq::empty()
    } else if m[0].0 == k {
        match m[0].1 {
            JsonSpec::Object(es) => es,
            _ => Seq::empty(),
        }
    } else {
        item_of(m.subrange(1, m.len() as int), k)
    }
}

/// The path map after an endpoint's operation goes into its path item.
pub open spec fn add_operation(paths: Seq<(Seq<char>, JsonSpec)>, c: CanonicalApiCollection, e: CanonicalEndpoint) -> Seq<(Seq<char>, JsonSpec)> {
    vinsert(
        paths,
        e.path@,
        JsonSpec::Object(vinsert(item_of(paths, e.path@), method_key(e.method), operation_doc(c, e))),
    )
}

pub open spec fn paths_with(paths: Seq<(Seq<char>, JsonSpec)>, c: CanonicalApiCollection, es: Seq<CanonicalEndpoint>) -> Seq<(Seq<char>, JsonSpec)>
    decreases es.len(),
{
    if es.len() == 0 {
        paths
    } else {
        add_operation(paths_with(paths, c, es.drop_last()), c, es.last())
    }
}

/// The path map of all collections: every endpoint in order, a later one
/// replacing an earlier one with the same path and method.
pub open spec fn paths_doc(cs: Seq<CanonicalApiCollection>) -> Seq<(Seq<char>, JsonSpec)>
    decreases cs.len(),
{
    if cs.len() == 0 {
        Seq::empty()
    } else {
        paths_with(paths_doc(cs.drop_last()), cs.last(), cs.last().endpoints@)
    }
}

/// The collection names, each once, in order of first appearance.
pub open spec fn tag_names(cs: Seq<CanonicalApiCollection>) -> Seq<Seq<char>>
    decreases cs.len(),
{
    if cs.len() == 0 {
        Seq::empty()
    } else {
        let t = tag_names(cs.drop_last());
        if t.contains(cs.last().name@) {
            t
        } else {
            t.push(cs.last().name@)
        }
    }
}

pub open spec fn tags_doc(cs: Seq<CanonicalApiCollection>) -> Seq<JsonSpec> {
    tag_names(cs).map_values(|n: Seq<char>| JsonSpec::Object(seq![("name"@, JsonSpec::String(n))]))
}

/// The descriptions that the collections have, in order.
pub open spec fn descriptions(cs: Seq<CanonicalApiCollection>) -> Seq<Seq<char>>
    decreases cs.len(),
{
    if cs.len() == 0 {
        Seq::empty()
    } else {
        descriptions(cs.drop_last()) + match cs.last().description {
            Some(d) => seq![d@],
            None => Seq::empty(),
        }
    }
}

/// The info object: the descriptions joined by blank lines, the first
/// collection's name as title (a fixed one when there is none), version
/// `1.0.0`.
pub open spec fn info_doc(cs: Seq<CanonicalApiCollection>) -> JsonSpec {
    JsonSpec::Object(
        seq![
            ("description"@, JsonSpec::String(join(descriptions(cs), "\n\n"@))),
            ("title"@, JsonSpec::String(
                if cs.len() > 0 {
                    cs[0].name@
                } else {
                    "Albert mock gateway"@
                },
            )),
            ("version"@, JsonSpec::String("1.0.0"@)),
        ],
    )
}

/// The document: info, version `3.0.3`, paths, the server when a base URL
/// is given, and a tag per collection name.
pub open spec fn document_doc(cs: Seq<CanonicalApiCollection>, base_url: Option<Seq<char>>) -> JsonSpec {
    JsonSpec::Object(
        seq![
            ("info"@, info_doc(cs)),
            ("openapi"@, JsonSpec::String("3.0.3"@)),
            ("paths"@, JsonSpec::Object(paths_doc(cs))),
        ] + (match base_url {
            Some(u) => seq![("servers"@, JsonSpec::Array(seq![JsonSpec::Object(seq![("url"@, JsonSpec::String(u))])]))],
            None => Seq::empty(),
        }) + seq![("tags"@, JsonSpec::Array(tags_doc(cs)))],
    )
}

// ---------------------------------------------------------------------
// Building it.

fn push_entry(out: &mut Vec<(String, JsonValue)>, key: String, v: JsonValue)
    ensures
        view_entries(final(out)@) == view_entries(old(out)@).push((key@, view_json(v))),
{
    let ghost before = out@;
    let ghost k = key@;
    let ghost vv = view_json(v);
    out.push((key, v));
    proof {
        lemma_view_entries(before);
        lemma_view_entries(out@);
        assert(view_entries(out@) =~= view_entries(before).push((k, vv)));
    }
}

fn push_item(out: &mut Vec<JsonValue>, v: JsonValue)
    ensures
        view_items(final(out)@) == view_items(old(out)@).push(view_json(v)),
{
    let ghost before = out@;
    let ghost vv = view_json(v);
    out.push(v);
    proof {
        lemma_view_items(before);
        lemma_view_items(out@);
        assert(view_items(out@) =~= view_items(before).push(vv));
    }
}

/// Inserts into a key-ordered object as a JSON map does.
fn obj_insert(m: &mut Vec<(String, JsonValue)>, key: String, v: JsonValue)
    ensures
        view_entries(final(m)@) == vinsert(view_entries(old(m)@), key@, view_json(v)),
{
    let ghost m0 = m@;
    let ghost gk = key;
    let ghost gv = v;
    entries_insert(m, key, v);
    proof {
        let f = |x: JsonValue| view_json(x);
        lemma_map_insert_view(m0, gk, gv, f);
        lemma_view_entries(m0);
        lemma_view_entries(m@);
        assert(keyed_view(m0, f) =~= view_entries(m0));
        assert(keyed_view(m@, f) =~= view_entries(m@));
    }
}

fn no_entries() -> (r: Vec<(String, JsonValue)>)
    ensures
        view_entries(r@) == Seq::<(Seq<char>, JsonSpec)>::empty(),
{
    Vec::new()
}

fn no_items() -> (r: Vec<JsonValue>)
    ensures
        view_items(r@) == Seq::<JsonSpec>::empty(),
{
    Vec::new()
}

fn single(key: String, v: JsonValue) -> (r: JsonValue)
    ensures
        view_json(r) == JsonSpec::Object(seq![(key@, view_json(v))]),
{
    let mut m = no_entries();
    push_entry(&mut m, key, v);
    assert(view_entries(m@) =~= seq![(key@, view_json(v))]);
    JsonValue::Object(m)
}

fn text_value(s: &str) -> (r: JsonValue)
    ensures
        view_json(r) == JsonSpec::String(s@),
{
    JsonValue::String(s.to_string())
}

fn clone_items(a: &Vec<JsonValue>) -> (r: Vec<JsonValue>)
    ensures
        view_items(r@) == view_items(a@),
{
    let mut r = no_items();
    let mut i: usize = 0;
    while i < a.len()
        invariant
            i <= a@.len(),
            view_items(r@) == view_items(a@.subrange(0, i as int)),
        decreases a.len() - i,
    {
        push_item(&mut r, json_clone(&a[i]));
        proof {
            lemma_view_items(a@.subrange(0, i as int));
            lemma_view_items(a@.subrange(0, i + 1));
            assert(view_items(a@.subrange(0, i + 1)) =~= view_items(a@.subrange(0, i as int)).push(view_json(a@[i as int])));
        }
        i += 1;
    }
    assert(a@.subrange(0, a@.len() as int) =~= a@);
    r
}

fn type_label_of(t: SchemaNodeType) -> (r: Option<&'static str>)
    ensures
        match type_label(t) {
            Some(l) => r matches Some(x) && x@ == l,
            None => r is None,
        },
{
    match t {
        SchemaNodeType::Object => Some("object"),
        SchemaNodeType::Array => Some("array"),
        SchemaNodeType::String => Some("string"),
        SchemaNodeType::Integer => Some("integer"),
        SchemaNodeType::Number => Some("number"),
        SchemaNodeType::Boolean => Some("boolean"),
        SchemaNodeType::Null => Some("null"),
        SchemaNodeType::Unknown => None,
    }
}

fn required_names_of(v: &Vec<(String, SchemaNode)>) -> (r: Vec<JsonValue>)
    ensures
        view_items(r@) == required_names(v@),
{
    let mut r = no_items();
    let mut i: usize = 0;
    while i < v.len()
        invariant
            i <= v@.len(),
            view_items(r@) == required_names(v@.subrange(0, i as int)),
        decreases v.len() - i,
    {
        assert(v@.subrange(0, i + 1).drop_last() =~= v@.subrange(0, i as int));
        if v[i].1.required {
            push_item(&mut r, JsonValue::String(v[i].0.clone()));
        }
        proof {
            assert(view_items(r@) =~= required_names(v@.subrange(0, i + 1)));
        }
        i += 1;
    }
    assert(v@.subrange(0, v@.len() as int) =~= v@);
    r
}

fn props_to_json(v: &Vec<(String, SchemaNode)>) -> (r: Vec<(String, JsonValue)>)
    ensures
        view_entries(r@) == props_doc(v@),
    decreases v@, 0int,
{
    let mut out = no_entries();
    let mut i: usize = 0;
    while i < v.len()
        invariant
            i <= v@.len(),
            view_entries(out@) == props_doc(v@.subrange(0, i as int)),
        decreases v.len() - i,
    {
        proof {
            assert(decreases_to!(v@ => v@[i as int]));
            assert(decreases_to!(v@[i as int] => v@[i as int].1));
        }
        let c = schema_to_json(&v[i].1);
        obj_insert(&mut out, v[i].0.clone(), c);
        proof {
            assert(v@.subrange(0, i + 1).drop_last() =~= v@.subrange(0, i as int));
        }
        i += 1;
    }
    assert(v@.subrange(0, v@.len() as int) =~= v@);
    out
}

fn items_to_json(items: &Option<Box<SchemaNode>>) -> (r: JsonValue)
    ensures
        view_json(r) == items_doc(*items),
    decreases *items, 0int,
{
    match items {
        Some(b) => {
            proof {
                assert(decreases_to!(*items => items->0));
            }
            schema_to_json(b)
        },
        None => single("type".to_string(), text_value("string")),
    }
}

/// The schema object of a schema (see `schema_doc`).
#[verifier::spinoff_prover]
#[verifier::rlimit(80)]
pub fn schema_to_json(node: &SchemaNode) -> (r: JsonValue)
    ensures
        view_json(r) == schema_doc(*node),
    decreases *node, 1int,
{
    proof {
        assert(decreases_to!(*node => node.properties));
        assert(decreases_to!(node.properties => node.properties@));
        assert(decreases_to!(*node => node.items));
    }
    let ghost d = *node;
    let mut out = no_entries();
    match &node.description {
        Some(t) => push_entry(&mut out, "description".to_string(), JsonValue::String(t.clone())),
        None => {},
    }
    let ghost p1 = view_entries(out@);
    if node.enum_values.len() > 0 {
        push_entry(&mut out, "enum".to_string(), JsonValue::Array(clone_items(&node.enum_values)));
    }
    let ghost p2 = view_entries(out@);
    match &node.example {
        Some(e) => push_entry(&mut out, "example".to_string(), json_clone(e)),
        None => {},
    }
    let ghost p3 = view_entries(out@);
    if node.node_type == SchemaNodeType::Array {
        push_entry(&mut out, "items".to_string(), items_to_json(&node.items));
    }
    let ghost p4 = view_entries(out@);
    if node.nullable {
        push_entry(&mut out, "nullable".to_string(), JsonValue::Bool(true));
    }
    let ghost p5 = view_entries(out@);
    let has_props = node.node_type == SchemaNodeType::Object && node.properties.len() > 0;
    if has_props {
        push_entry(&mut out, "properties".to_string(), JsonValue::Object(props_to_json(&node.properties)));
    }
    let ghost p6 = view_entries(out@);
    let req = required_names_of(&node.properties);
    proof {
        lemma_view_items(req@);
    }
    if has_props && req.len() > 0 {
        push_entry(&mut out, "required".to_string(), JsonValue::Array(req));
    }
    let ghost p7 = view_entries(out@);
    match type_label_of(node.node_type) {
        Some(t) => push_entry(&mut out, "type".to_string(), text_value(t)),
        None => {},
    }
    proof {
        let has = d.node_type == SchemaNodeType::Object && d.properties@.len() > 0;
        let q1: Seq<(Seq<char>, JsonSpec)> = match d.description {
            Some(t) => seq![("description"@, JsonSpec::String(t@))],
            None => Seq::empty(),
        };
        assert(p1 =~= q1);
        let q2: Seq<(Seq<char>, JsonSpec)> = if d.enum_values@.len() > 0 {
            seq![("enum"@, JsonSpec::Array(view_items(d.enum_values@)))]
        } else {
            Seq::empty()
        };
        assert(p2 =~= q1 + q2);
        let q3: Seq<(Seq<char>, JsonSpec)> = match d.example {
            Some(e) => seq![("example"@, view_json(e))],
            None => Seq::empty(),
        };
        assert(p3 =~= q1 + q2 + q3);
        let q4: Seq<(Seq<char>, JsonSpec)> = if d.node_type == SchemaNodeType::Array {
            seq![("items"@, items_doc(d.items))]
        } else {
            Seq::empty()
        };
        assert(p4 =~= q1 + q2 + q3 + q4);
        let q5: Seq<(Seq<char>, JsonSpec)> = if d.nullable {
            seq![("nullable"@, JsonSpec::Bool(true))]
        } else {
            Seq::empty()
        };
        assert(p5 =~= q1 + q2 + q3 + q4 + q5);
        let q6: Seq<(Seq<char>, JsonSpec)> = if has {
            seq![("properties"@, JsonSpec::Object(props_doc(d.properties@)))]
        } else {
            Seq::empty()
        };
        assert(p6 =~= q1 + q2 + q3 + q4 + q5 + q6);
        let rq = required_names(d.properties@);
        let q7: Seq<(Seq<char>, JsonSpec)> = if has && rq.len() > 0 {
            seq![("required"@, JsonSpec::Array(rq))]
        } else {
            Seq::empty()
        };
        assert(p7 =~= q1 + q2 + q3 + q4 + q5 + q6 + q7);
        let q8: Seq<(Seq<char>, JsonSpec)> = match type_label(d.node_type) {
            Some(t) => seq![("type"@, JsonSpec::String(t))],
            None => Seq::empty(),
        };
        assert(view_entries(out@) =~= q1 + q2 + q3 + q4 + q5 + q6 + q7 + q8);
        assert(schema_doc(d) == JsonSpec::Object(q1 + q2 + q3 + q4 + q5 + q6 + q7 + q8));
    }
    JsonValue::Object(out)
}

fn location_key_of(l: ParameterLocation) -> (r: &'static str)
    ensures
        r@ == location_key(l),
{
    match l {
        ParameterLocation::Path => "path",
        ParameterLocation::Query => "query",
        ParameterLocation::Header => "header",
        ParameterLocation::Cookie => "cookie",
    }
}

fn parameter_to_json(p: &CanonicalParameter) -> (r: JsonValue)
    ensures
        view_json(r) == parameter_doc(*p),
{
    let mut out = no_entries();
    match &p.description {
        Some(t) => push_entry(&mut out, "description".to_string(), JsonValue::String(t.clone())),
        None => {},
    }
    let ghost p1 = view_entries(out@);
    push_entry(&mut out, "in".to_string(), text_value(location_key_of(p.location)));
    push_entry(&mut out, "name".to_string(), JsonValue::String(p.name.clone()));
    push_entry(&mut out, "required".to_string(), JsonValue::Bool(p.required));
    push_entry(&mut out, "schema".to_string(), schema_to_json(&p.schema));
    proof {
        let pv = *p;
        let q1: Seq<(Seq<char>, JsonSpec)> = match pv.description {
            Some(t) => seq![("description"@, JsonSpec::String(t@))],
            None => Seq::empty(),
        };
        assert(p1 =~= q1);
        assert(view_entries(out@) =~= q1 + seq![
            ("in"@, JsonSpec::String(location_key(p.location))),
            ("name"@, JsonSpec::String(p.name@)),
            ("required"@, JsonSpec::Bool(p.required)),
            ("schema"@, schema_doc(p.schema)),
        ]);
    }
    JsonValue::Object(out)
}

fn body_to_json(b: &CanonicalRequestBody) -> (r: JsonValue)
    ensures
        view_json(r) == body_doc(*b),
{
    let media = single("schema".to_string(), schema_to_json(&b.schema));
    let content = single(b.content_type.clone(), media);
    let mut out = no_entries();
    push_entry(&mut out, "content".to_string(), content);
    push_entry(&mut out, "required".to_string(), JsonValue::Bool(b.required));
    assert(view_entries(out@) =~= seq![
        ("content"@, JsonSpec::Object(seq![(b.content_type@, JsonSpec::Object(seq![("schema"@, schema_doc(b.schema))]))])),
        ("required"@, JsonSpec::Bool(b.required)),
    ]);
    JsonValue::Object(out)
}

fn first_payload(es: &Vec<MockExample>, k: MockExampleKind) -> (r: Option<JsonValue>)
    ensures
        match first_of_kind(es@, k) {
            Some(x) => r matches Some(p) && view_json(p) == view_json(x.payload),
            None => r is None,
        },
{
    let mut i: usize = 0;
    assert(es@.subrange(0, es@.len() as int) =~= es@);
    while i < es.len()
        invariant
            i <= es@.len(),
            first_of_kind(es@, k) == first_of_kind(es@.subrange(i as int, es@.len() as int), k),
        decreases es.len() - i,
    {
        let ghost t = es@.subrange(i as int, es@.len() as int);
        assert(t[0] == es@[i as int]);
        assert(t.subrange(1, t.len() as int) =~= es@.subrange(i + 1, es@.len() as int));
        if es[i].kind == k {
            return Some(json_clone(&es[i].payload));
        }
        i += 1;
    }
    None
}

fn media_to_json(e: &CanonicalEndpoint, r: &CanonicalResponse) -> (m: JsonValue)
    ensures
        view_json(m) == media_doc(*e, *r),
{
    let code = chars_of(r.status_code.as_str());
    let success = code.len() > 0 && code[0] == '2';
    let ex = if success {
        first_payload(&e.examples, MockExampleKind::Success)
    } else {
        first_payload(&e.examples, MockExampleKind::Error)
    };
    let mut out = no_entries();
    match ex {
        Some(x) => push_entry(&mut out, "example".to_string(), x),
        None => {},
    }
    let ghost p1 = view_entries(out@);
    match &r.schema {
        Some(s) => push_entry(&mut out, "schema".to_string(), schema_to_json(s)),
        None => {},
    }
    proof {
        let q1: Seq<(Seq<char>, JsonSpec)> = match pinned_example(*e, *r) {
            Some(x) => seq![("example"@, view_json(x.payload))],
            None => Seq::empty(),
        };
        assert(p1 =~= q1);
        let rv = *r;
        let q2: Seq<(Seq<char>, JsonSpec)> = match rv.schema {
            Some(s) => seq![("schema"@, schema_doc(s))],
            None => Seq::empty(),
        };
        assert(view_entries(out@) =~= q1 + q2);
    }
    JsonValue::Object(out)
}

fn response_to_json(e: &CanonicalEndpoint, r: &CanonicalResponse) -> (m: JsonValue)
    ensures
        view_json(m) == response_doc(*e, *r),
{
    let content = single(r.content_type.clone(), media_to_json(e, r));
    let description = match &r.description {
        Some(d) => d.clone(),
        None => r.status_code.clone(),
    };
    let mut out = no_entries();
    push_entry(&mut out, "content".to_string(), content);
    push_entry(&mut out, "description".to_string(), JsonValue::String(description));
    assert(view_entries(out@) =~= seq![
        ("content"@, JsonSpec::Object(seq![(r.content_type@, media_doc(*e, *r))])),
        ("description"@, JsonSpec::String(
            match r.description {
                Some(d) => d@,
                None => r.status_code@,
            },
        )),
    ]);
    JsonValue::Object(out)
}

fn responses_to_json(e: &CanonicalEndpoint) -> (m: JsonValue)
    ensures
        view_json(m) == responses_doc(*e),
{
    let rs = &e.responses;
    let mut out = no_entries();
    let mut i: usize = 0;
    while i < rs.len()
        invariant
            i <= rs@.len(),
            rs@ == e.responses@,
            view_entries(out@) == responses_entries(*e, rs@.subrange(0, i as int)),
        decreases rs.len() - i,
    {
        let doc = response_to_json(e, &rs[i]);
        obj_insert(&mut out, rs[i].status_code.clone(), doc);
        proof {
            assert(rs@.subrange(0, i + 1).drop_last() =~= rs@.subrange(0, i as int));
        }
        i += 1;
    }
    assert(rs@.subrange(0, rs@.len() as int) =~= rs@);
    proof {
        lemma_view_entries(out@);
    }
    if out.len() == 0 {
        single("200".to_string(), single("description".to_string(), text_value("OK (no response schema declared)")))
    } else {
        JsonValue::Object(out)
    }
}

fn tags_to_json(c: &CanonicalApiCollection, e: &CanonicalEndpoint) -> (r: Vec<JsonValue>)
    ensures
        view_items(r@) == operation_tags(*c, *e),
{
    let name = chars_of(c.name.as_str());
    let mut out = no_items();
    let mut found = false;
    let mut i: usize = 0;
    while i < e.tags.len()
        invariant
            i <= e.tags@.len(),
            name@ == c.name@,
            view_items(out@) == texts_json(e.tags@.subrange(0, i as int)),
            found <==> texts_json(e.tags@.subrange(0, i as int)).contains(JsonSpec::String(c.name@)),
        decreases e.tags.len() - i,
    {
        let ghost before = texts_json(e.tags@.subrange(0, i as int));
        let same = crate::text::chars_eq(&chars_of(e.tags[i].as_str()), &name);
        push_item(&mut out, JsonValue::String(e.tags[i].clone()));
        proof {
            let after = texts_json(e.tags@.subrange(0, i + 1));
            assert(after =~= before.push(JsonSpec::String(e.tags@[i as int]@)));
            if found {
                let w = choose|w: int| 0 <= w < before.len() && before[w] == JsonSpec::String(c.name@);
                assert(after[w] == before[w]);
            }
            if same {
                assert(after[i as int] == JsonSpec::String(c.name@));
            }
            if after.contains(JsonSpec::String(c.name@)) {
                let w = choose|w: int| 0 <= w < after.len() && after[w] == JsonSpec::String(c.name@);
                if w < i {
                    assert(before[w] == after[w]);
                }
            }
        }
        found = found || same;
        i += 1;
    }
    assert(e.tags@.subrange(0, e.tags@.len() as int) =~= e.tags@);
    if !found {
        push_item(&mut out, JsonValue::String(c.name.clone()));
    }
    out
}

fn method_key_of(m: HttpMethod) -> (r: &'static str)
    ensures
        r@ == method_key(m),
{
    match m {
        HttpMethod::Get => "get",
        HttpMethod::Post => "post",
        HttpMethod::Put => "put",
        HttpMethod::Patch => "patch",
        HttpMethod::Delete => "delete",
        HttpMethod::Options => "options",
        HttpMethod::Head => "head",
    }
}

/// The operation object of an endpoint (see `operation_doc`).
pub fn operation_to_json(c: &CanonicalApiCollection, e: &CanonicalEndpoint) -> (r: JsonValue)
    ensures
        view_json(r) == operation_doc(*c, *e),
{
    let mut out = no_entries();
    match &e.description {
        Some(t) => push_entry(&mut out, "description".to_string(), JsonValue::String(t.clone())),
        None => {},
    }
    let ghost p1 = view_entries(out@);
    match &e.operation_id {
        Some(t) => push_entry(&mut out, "operationId".to_string(), JsonValue::String(t.clone())),
        None => {},
    }
    let ghost p2 = view_entries(out@);
    if e.parameters.len() > 0 {
        let mut ps = no_items();
        let mut i: usize = 0;
        while i < e.parameters.len()
            invariant
                i <= e.parameters@.len(),
                view_items(ps@) == e.parameters@.subrange(0, i as int).map_values(|p: CanonicalParameter| parameter_doc(p)),
            decreases e.parameters.len() - i,
        {
            push_item(&mut ps, parameter_to_json(&e.parameters[i]));
            assert(e.parameters@.subrange(0, i + 1).map_values(|p: CanonicalParameter| parameter_doc(p))
                =~= e.parameters@.subrange(0, i as int).map_values(|p: CanonicalParameter| parameter_doc(p)).push(parameter_doc(e.parameters@[i as int])));
            i += 1;
        }
        assert(e.parameters@.subrange(0, e.parameters@.len() as int) =~= e.parameters@);
        push_entry(&mut out, "parameters".to_string(), JsonValue::Array(ps));
    }
    let ghost p3 = view_entries(out@);
    match &e.request_body {
        Some(b) => push_entry(&mut out, "requestBody".to_string(), body_to_json(b)),
        None => {},
    }
    let ghost p4 = view_entries(out@);
    push_entry(&mut out, "responses".to_string(), responses_to_json(e));
    let ghost p5 = view_entries(out@);
    match &e.summary {
        Some(t) => push_entry(&mut out, "summary".to_string(), JsonValue::String(t.clone())),
        None => {},
    }
    let ghost p6 = view_entries(out@);
    push_entry(&mut out, "tags".to_string(), JsonValue::Array(tags_to_json(c, e)));
    proof {
        let ev = *e;
        let q1: Seq<(Seq<char>, JsonSpec)> = match ev.description {
            Some(d) => seq![("description"@, JsonSpec::String(d@))],
            None => Seq::empty(),
        };
        assert(p1 =~= q1);
        let q2: Seq<(Seq<char>, JsonSpec)> = match ev.operation_id {
            Some(o) => seq![("operationId"@, JsonSpec::String(o@))],
            None => Seq::empty(),
        };
        assert(p2 =~= q1 + q2);
        let q3: Seq<(Seq<char>, JsonSpec)> = if e.parameters@.len() > 0 {
            seq![("parameters"@, JsonSpec::Array(e.parameters@.map_values(|p: CanonicalParameter| parameter_doc(p))))]
        } else {
            Seq::empty()
        };
        assert(p3 =~= q1 + q2 + q3);
        let q4: Seq<(Seq<char>, JsonSpec)> = match ev.request_body {
            Some(b) => seq![("requestBody"@, body_doc(b))],
            None => Seq::empty(),
        };
        assert(p4 =~= q1 + q2 + q3 + q4);
        assert(p5 =~= q1 + q2 + q3 + q4 + seq![("responses"@, responses_doc(*e))]);
        let q6: Seq<(Seq<char>, JsonSpec)> = match ev.summary {
            Some(s) => seq![("summary"@, JsonSpec::String(s@))],
            None => Seq::empty(),
        };
        assert(p6 =~= q1 + q2 + q3 + q4 + seq![("responses"@, responses_doc(*e))] + q6);
        assert(view_entries(out@) =~= q1 + q2 + q3 + q4 + seq![("responses"@, responses_doc(*e))] + q6
            + seq![("tags"@, JsonSpec::Array(operation_tags(*c, *e)))]);
    }
    JsonValue::Object(out)
}

fn clone_entries(m: &Vec<(String, JsonValue)>) -> (r: Vec<(String, JsonValue)>)
    ensures
        view_entries(r@) == view_entries(m@),
{
    let mut r = no_entries();
    let mut i: usize = 0;
    while i < m.len()
        invariant
            i <= m@.len(),
            view_entries(r@) == view_entries(m@.subrange(0, i as int)),
        decreases m.len() - i,
    {
        push_entry(&mut r, m[i].0.clone(), json_clone(&m[i].1));
        proof {
            lemma_view_entries(m@.subrange(0, i as int));
            lemma_view_entries(m@.subrange(0, i + 1));
            assert(view_entries(m@.subrange(0, i + 1)) =~= view_entries(m@.subrange(0, i as int)).push(
                (m@[i as int].0@, view_json(m@[i as int].1)),
            ));
        }
        i += 1;
    }
    assert(m@.subrange(0, m@.len() as int) =~= m@);
    r
}

/// The entries of the object first stored under `key` (see `item_of`).
fn item_entries(m: &Vec<(String, JsonValue)>, key: &str) -> (r: Vec<(String, JsonValue)>)
    ensures
        view_entries(r@) == item_of(view_entries(m@), key@),
{
    let k = chars_of(key);
    let ghost vm = view_entries(m@);
    proof {
        lemma_view_entries(m@);
        assert(vm.subrange(0, vm.len() as int) =~= vm);
    }
    let mut i: usize = 0;
    while i < m.len()
        invariant
            i <= m@.len(),
            k@ == key@,
            vm == view_entries(m@),
            vm.len() == m@.len(),
            forall|j: int| 0 <= j < m@.len() ==> #[trigger] vm[j] == (m@[j].0@, view_json(m@[j].1)),
            item_of(vm, key@) == item_of(vm.subrange(i as int, vm.len() as int), key@),
        decreases m.len() - i,
    {
        let ghost t = vm.subrange(i as int, vm.len() as int);
        assert(t[0] == vm[i as int]);
        assert(t.subrange(1, t.len() as int) =~= vm.subrange(i + 1, vm.len() as int));
        if crate::text::chars_eq(&chars_of(m[i].0.as_str()), &k) {
            return match &m[i].1 {
                JsonValue::Object(es) => clone_entries(es),
                _ => no_entries(),
            };
        }
        i += 1;
    }
    no_entries()
}

pub open spec fn opt_text(o: Option<&str>) -> Option<Seq<char>> {
    match o {
        Some(s) => Some(s@),
        None => None,
    }
}

fn texts_contain(v: &Vec<Vec<char>>, x: &Vec<char>) -> (r: bool)
    ensures
        r == crate::text::views(v@).contains(x@),
{
    let mut i: usize = 0;
    while i < v.len()
        invariant
            i <= v@.len(),
            crate::text::views(v@).len() == v@.len(),
            forall|j: int| 0 <= j < i ==> (#[trigger] v@[j])@ != x@,
        decreases v.len() - i,
    {
        if crate::text::chars_eq(&v[i], x) {
            assert(crate::text::views(v@)[i as int] == x@);
            return true;
        }
        i += 1;
    }
    assert(!crate::text::views(v@).contains(x@)) by {
        if crate::text::views(v@).contains(x@) {
            let w = choose|w: int| 0 <= w < v@.len() && crate::text::views(v@)[w] == x@;
            assert(v@[w]@ == x@);
        }
    }
    false
}

/// The OpenAPI 3.0 document of the collections (see `document_doc`); the
/// base URL, when given, becomes the one server.
pub fn to_openapi_document(collections: &[CanonicalApiCollection], base_url: Option<&str>) -> (r: JsonValue)
    ensures
        view_json(r) == document_doc(collections@, opt_text(base_url)),
{
    let cs = collections;
    let mut paths = no_entries();
    let mut names: Vec<Vec<char>> = Vec::new();
    let mut descs: Vec<Vec<char>> = Vec::new();
    proof {
        assert(crate::text::views(names@) =~= Seq::<Seq<char>>::empty());
        assert(crate::text::views(descs@) =~= Seq::<Seq<char>>::empty());
    }
    let mut i: usize = 0;
    while i < cs.len()
        invariant
            i <= cs@.len(),
            view_entries(paths@) == paths_doc(cs@.subrange(0, i as int)),
            crate::text::views(names@) == tag_names(cs@.subrange(0, i as int)),
            crate::text::views(descs@) == descriptions(cs@.subrange(0, i as int)),
        decreases cs.len() - i,
    {
        let c = &cs[i];
        let ghost base = view_entries(paths@);
        let mut j: usize = 0;
        while j < c.endpoints.len()
            invariant
                j <= c.endpoints@.len(),
                *c == cs@[i as int],
                view_entries(paths@) == paths_with(base, *c, c.endpoints@.subrange(0, j as int)),
            decreases c.endpoints.len() - j,
        {
            let e = &c.endpoints[j];
            let mut item = item_entries(&paths, e.path.as_str());
            obj_insert(&mut item, method_key_of(e.method).to_string(), operation_to_json(c, e));
            obj_insert(&mut paths, e.path.clone(), JsonValue::Object(item));
            proof {
                assert(c.endpoints@.subrange(0, j + 1).drop_last() =~= c.endpoints@.subrange(0, j as int));
            }
            j += 1;
        }
        proof {
            assert(c.endpoints@.subrange(0, c.endpoints@.len() as int) =~= c.endpoints@);
            assert(cs@.subrange(0, i + 1).drop_last() =~= cs@.subrange(0, i as int));
        }
        let name = chars_of(c.name.as_str());
        if !texts_contain(&names, &name) {
            names.push(name);
        }
        match &c.description {
            Some(d) => descs.push(chars_of(d.as_str())),
            None => {},
        }
        proof {
            assert(crate::text::views(names@) =~= tag_names(cs@.subrange(0, i + 1)));
            assert(crate::text::views(descs@) =~= descriptions(cs@.subrange(0, i + 1)));
        }
        i += 1;
    }
    proof {
        assert(cs@.subrange(0, cs@.len() as int) =~= cs@);
    }
    let mut tags = no_items();
    let mut k: usize = 0;
    while k < names.len()
        invariant
            k <= names@.len(),
            crate::text::views(names@) == tag_names(cs@),
            view_items(tags@) == tag_names(cs@).subrange(0, k as int).map_values(
                |n: Seq<char>| JsonSpec::Object(seq![("name"@, JsonSpec::String(n))]),
            ),
        decreases names.len() - k,
    {
        assert(crate::text::views(names@)[k as int] == names@[k as int]@);
        push_item(&mut tags, single("name".to_string(), JsonValue::String(string_of(&names[k]))));
        assert(tag_names(cs@).subrange(0, k + 1).map_values(|n: Seq<char>| JsonSpec::Object(seq![("name"@, JsonSpec::String(n))]))
            =~= tag_names(cs@).subrange(0, k as int).map_values(|n: Seq<char>| JsonSpec::Object(seq![("name"@, JsonSpec::String(n))])).push(
                JsonSpec::Object(seq![("name"@, JsonSpec::String(names@[k as int]@))]),
            ));
        k += 1;
    }
    assert(tag_names(cs@).subrange(0, names@.len() as int) =~= tag_names(cs@));
    let description = crate::openai::generate::join_of(&descs, "\n\n");
    let title = if cs.len() > 0 {
        cs[0].name.clone()
    } else {
        "Albert mock gateway".to_string()
    };
    let mut info = no_entries();
    push_entry(&mut info, "description".to_string(), JsonValue::String(string_of(&description)));
    push_entry(&mut info, "title".to_string(), JsonValue::String(title));
    push_entry(&mut info, "version".to_string(), text_value("1.0.0"));
    assert(view_entries(info@) =~= seq![
        ("description"@, JsonSpec::String(join(descriptions(cs@), "\n\n"@))),
        ("title"@, JsonSpec::String(if cs@.len() > 0 { cs@[0].name@ } else { "Albert mock gateway"@ })),
        ("version"@, JsonSpec::String("1.0.0"@)),
    ]);
    let mut doc = no_entries();
    push_entry(&mut doc, "info".to_string(), JsonValue::Object(info));
    push_entry(&mut doc, "openapi".to_string(), text_value("3.0.3"));
    push_entry(&mut doc, "paths".to_string(), JsonValue::Object(paths));
    let ghost p3 = view_entries(doc@);
    match base_url {
        Some(u) => {
            let mut servers = no_items();
            push_item(&mut servers, single("url".to_string(), text_value(u)));
            assert(view_items(servers@) =~= seq![JsonSpec::Object(seq![("url"@, JsonSpec::String(u@))])]);
            push_entry(&mut doc, "servers".to_string(), JsonValue::Array(servers));
        },
        None => {},
    }
    let ghost p4 = view_entries(doc@);
    push_entry(&mut doc, "tags".to_string(), JsonValue::Array(tags));
    proof {
        let q: Seq<(Seq<char>, JsonSpec)> = match opt_text(base_url) {
            Some(u) => seq![("servers"@, JsonSpec::Array(seq![JsonSpec::Object(seq![("url"@, JsonSpec::String(u))])]))],
            None => Seq::empty(),
        };
        assert(p4 =~= p3 + q);
        assert(view_entries(doc@) =~= seq![
            ("info"@, info_doc(cs@)),
            ("openapi"@, JsonSpec::String("3.0.3"@)),
            ("paths"@, JsonSpec::Object(paths_doc(cs@))),
        ] + q + seq![("tags"@, JsonSpec::Array(tags_doc(cs@)))]);
    }
    JsonValue::Object(doc)
}

} // verus!
