//! Schema keywords read straight from the parsed document: schemas given
//! as JSON values, and the keywords (`if`/`then`/`else`, `prefixItems`,
//! `contains`, `dependentRequired`, `dependentSchemas`, boolean
//! `additionalProperties`/`items`, `unevaluated*`) laid over a schema
//! built from the typed document.
//!
//! Every step into a nested schema spends one unit of `fuel`; a schema
//! reached with no fuel left is an unconstrained node of unknown type
//! (references may form cycles, so nesting through them is unbounded).
use vstd::prelude::*;
use crate::assoc::{vinsert, entries_insert};
use crate::canonical::SchemaNode;
use crate::json::{JsonSpec, JsonValue, view_json, view_entries, view_items, lemma_view_entries, lemma_view_items, json_clone};
use crate::model::SchemaNodeType;
use crate::parser::oajson::{entry_get, jget, jstr, jbool, jnum, jusize, jarr, jobj, resolve_ref, ref_view, get_field, get_str, get_bool, get_number, get_usize, resolve_ref_of, lemma_entry_get};
use crate::schema_view::{SchemaView, blank_view, schema_view, props_view, list_view, dependencies_view, names_view, lemma_blank_view, lemma_props_insert, lemma_dependencies_insert, lemma_list_view_push, lemma_props_view};
use crate::text::chars_of;

verus! {

pub open spec fn bool_view(b: bool) -> SchemaView {
    SchemaView { bool_schema: Some(b), ..blank_view(SchemaNodeType::Unknown) }
}

/// The string members of a JSON array, in order.
pub open spec fn strings_of(a: Seq<JsonSpec>) -> Seq<Seq<char>>
    decreases a.len(),
{
    if a.len() == 0 {
        Seq::empty()
    } else {
        let prev = strings_of(a.drop_last());
        match a.last() {
            JsonSpec::String(s) => prev.push(s),
            _ => prev,
        }
    }
}

/// Whether the JSON array `a` holds the string `name`.
pub open spec fn has_string(a: Seq<JsonSpec>, name: Seq<char>) -> bool {
    exists|i: int| 0 <= i < a.len() && a[i] == JsonSpec::String(name)
}

/// The node for the scalar `type`s (and for an unknown or missing one).
pub open spec fn scalar_view(r: JsonSpec, t: Option<Seq<char>>) -> SchemaView {
    if t == Some("string"@) {
        SchemaView {
            format: jstr(r, "format"@),
            pattern: jstr(r, "pattern"@),
            min_length: jusize(r, "minLength"@),
            max_length: jusize(r, "maxLength"@),
            ..blank_view(SchemaNodeType::String)
        }
    } else if t == Some("integer"@) || t == Some("number"@) {
        SchemaView {
            minimum: jnum(r, "minimum"@),
            maximum: jnum(r, "maximum"@),
            multiple_of: jnum(r, "multipleOf"@),
            ..blank_view(if t == Some("integer"@) { SchemaNodeType::Integer } else { SchemaNodeType::Number })
        }
    } else if t == Some("boolean"@) {
        blank_view(SchemaNodeType::Boolean)
    } else if t == Some("null"@) {
        SchemaView { nullable: true, ..blank_view(SchemaNodeType::Null) }
    } else {
        blank_view(SchemaNodeType::Unknown)
    }
}

/// The keywords every schema value carries over, laid over `base`.
pub open spec fn finish_view(base: SchemaView, r: JsonSpec) -> SchemaView {
    SchemaView {
        description: jstr(r, "description"@),
        enum_values: match jarr(r, "enum"@) {
            Some(a) => a,
            None => Seq::empty(),
        },
        example: jget(r, "example"@),
        nullable: match jbool(r, "nullable"@) {
            Some(b) => b,
            None => base.nullable,
        },
        exclusive_minimum: jbool(r, "exclusiveMinimum"@) == Some(true),
        exclusive_maximum: jbool(r, "exclusiveMaximum"@) == Some(true),
        ..base
    }
}

pub open spec fn is_object_value(r: JsonSpec, t: Option<Seq<char>>) -> bool {
    t == Some("object"@) || (t is None && jget(r, "properties"@) is Some)
}

pub open spec fn is_array_value(r: JsonSpec, t: Option<Seq<char>>) -> bool {
    t == Some("array"@) || (t is None && (jget(r, "items"@) is Some || jget(r, "contains"@) is Some))
}

/// A schema given as a JSON value (after following a reference).
pub open spec fn raw_node(raw: JsonSpec, root: JsonSpec, fuel: nat) -> SchemaView
    decreases fuel, 0nat,
{
    if fuel == 0 {
        blank_view(SchemaNodeType::Unknown)
    } else {
        let f = (fuel - 1) as nat;
        let r = resolve_ref(raw, root);
        match r {
            JsonSpec::Bool(b) => bool_view(b),
            _ => {
                let t = jstr(r, "type"@);
                let base = if is_object_value(r, t) {
                    raw_object(r, root, f)
                } else if is_array_value(r, t) {
                    raw_array(r, root, f)
                } else {
                    scalar_view(r, t)
                };
                finish_view(base, r)
            },
        }
    }
}

/// An object schema given as a JSON value.
pub open spec fn raw_object(r: JsonSpec, root: JsonSpec, fuel: nat) -> SchemaView
    decreases fuel, 0nat,
{
    if fuel == 0 {
        blank_view(SchemaNodeType::Unknown)
    } else {
        let f = (fuel - 1) as nat;
        let b0 = SchemaView {
            min_properties: jusize(r, "minProperties"@),
            max_properties: jusize(r, "maxProperties"@),
            ..blank_view(SchemaNodeType::Object)
        };
        let b1 = match jget(r, "additionalProperties"@) {
            Some(JsonSpec::Bool(false)) => SchemaView { allow_additional_properties: false, ..b0 },
            Some(JsonSpec::Bool(true)) => b0,
            Some(o) => SchemaView {
                additional_properties: Some(Box::new(raw_node(resolve_ref(o, root), root, f))),
                ..b0
            },
            None => b0,
        };
        let b2 = if jbool(r, "unevaluatedProperties"@) == Some(false) {
            SchemaView { allow_unevaluated_properties: false, ..b1 }
        } else {
            b1
        };
        let req = match jarr(r, "required"@) {
            Some(a) => a,
            None => Seq::empty(),
        };
        let b3 = match jobj(r, "properties"@) {
            Some(ps) => SchemaView { properties: raw_props(ps, req, root, f), ..b2 },
            None => b2,
        };
        obj_ext(b3, r, root, f)
    }
}

/// The properties of an object schema value, each marked required when
/// `req` names it, in key order.
pub open spec fn raw_props(es: Seq<(Seq<char>, JsonSpec)>, req: Seq<JsonSpec>, root: JsonSpec, fuel: nat) -> Seq<(Seq<char>, SchemaView)>
    decreases fuel, es.len() + 1,
{
    if es.len() == 0 {
        Seq::empty()
    } else {
        let prev = raw_props(es.drop_last(), req, root, fuel);
        let e = es.last();
        let c = raw_node(e.1, root, fuel);
        vinsert(prev, e.0, SchemaView { required: has_string(req, e.0), ..c })
    }
}

/// An array schema given as a JSON value.
pub open spec fn raw_array(r: JsonSpec, root: JsonSpec, fuel: nat) -> SchemaView
    decreases fuel, 0nat,
{
    if fuel == 0 {
        blank_view(SchemaNodeType::Unknown)
    } else {
        let f = (fuel - 1) as nat;
        let item = match jget(r, "items"@) {
            Some(i) => raw_node(i, root, f),
            None => bool_view(true),
        };
        let b = SchemaView {
            items: Some(Box::new(item)),
            min_items: jusize(r, "minItems"@),
            max_items: jusize(r, "maxItems"@),
            unique_items: jbool(r, "uniqueItems"@) == Some(true),
            ..blank_view(SchemaNodeType::Array)
        };
        arr_ext(b, r, root, f)
    }
}

/// The keywords of the JSON value `raw` laid over the schema `n`.
pub open spec fn ext(n: SchemaView, raw: JsonSpec, root: JsonSpec, fuel: nat) -> SchemaView
    decreases fuel, 0nat,
{
    if fuel == 0 {
        n
    } else {
        let f = (fuel - 1) as nat;
        let r = resolve_ref(raw, root);
        let n1 = cond(n, r, root, f);
        if n1.node_type == SchemaNodeType::Object {
            obj_ext(n1, r, root, f)
        } else if n1.node_type == SchemaNodeType::Array {
            arr_ext(n1, r, root, f)
        } else {
            n1
        }
    }
}

/// `if` / `then` / `else`.
pub open spec fn cond(n: SchemaView, r: JsonSpec, root: JsonSpec, fuel: nat) -> SchemaView
    decreases fuel, 0nat,
{
    if fuel == 0 {
        n
    } else {
        let f = (fuel - 1) as nat;
        let a = match jget(r, "if"@) {
            Some(x) => SchemaView { if_schema: Some(Box::new(raw_node(resolve_ref(x, root), root, f))), ..n },
            None => n,
        };
        let b = match jget(r, "then"@) {
            Some(x) => SchemaView { then_schema: Some(Box::new(raw_node(resolve_ref(x, root), root, f))), ..a },
            None => a,
        };
        match jget(r, "else"@) {
            Some(x) => SchemaView { else_schema: Some(Box::new(raw_node(resolve_ref(x, root), root, f))), ..b },
            None => b,
        }
    }
}

/// The object keywords of `r` laid over `n`.
pub open spec fn obj_ext(n: SchemaView, r: JsonSpec, root: JsonSpec, fuel: nat) -> SchemaView
    decreases fuel, 0nat,
{
    if fuel == 0 {
        n
    } else {
        let f = (fuel - 1) as nat;
        let n1 = match jget(r, "additionalProperties"@) {
            Some(JsonSpec::Bool(false)) => SchemaView {
                allow_additional_properties: false,
                additional_properties: None,
                ..n
            },
            Some(JsonSpec::Bool(true)) => SchemaView {
                allow_additional_properties: true,
                additional_properties: None,
                ..n
            },
            Some(o) => SchemaView {
                allow_additional_properties: true,
                additional_properties: Some(Box::new(raw_node(resolve_ref(o, root), root, f))),
                ..n
            },
            None => n,
        };
        let n2 = if jbool(r, "unevaluatedProperties"@) == Some(false) {
            SchemaView { allow_unevaluated_properties: false, ..n1 }
        } else {
            n1
        };
        let n3 = match jobj(r, "dependentRequired"@) {
            Some(m) => SchemaView { dependent_required: dep_required(m, n2.dependent_required), ..n2 },
            None => n2,
        };
        let n4 = match jobj(r, "dependentSchemas"@) {
            Some(m) => SchemaView { dependent_schemas: dep_schemas(m, n3.dependent_schemas, root, f), ..n3 },
            None => n3,
        };
        match jobj(r, "properties"@) {
            Some(rp) => SchemaView { properties: ext_props(n4.properties, rp, root, f), ..n4 },
            None => n4,
        }
    }
}

/// `dependentRequired` entries added to `acc`: each name with the strings
/// of its array, when there is at least one.
pub open spec fn dep_required(es: Seq<(Seq<char>, JsonSpec)>, acc: Seq<(Seq<char>, Seq<Seq<char>>)>) -> Seq<(Seq<char>, Seq<Seq<char>>)>
    decreases es.len(),
{
    if es.len() == 0 {
        acc
    } else {
        let prev = dep_required(es.drop_last(), acc);
        let e = es.last();
        let ds = match e.1 {
            JsonSpec::Array(a) => strings_of(a),
            _ => Seq::empty(),
        };
        if ds.len() > 0 {
            vinsert(prev, e.0, ds)
        } else {
            prev
        }
    }
}

/// `dependentSchemas` entries added to `acc`.
pub open spec fn dep_schemas(es: Seq<(Seq<char>, JsonSpec)>, acc: Seq<(Seq<char>, SchemaView)>, root: JsonSpec, fuel: nat) -> Seq<(Seq<char>, SchemaView)>
    decreases fuel, es.len() + 1,
{
    if es.len() == 0 {
        acc
    } else {
        let prev = dep_schemas(es.drop_last(), acc, root, fuel);
        let e = es.last();
        let d = resolve_ref(e.1, root);
        vinsert(prev, e.0, ext(raw_node(d, root, fuel), d, root, fuel))
    }
}

/// Each property of `ps` with the keywords of its namesake in `rp` laid
/// over it.
pub open spec fn ext_props(ps: Seq<(Seq<char>, SchemaView)>, rp: Seq<(Seq<char>, JsonSpec)>, root: JsonSpec, fuel: nat) -> Seq<(Seq<char>, SchemaView)>
    decreases fuel, ps.len() + 1,
{
    if ps.len() == 0 {
        ps
    } else {
        let prev = ext_props(ps.drop_last(), rp, root, fuel);
        let e = ps.last();
        match entry_get(rp, e.0) {
            Some(rc) => prev.push((e.0, ext(e.1, rc, root, fuel))),
            None => prev.push(e),
        }
    }
}

/// The array keywords of `r` laid over `n`.
pub open spec fn arr_ext(n: SchemaView, r: JsonSpec, root: JsonSpec, fuel: nat) -> SchemaView
    decreases fuel, 0nat,
{
    if fuel == 0 {
        n
    } else {
        let f = (fuel - 1) as nat;
        let n1 = match jarr(r, "prefixItems"@) {
            Some(a) => SchemaView { prefix_items: prefix(a, root, f), ..n },
            None => n,
        };
        arr_rest(n1, r, root, f)
    }
}

/// The array keywords after `prefixItems`.
pub open spec fn arr_rest(n: SchemaView, r: JsonSpec, root: JsonSpec, f: nat) -> SchemaView
    decreases f, 2nat,
{
    let n2 = if jbool(r, "unevaluatedItems"@) == Some(false) {
        SchemaView { allow_unevaluated_items: false, ..n }
    } else {
        n
    };
    let n3 = contains_part(n2, r, root, f);
    items_part(SchemaView { min_contains: jusize(r, "minContains"@), max_contains: jusize(r, "maxContains"@), ..n3 }, r, root, f)
}

/// `contains`.
pub open spec fn contains_part(n: SchemaView, r: JsonSpec, root: JsonSpec, f: nat) -> SchemaView
    decreases f, 1nat,
{
    match jget(r, "contains"@) {
        Some(c) => {
            let c2 = resolve_ref(c, root);
            SchemaView { contains: Some(Box::new(ext(raw_node(c2, root, f), c2, root, f))), ..n }
        },
        None => n,
    }
}

/// `items`: a boolean replaces the item schema, any other value is laid
/// over it.
pub open spec fn items_part(n: SchemaView, r: JsonSpec, root: JsonSpec, f: nat) -> SchemaView
    decreases f, 1nat,
{
    match jget(r, "items"@) {
        Some(i) => {
            let i2 = resolve_ref(i, root);
            match i2 {
                JsonSpec::Bool(_) => SchemaView { items: Some(Box::new(raw_node(i2, root, f))), ..n },
                _ => match n.items {
                    Some(it) => SchemaView { items: Some(Box::new(ext(*it, i2, root, f))), ..n },
                    None => n,
                },
            }
        },
        None => n,
    }
}

/// `prefixItems`: each value as a schema with its keywords laid over it.
pub open spec fn prefix(a: Seq<JsonSpec>, root: JsonSpec, fuel: nat) -> Seq<SchemaView>
    decreases fuel, a.len() + 1,
{
    if a.len() == 0 {
        Seq::empty()
    } else {
        let x = resolve_ref(a.last(), root);
        prefix(a.drop_last(), root, fuel).push(ext(raw_node(x, root, fuel), x, root, fuel))
    }
}


// ---------------------------------------------------------------------
// Executable side

#[verifier::spinoff_prover]
pub(crate) fn blank_node(t: SchemaNodeType) -> (s: SchemaNode)
    ensures
        s@ == blank_view(t),
{
    let mut s = SchemaNode::string();
    proof {
        lemma_blank_view(SchemaNodeType::String, s);
    }
    s.node_type = t;
    s
}

#[verifier::spinoff_prover]
pub(crate) fn bool_node(b: bool) -> (s: SchemaNode)
    ensures
        s@ == bool_view(b),
{
    let mut s = blank_node(SchemaNodeType::Unknown);
    s.bool_schema = Some(b);
    s
}

/// Whether the optional text is the given literal.
#[verifier::spinoff_prover]
pub fn is_text(t: &Option<String>, lit: &str) -> (b: bool)
    ensures
        b == (crate::canonical::text_view(*t) == Some(lit@)),
{
    match t {
        Some(s) => crate::text::eq_str(&chars_of(s.as_str()), lit),
        None => false,
    }
}

#[verifier::spinoff_prover]
pub fn clone_values(a: &Vec<JsonValue>) -> (r: Vec<JsonValue>)
    ensures
        view_items(r@) == view_items(a@),
{
    let mut r: Vec<JsonValue> = Vec::new();
    let mut i: usize = 0;
    while i < a.len()
        invariant
            i <= a.len(),
            r@.len() == i,
            forall|j: int| 0 <= j < i ==> view_json(#[trigger] r@[j]) == view_json(a@[j]),
        decreases a.len() - i,
    {
        r.push(json_clone(&a[i]));
        i += 1;
    }
    proof {
        crate::json::lemma_view_items_eq(r@, a@);
    }
    r
}

#[verifier::spinoff_prover]
pub(crate) fn has_string_of(a: &Vec<JsonValue>, name: &String) -> (b: bool)
    ensures
        b == has_string(view_items(a@), name@),
{
    proof {
        lemma_view_items(a@);
    }
    let k = chars_of(name.as_str());
    let mut i: usize = 0;
    while i < a.len()
        invariant
            i <= a.len(),
            k@ == name@,
            view_items(a@).len() == a@.len(),
            forall|j: int| 0 <= j < a@.len() ==> #[trigger] view_items(a@)[j] == view_json(a@[j]),
            forall|j: int| 0 <= j < i ==> view_items(a@)[j] != JsonSpec::String(name@),
        decreases a.len() - i,
    {
        match &a[i] {
            JsonValue::String(s) => {
                if crate::text::eq_str(&k, s.as_str()) {
                    assert(view_items(a@)[i as int] == JsonSpec::String(name@));
                    return true;
                }
            },
            _ => {},
        }
        i += 1;
    }
    false
}

#[verifier::spinoff_prover]
pub(crate) fn strings_in(a: &Vec<JsonValue>) -> (r: Vec<String>)
    ensures
        names_view(r@) == strings_of(view_items(a@)),
{
    proof {
        lemma_view_items(a@);
    }
    let mut r: Vec<String> = Vec::new();
    let mut i: usize = 0;
    while i < a.len()
        invariant
            i <= a.len(),
            view_items(a@).len() == a@.len(),
            forall|j: int| 0 <= j < a@.len() ==> #[trigger] view_items(a@)[j] == view_json(a@[j]),
            names_view(r@) == strings_of(view_items(a@).subrange(0, i as int)),
        decreases a.len() - i,
    {
        let ghost before = r@;
        proof {
            assert(view_items(a@).subrange(0, i + 1).drop_last() =~= view_items(a@).subrange(0, i as int));
        }
        match &a[i] {
            JsonValue::String(s) => {
                r.push(s.clone());
                proof {
                    assert(names_view(r@) =~= names_view(before).push(s@));
                }
            },
            _ => {},
        }
        i += 1;
    }
    proof {
        assert(view_items(a@).subrange(0, a@.len() as int) =~= view_items(a@));
    }
    r
}

#[verifier::spinoff_prover]
fn scalar_node(r: &JsonValue, t: &Option<String>) -> (s: SchemaNode)
    ensures
        s@ == scalar_view(r@, crate::canonical::text_view(*t)),
{
    if is_text(t, "string") {
        let mut n = blank_node(SchemaNodeType::String);
        n.format = get_str(r, "format");
        n.pattern = get_str(r, "pattern");
        n.min_length = get_usize(r, "minLength");
        n.max_length = get_usize(r, "maxLength");
        n
    } else if is_text(t, "integer") || is_text(t, "number") {
        let mut n = blank_node(if is_text(t, "integer") { SchemaNodeType::Integer } else { SchemaNodeType::Number });
        n.minimum = get_number(r, "minimum");
        n.maximum = get_number(r, "maximum");
        n.multiple_of = get_number(r, "multipleOf");
        n
    } else if is_text(t, "boolean") {
        blank_node(SchemaNodeType::Boolean)
    } else if is_text(t, "null") {
        let mut n = blank_node(SchemaNodeType::Null);
        n.nullable = true;
        n
    } else {
        blank_node(SchemaNodeType::Unknown)
    }
}

#[verifier::spinoff_prover]
fn finish_node(base: SchemaNode, r: &JsonValue) -> (s: SchemaNode)
    ensures
        s@ == finish_view(base@, r@),
{
    let mut n = base;
    n.description = get_str(r, "description");
    n.enum_values = match get_field(r, "enum") {
        Some(JsonValue::Array(a)) => clone_values(a),
        _ => Vec::new(),
    };
    proof {
        assert(view_items(Seq::<JsonValue>::empty()) =~= Seq::<JsonSpec>::empty());
    }
    n.example = match get_field(r, "example") {
        Some(x) => Some(json_clone(x)),
        None => None,
    };
    match get_bool(r, "nullable") {
        Some(b) => {
            n.nullable = b;
        },
        None => {},
    }
    n.exclusive_minimum = match get_bool(r, "exclusiveMinimum") {
        Some(b) => b,
        None => false,
    };
    n.exclusive_maximum = match get_bool(r, "exclusiveMaximum") {
        Some(b) => b,
        None => false,
    };
    n
}

/// A schema given as a JSON value (after following a reference into `root`).
#[verifier::spinoff_prover]
pub fn raw_node_of(raw: &JsonValue, root: &JsonValue, fuel: u64) -> (s: SchemaNode)
    ensures
        s@ == raw_node(raw@, root@, fuel as nat),
    decreases fuel, 0nat,
{
    if fuel == 0 {
        return blank_node(SchemaNodeType::Unknown);
    }
    let f = fuel - 1;
    let r = resolve_ref_of(raw, root);
    if let JsonValue::Bool(b) = r {
        return bool_node(*b);
    }
    let t = get_str(r, "type");
    let base = if is_text(&t, "object") || (t.is_none() && get_field(r, "properties").is_some()) {
        raw_object_of(r, root, f)
    } else if is_text(&t, "array") || (t.is_none() && (get_field(r, "items").is_some() || get_field(r, "contains").is_some())) {
        raw_array_of(r, root, f)
    } else {
        scalar_node(r, &t)
    };
    finish_node(base, r)
}

#[verifier::spinoff_prover]
fn raw_object_of(r: &JsonValue, root: &JsonValue, fuel: u64) -> (s: SchemaNode)
    ensures
        s@ == raw_object(r@, root@, fuel as nat),
    decreases fuel, 0nat,
{
    if fuel == 0 {
        return blank_node(SchemaNodeType::Unknown);
    }
    let f = fuel - 1;
    let mut n = blank_node(SchemaNodeType::Object);
    n.min_properties = get_usize(r, "minProperties");
    n.max_properties = get_usize(r, "maxProperties");
    match get_field(r, "additionalProperties") {
        Some(JsonValue::Bool(b)) => {
            if !*b {
                n.allow_additional_properties = false;
            }
        },
        Some(o) => {
            let o2 = resolve_ref_of(o, root);
            n.additional_properties = Some(Box::new(raw_node_of(o2, root, f)));
        },
        None => {},
    }
    match get_bool(r, "unevaluatedProperties") {
        Some(false) => {
            n.allow_unevaluated_properties = false;
        },
        _ => {},
    }
    let empty: Vec<JsonValue> = Vec::new();
    let req: &Vec<JsonValue> = match get_field(r, "required") {
        Some(JsonValue::Array(a)) => a,
        _ => &empty,
    };
    proof {
        assert(view_items(empty@) =~= Seq::<JsonSpec>::empty());
    }
    match get_field(r, "properties") {
        Some(JsonValue::Object(ps)) => {
            n.properties = raw_props_of(ps, req, root, f);
        },
        _ => {},
    }
    obj_ext_of(n, r, root, f)
}

#[verifier::spinoff_prover]
fn raw_props_of(es: &Vec<(String, JsonValue)>, req: &Vec<JsonValue>, root: &JsonValue, fuel: u64) -> (out: Vec<(String, SchemaNode)>)
    ensures
        props_view(out@) == raw_props(view_entries(es@), view_items(req@), root@, fuel as nat),
    decreases fuel, es@.len() + 1,
{
    proof {
        lemma_view_entries(es@);
    }
    let mut out: Vec<(String, SchemaNode)> = Vec::new();
    let mut i: usize = 0;
    while i < es.len()
        invariant
            i <= es.len(),
            view_entries(es@).len() == es@.len(),
            forall|j: int| 0 <= j < es@.len() ==> #[trigger] view_entries(es@)[j] == (es@[j].0@, view_json(es@[j].1)),
            props_view(out@) == raw_props(view_entries(es@).subrange(0, i as int), view_items(req@), root@, fuel as nat),
        decreases es.len() - i,
    {
        let mut c = raw_node_of(&es[i].1, root, fuel);
        c.required = has_string_of(req, &es[i].0);
        let ghost before = out@;
        let key = es[i].0.clone();
        proof {
            lemma_props_insert(before, key, c);
            assert(view_entries(es@).subrange(0, i + 1).drop_last() =~= view_entries(es@).subrange(0, i as int));
        }
        entries_insert(&mut out, key, c);
        i += 1;
    }
    proof {
        assert(view_entries(es@).subrange(0, es@.len() as int) =~= view_entries(es@));
    }
    out
}

#[verifier::spinoff_prover]
fn raw_array_of(r: &JsonValue, root: &JsonValue, fuel: u64) -> (s: SchemaNode)
    ensures
        s@ == raw_array(r@, root@, fuel as nat),
    decreases fuel, 0nat,
{
    if fuel == 0 {
        return blank_node(SchemaNodeType::Unknown);
    }
    let f = fuel - 1;
    let item = match get_field(r, "items") {
        Some(i) => raw_node_of(i, root, f),
        None => bool_node(true),
    };
    let mut n = blank_node(SchemaNodeType::Array);
    n.items = Some(Box::new(item));
    n.min_items = get_usize(r, "minItems");
    n.max_items = get_usize(r, "maxItems");
    n.unique_items = match get_bool(r, "uniqueItems") {
        Some(b) => b,
        None => false,
    };
    arr_ext_of(n, r, root, f)
}

/// The keywords of the JSON value `raw` laid over the schema `n`.
#[verifier::spinoff_prover]
pub fn ext_of(n: SchemaNode, raw: &JsonValue, root: &JsonValue, fuel: u64) -> (s: SchemaNode)
    ensures
        s@ == ext(n@, raw@, root@, fuel as nat),
    decreases fuel, 0nat,
{
    if fuel == 0 {
        return n;
    }
    let f = fuel - 1;
    let r = resolve_ref_of(raw, root);
    let n1 = cond_of(n, r, root, f);
    match n1.node_type {
        SchemaNodeType::Object => obj_ext_of(n1, r, root, f),
        SchemaNodeType::Array => arr_ext_of(n1, r, root, f),
        _ => n1,
    }
}

#[verifier::rlimit(60)]
#[verifier::spinoff_prover]
fn cond_of(n: SchemaNode, r: &JsonValue, root: &JsonValue, fuel: u64) -> (s: SchemaNode)
    ensures
        s@ == cond(n@, r@, root@, fuel as nat),
    decreases fuel, 0nat,
{
    if fuel == 0 {
        return n;
    }
    let f = fuel - 1;
    let mut n = n;
    match get_field(r, "if") {
        Some(x) => {
            n.if_schema = Some(Box::new(raw_node_of(resolve_ref_of(x, root), root, f)));
        },
        None => {},
    }
    match get_field(r, "then") {
        Some(x) => {
            n.then_schema = Some(Box::new(raw_node_of(resolve_ref_of(x, root), root, f)));
        },
        None => {},
    }
    match get_field(r, "else") {
        Some(x) => {
            n.else_schema = Some(Box::new(raw_node_of(resolve_ref_of(x, root), root, f)));
        },
        None => {},
    }
    n
}

#[verifier::rlimit(60)]
#[verifier::spinoff_prover]
fn obj_ext_of(n: SchemaNode, r: &JsonValue, root: &JsonValue, fuel: u64) -> (s: SchemaNode)
    ensures
        s@ == obj_ext(n@, r@, root@, fuel as nat),
    decreases fuel, 0nat,
{
    if fuel == 0 {
        return n;
    }
    let f = fuel - 1;
    let n = additional_ext_of(n, r, root, f);
    let mut n = n;
    match get_bool(r, "unevaluatedProperties") {
        Some(false) => {
            n.allow_unevaluated_properties = false;
        },
        _ => {},
    }
    match get_field(r, "dependentRequired") {
        Some(JsonValue::Object(m)) => {
            let acc = n.dependent_required;
            n.dependent_required = dep_required_of(m, acc);
        },
        _ => {},
    }
    match get_field(r, "dependentSchemas") {
        Some(JsonValue::Object(m)) => {
            let acc = n.dependent_schemas;
            n.dependent_schemas = dep_schemas_of(m, acc, root, f);
        },
        _ => {},
    }
    match get_field(r, "properties") {
        Some(JsonValue::Object(rp)) => {
            let ps = n.properties;
            n.properties = ext_props_of(ps, rp, root, f);
        },
        _ => {},
    }
    n
}

#[verifier::spinoff_prover]
fn additional_ext_of(n: SchemaNode, r: &JsonValue, root: &JsonValue, f: u64) -> (s: SchemaNode)
    ensures
        s@ == (match jget(r@, "additionalProperties"@) {
            Some(JsonSpec::Bool(false)) => SchemaView {
                allow_additional_properties: false,
                additional_properties: None,
                ..n@
            },
            Some(JsonSpec::Bool(true)) => SchemaView {
                allow_additional_properties: true,
                additional_properties: None,
                ..n@
            },
            Some(o) => SchemaView {
                allow_additional_properties: true,
                additional_properties: Some(Box::new(raw_node(resolve_ref(o, root@), root@, f as nat))),
                ..n@
            },
            None => n@,
        }),
    decreases f, 1nat,
{
    let mut n = n;
    match get_field(r, "additionalProperties") {
        Some(JsonValue::Bool(b)) => {
            n.allow_additional_properties = *b;
            n.additional_properties = None;
        },
        Some(o) => {
            let o2 = resolve_ref_of(o, root);
            n.allow_additional_properties = true;
            n.additional_properties = Some(Box::new(raw_node_of(o2, root, f)));
        },
        None => {},
    }
    n
}

#[verifier::spinoff_prover]
fn dep_required_of(es: &Vec<(String, JsonValue)>, acc: Vec<(String, Vec<String>)>) -> (out: Vec<(String, Vec<String>)>)
    ensures
        dependencies_view(out@) == dep_required(view_entries(es@), dependencies_view(acc@)),
{
    proof {
        lemma_view_entries(es@);
    }
    let mut out = acc;
    let mut i: usize = 0;
    while i < es.len()
        invariant
            i <= es.len(),
            view_entries(es@).len() == es@.len(),
            forall|j: int| 0 <= j < es@.len() ==> #[trigger] view_entries(es@)[j] == (es@[j].0@, view_json(es@[j].1)),
            dependencies_view(out@) == dep_required(view_entries(es@).subrange(0, i as int), dependencies_view(acc@)),
        decreases es.len() - i,
    {
        proof {
            assert(view_entries(es@).subrange(0, i + 1).drop_last() =~= view_entries(es@).subrange(0, i as int));
        }
        let ds: Vec<String> = match &es[i].1 {
            JsonValue::Array(a) => strings_in(a),
            _ => Vec::new(),
        };
        proof {
            assert(names_view(Seq::<String>::empty()) =~= Seq::<Seq<char>>::empty());
        }
        if ds.len() > 0 {
            let ghost before = out@;
            let key = es[i].0.clone();
            proof {
                lemma_dependencies_insert(before, key, ds);
            }
            entries_insert(&mut out, key, ds);
        }
        i += 1;
    }
    proof {
        assert(view_entries(es@).subrange(0, es@.len() as int) =~= view_entries(es@));
    }
    out
}

#[verifier::spinoff_prover]
fn dep_schemas_of(es: &Vec<(String, JsonValue)>, acc: Vec<(String, SchemaNode)>, root: &JsonValue, fuel: u64) -> (out: Vec<(String, SchemaNode)>)
    ensures
        props_view(out@) == dep_schemas(view_entries(es@), props_view(acc@), root@, fuel as nat),
    decreases fuel, es@.len() + 1,
{
    proof {
        lemma_view_entries(es@);
    }
    let mut out = acc;
    let mut i: usize = 0;
    while i < es.len()
        invariant
            i <= es.len(),
            view_entries(es@).len() == es@.len(),
            forall|j: int| 0 <= j < es@.len() ==> #[trigger] view_entries(es@)[j] == (es@[j].0@, view_json(es@[j].1)),
            props_view(out@) == dep_schemas(view_entries(es@).subrange(0, i as int), props_view(acc@), root@, fuel as nat),
        decreases es.len() - i,
    {
        proof {
            assert(view_entries(es@).subrange(0, i + 1).drop_last() =~= view_entries(es@).subrange(0, i as int));
        }
        let d = resolve_ref_of(&es[i].1, root);
        let node = ext_of(raw_node_of(d, root, fuel), d, root, fuel);
        let ghost before = out@;
        let key = es[i].0.clone();
        proof {
            lemma_props_insert(before, key, node);
        }
        entries_insert(&mut out, key, node);
        i += 1;
    }
    proof {
        assert(view_entries(es@).subrange(0, es@.len() as int) =~= view_entries(es@));
    }
    out
}

#[verifier::spinoff_prover]
fn ext_props_of(ps: Vec<(String, SchemaNode)>, rp: &Vec<(String, JsonValue)>, root: &JsonValue, fuel: u64) -> (out: Vec<(String, SchemaNode)>)
    ensures
        props_view(out@) == ext_props(props_view(ps@), view_entries(rp@), root@, fuel as nat),
    decreases fuel, ps@.len() + 1,
{
    proof {
        lemma_props_view(ps@);
    }
    let ghost all = ps@;
    let mut rest = ps;
    let mut out: Vec<(String, SchemaNode)> = Vec::new();
    let mut i: usize = 0;
    let n = rest.len();
    while i < n
        invariant
            i <= n == all.len(),
            rest@ == all.subrange(i as int, n as int),
            props_view(all).len() == all.len(),
            forall|j: int| 0 <= j < all.len() ==> #[trigger] props_view(all)[j] == (all[j].0@, schema_view(all[j].1)),
            props_view(out@) == ext_props(props_view(all).subrange(0, i as int), view_entries(rp@), root@, fuel as nat),
        decreases n - i,
    {
        proof {
            assert(props_view(all).subrange(0, i + 1).drop_last() =~= props_view(all).subrange(0, i as int));
            assert(rest@[0] == all[i as int]);
        }
        let e = rest.remove(0);
        let (name, child) = e;
        let k = chars_of(name.as_str());
        proof {
            lemma_entry_get(rp@, name@);
            crate::json::lemma_entry_index(rp@, name@);
        }
        let ghost before = out@;
        match crate::json::find_entry(rp, &k) {
            Some(j) => {
                let c2 = ext_of(child, &rp[j].1, root, fuel);
                let item = (name, c2);
                out.push(item);
                proof {
                    crate::schema_view::lemma_props_view_push(before, item);
                }
            },
            None => {
                let item = (name, child);
                out.push(item);
                proof {
                    crate::schema_view::lemma_props_view_push(before, item);
                }
            },
        }
        proof {
            assert(rest@ =~= all.subrange(i + 1, n as int));
        }
        i += 1;
    }
    proof {
        assert(props_view(all).subrange(0, n as int) =~= props_view(all));
    }
    out
}

#[verifier::spinoff_prover]
fn arr_ext_of(n: SchemaNode, r: &JsonValue, root: &JsonValue, fuel: u64) -> (s: SchemaNode)
    ensures
        s@ == arr_ext(n@, r@, root@, fuel as nat),
    decreases fuel, 0nat,
{
    if fuel == 0 {
        return n;
    }
    let f = fuel - 1;
    let mut n = n;
    match get_field(r, "prefixItems") {
        Some(JsonValue::Array(a)) => {
            n.prefix_items = prefix_of(a, root, f);
        },
        _ => {},
    }
    arr_rest_of(n, r, root, f)
}

#[verifier::spinoff_prover]
fn arr_rest_of(n: SchemaNode, r: &JsonValue, root: &JsonValue, f: u64) -> (s: SchemaNode)
    ensures
        s@ == arr_rest(n@, r@, root@, f as nat),
    decreases f, 2nat,
{
    let mut n = n;
    match get_bool(r, "unevaluatedItems") {
        Some(false) => {
            n.allow_unevaluated_items = false;
        },
        _ => {},
    }
    let n = contains_ext_of(n, r, root, f);
    let mut n = n;
    n.min_contains = get_usize(r, "minContains");
    n.max_contains = get_usize(r, "maxContains");
    items_ext_of(n, r, root, f)
}

#[verifier::spinoff_prover]
fn contains_ext_of(n: SchemaNode, r: &JsonValue, root: &JsonValue, f: u64) -> (s: SchemaNode)
    ensures
        s@ == contains_part(n@, r@, root@, f as nat),
    decreases f, 1nat,
{
    let mut n = n;
    match get_field(r, "contains") {
        Some(c) => {
            let c2 = resolve_ref_of(c, root);
            let x = raw_node_of(c2, root, f);
            n.contains = Some(Box::new(ext_of(x, c2, root, f)));
        },
        None => {},
    }
    n
}

#[verifier::spinoff_prover]
fn items_ext_of(n: SchemaNode, r: &JsonValue, root: &JsonValue, f: u64) -> (s: SchemaNode)
    ensures
        s@ == items_part(n@, r@, root@, f as nat),
    decreases f, 1nat,
{
    let mut n = n;
    match get_field(r, "items") {
        Some(i) => {
            let i2 = resolve_ref_of(i, root);
            match i2 {
                JsonValue::Bool(_) => {
                    n.items = Some(Box::new(raw_node_of(i2, root, f)));
                },
                _ => {
                    let items = n.items;
                    n.items = match items {
                        Some(it) => Some(Box::new(ext_of(*it, i2, root, f))),
                        None => None,
                    };
                },
            }
        },
        None => {},
    }
    n
}

#[verifier::spinoff_prover]
fn prefix_of(a: &Vec<JsonValue>, root: &JsonValue, fuel: u64) -> (out: Vec<SchemaNode>)
    ensures
        list_view(out@) == prefix(view_items(a@), root@, fuel as nat),
    decreases fuel, a@.len() + 1,
{
    proof {
        lemma_view_items(a@);
    }
    let mut out: Vec<SchemaNode> = Vec::new();
    let mut i: usize = 0;
    while i < a.len()
        invariant
            i <= a.len(),
            view_items(a@).len() == a@.len(),
            forall|j: int| 0 <= j < a@.len() ==> #[trigger] view_items(a@)[j] == view_json(a@[j]),
            list_view(out@) == prefix(view_items(a@).subrange(0, i as int), root@, fuel as nat),
        decreases a.len() - i,
    {
        proof {
            assert(view_items(a@).subrange(0, i + 1).drop_last() =~= view_items(a@).subrange(0, i as int));
        }
        let x = resolve_ref_of(&a[i], root);
        let node = ext_of(raw_node_of(x, root, fuel), x, root, fuel);
        let ghost before = out@;
        out.push(node);
        proof {
            lemma_list_view_push(before, node);
        }
        i += 1;
    }
    proof {
        assert(view_items(a@).subrange(0, a@.len() as int) =~= view_items(a@));
    }
    out
}

} // verus!
