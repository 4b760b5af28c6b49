//! The compact JSON-Schema-like description of a canonical schema that is
//! shown to the model, and the parameter and response hints built on it.
//! Hint objects are key-ordered maps: their entries are listed here in key
//! order, and maps keyed by names from the schema are built by ordered
//! insertion, where a later entry replaces an earlier one with the same key.
use vstd::prelude::*;
use crate::canonical::{CanonicalParameter, CanonicalResponse, SchemaNode};
use crate::json::{
    JsonNumber, JsonSpec, JsonValue, NumberSpec, json_clone, lemma_view_entries, lemma_view_items, number_clone,
    view_entries, view_items, view_json, view_number,
};
use crate::model::{ParameterLocation, SchemaNodeType};
use crate::text::{chars_lt, chars_of, seq_lt};
use crate::assoc::{insert_pos, map_insert, entries_insert};

verus! {

/// Where `k` goes in key-ordered spec entries.
pub open spec fn jinsert_pos(m: Seq<(Seq<char>, JsonSpec)>, k: Seq<char>) -> int
    decreases m.len(),
{
    if m.len() == 0 {
        0
    } else if seq_lt(m[0].0, k) {
        1 + jinsert_pos(m.subrange(1, m.len() as int), k)
    } else {
        0
    }
}

/// Key-ordered spec entries after inserting `k`: an entry with that key is
/// replaced in place, else the new one goes where the order puts it.
pub open spec fn jinsert(m: Seq<(Seq<char>, JsonSpec)>, k: Seq<char>, v: JsonSpec) -> Seq<(Seq<char>, JsonSpec)> {
    let p = jinsert_pos(m, k);
    if p < m.len() && m[p].0 == k {
        m.update(p, (k, v))
    } else {
        m.insert(p, (k, v))
    }
}

proof fn lemma_insert_pos_view(m: Seq<(String, JsonValue)>, key: Seq<char>)
    ensures
        insert_pos(m, key) == jinsert_pos(view_entries(m), key),
    decreases m.len(),
{
    if m.len() > 0 {
        let t = m.subrange(1, m.len() as int);
        lemma_insert_pos_view(t, key);
        assert(view_entries(m).subrange(1, view_entries(m).len() as int) =~= view_entries(t));
        lemma_view_entries(m);
    }
}

proof fn lemma_view_map_insert(m: Seq<(String, JsonValue)>, key: String, v: JsonValue)
    ensures
        view_entries(map_insert(m, key, v)) == jinsert(view_entries(m), key@, view_json(v)),
{
    lemma_insert_pos_view(m, key@);
    lemma_view_entries(m);
    let r = map_insert(m, key, v);
    lemma_view_entries(r);
    let p = insert_pos(m, key@);
    assert(0 <= p <= m.len()) by {
        lemma_insert_pos_bound(m, key@);
    }
    assert(view_entries(r) =~= jinsert(view_entries(m), key@, view_json(v)));
}

proof fn lemma_insert_pos_bound(m: Seq<(String, JsonValue)>, key: Seq<char>)
    ensures
        0 <= insert_pos(m, key) <= m.len(),
    decreases m.len(),
{
    if m.len() > 0 {
        lemma_insert_pos_bound(m.subrange(1, m.len() as int), key);
    }
}

/// Inserts into a key-ordered JSON object as a JSON map does.
pub(crate) fn object_insert(m: &mut Vec<(String, JsonValue)>, key: String, v: JsonValue)
    ensures
        view_entries(final(m)@) == jinsert(view_entries(old(m)@), key@, view_json(v)),
{
    proof {
        lemma_view_map_insert(old(m)@, key, v);
    }
    entries_insert(m, key, v);
}

fn push_entry(out: &mut Vec<(String, JsonValue)>, key: &str, v: JsonValue)
    ensures
        view_entries(final(out)@) == view_entries(old(out)@) + seq![(key@, view_json(v))],
{
    let ghost before = out@;
    out.push((key.to_string(), v));
    proof {
        lemma_view_entries(before);
        lemma_view_entries(out@);
        assert(view_entries(out@) =~= view_entries(before) + seq![(key@, view_json(v))]);
    }
}

/// One entry when the value is there, none otherwise.
pub open spec fn entry_opt(k: Seq<char>, o: Option<JsonSpec>) -> Seq<(Seq<char>, JsonSpec)> {
    match o {
        Some(v) => seq![(k, v)],
        None => Seq::empty(),
    }
}

/// One entry when `c` holds.
pub open spec fn entry_when(c: bool, k: Seq<char>, v: JsonSpec) -> Seq<(Seq<char>, JsonSpec)> {
    if c {
        seq![(k, v)]
    } else {
        Seq::empty()
    }
}

pub open spec fn count_hint(o: Option<usize>) -> Option<JsonSpec> {
    match o {
        Some(n) => Some(JsonSpec::Number(NumberSpec::PosInt(n as u64))),
        None => None,
    }
}

pub open spec fn number_hint(o: Option<JsonNumber>) -> Option<JsonSpec> {
    match o {
        Some(n) => Some(JsonSpec::Number(view_number(n))),
        None => None,
    }
}

pub open spec fn text_hint(o: Option<String>) -> Option<JsonSpec> {
    match o {
        Some(t) => Some(JsonSpec::String(t@)),
        None => None,
    }
}

pub open spec fn json_hint(o: Option<JsonValue>) -> Option<JsonSpec> {
    match o {
        Some(v) => Some(view_json(v)),
        None => None,
    }
}

/// `exclusiveMaximum`, `exclusiveMinimum`, `format` and `if`.
pub open spec fn flag_entries(s: SchemaNode, if_hint: Option<JsonSpec>) -> Seq<(Seq<char>, JsonSpec)> {
    entry_when(s.exclusive_maximum, "exclusiveMaximum"@, JsonSpec::Bool(true)) + entry_when(
        s.exclusive_minimum,
        "exclusiveMinimum"@,
        JsonSpec::Bool(true),
    ) + entry_opt("format"@, text_hint(s.format)) + entry_opt("if"@, if_hint)
}

/// The upper bounds, `maxContains` to `maximum`.
pub open spec fn upper_entries(s: SchemaNode) -> Seq<(Seq<char>, JsonSpec)> {
    entry_opt("maxContains"@, count_hint(s.max_contains)) + entry_opt("maxItems"@, count_hint(s.max_items))
        + entry_opt("maxLength"@, count_hint(s.max_length)) + entry_opt(
        "maxProperties"@,
        count_hint(s.max_properties),
    ) + entry_opt("maximum"@, number_hint(s.maximum))
}

/// The lower bounds and the step, `minContains` to `multipleOf`.
pub open spec fn lower_entries(s: SchemaNode) -> Seq<(Seq<char>, JsonSpec)> {
    entry_opt("minContains"@, count_hint(s.min_contains)) + entry_opt("minItems"@, count_hint(s.min_items))
        + entry_opt("minLength"@, count_hint(s.min_length)) + entry_opt(
        "minProperties"@,
        count_hint(s.min_properties),
    ) + entry_opt("minimum"@, number_hint(s.minimum)) + entry_opt("multipleOf"@, number_hint(s.multiple_of))
}

/// The size and value bounds, `maxContains` to `multipleOf`.
pub open spec fn bound_entries(s: SchemaNode) -> Seq<(Seq<char>, JsonSpec)> {
    upper_entries(s) + lower_entries(s)
}

/// The hints of the nested schemas that every kind of hint may carry.
pub struct NestedHints {
    pub contains: Option<JsonSpec>,
    pub if_hint: Option<JsonSpec>,
    pub then_hint: Option<JsonSpec>,
    pub else_hint: Option<JsonSpec>,
}

/// The entries of an object schema's hint, in key order.
pub open spec fn object_entries(
    s: SchemaNode,
    n: NestedHints,
    additional: Option<JsonSpec>,
    props: Seq<(Seq<char>, JsonSpec)>,
    dependent: Seq<(Seq<char>, JsonSpec)>,
) -> Seq<(Seq<char>, JsonSpec)> {
    let addl = if !s.allow_additional_properties {
        Some(JsonSpec::Bool(false))
    } else {
        additional
    };
    let names = required_names(s.properties@);
    entry_opt("additionalProperties"@, addl) + entry_opt("contains"@, n.contains) + entry_when(
        s.dependent_required@.len() > 0,
        "dependentRequired"@,
        JsonSpec::Object(dependent_required_entries(s.dependent_required@)),
    ) + entry_when(s.dependent_schemas@.len() > 0, "dependentSchemas"@, JsonSpec::Object(dependent))
        + entry_opt("else"@, n.else_hint) + entry_opt("example"@, json_hint(s.example)) + flag_entries(s, n.if_hint)
        + bound_entries(s) + entry_opt("pattern"@, text_hint(s.pattern)) + seq![
        ("properties"@, JsonSpec::Object(props)),
    ] + entry_when(names.len() > 0, "required"@, JsonSpec::Array(names)) + entry_opt("then"@, n.then_hint) + seq![
        ("type"@, JsonSpec::String("object"@)),
    ] + entry_when(!s.allow_unevaluated_properties, "unevaluatedProperties"@, JsonSpec::Bool(false))
        + entry_when(s.unique_items, "uniqueItems"@, JsonSpec::Bool(true))
}

/// The entries of an array schema's hint, in key order.
pub open spec fn array_entries(
    s: SchemaNode,
    n: NestedHints,
    items: JsonSpec,
    prefix: Seq<JsonSpec>,
) -> Seq<(Seq<char>, JsonSpec)> {
    entry_opt("contains"@, n.contains) + entry_opt("else"@, n.else_hint) + flag_entries(s, n.if_hint) + seq![
        ("items"@, items),
    ] + bound_entries(s) + entry_opt("pattern"@, text_hint(s.pattern)) + entry_when(
        prefix.len() > 0,
        "prefixItems"@,
        JsonSpec::Array(prefix),
    ) + entry_opt("then"@, n.then_hint) + seq![("type"@, JsonSpec::String("array"@))] + entry_when(
        !s.allow_unevaluated_items,
        "unevaluatedItems"@,
        JsonSpec::Bool(false),
    ) + entry_when(s.unique_items, "uniqueItems"@, JsonSpec::Bool(true))
}

/// The type name a scalar schema's hint gives.
pub open spec fn scalar_type_name(t: SchemaNodeType) -> Seq<char> {
    match t {
        SchemaNodeType::String => "string"@,
        SchemaNodeType::Integer => "integer"@,
        SchemaNodeType::Number => "number"@,
        SchemaNodeType::Boolean => "boolean"@,
        SchemaNodeType::Null => "null"@,
        _ => "any"@,
    }
}

/// The entries of any other schema's hint, in key order.
pub open spec fn scalar_entries(s: SchemaNode, n: NestedHints) -> Seq<(Seq<char>, JsonSpec)> {
    entry_opt("contains"@, n.contains) + entry_opt("else"@, n.else_hint) + entry_when(
        s.enum_values@.len() > 0,
        "enum"@,
        JsonSpec::Array(view_items(s.enum_values@)),
    ) + entry_opt("example"@, json_hint(s.example)) + flag_entries(s, n.if_hint) + bound_entries(s) + entry_when(
        s.nullable,
        "nullable"@,
        JsonSpec::Bool(true),
    ) + entry_opt("pattern"@, text_hint(s.pattern)) + entry_opt("then"@, n.then_hint) + seq![
        ("type"@, JsonSpec::String(scalar_type_name(s.node_type))),
    ] + entry_when(s.unique_items, "uniqueItems"@, JsonSpec::Bool(true))
}

/// The names of the required properties, in property order.
pub open spec fn required_names(ps: Seq<(String, SchemaNode)>) -> Seq<JsonSpec>
    decreases ps.len(),
{
    if ps.len() == 0 {
        Seq::empty()
    } else {
        let rest = required_names(ps.drop_last());
        if ps.last().1.required {
            rest.push(JsonSpec::String(ps.last().0@))
        } else {
            rest
        }
    }
}

/// Each dependency name mapped to the list of the names it requires.
pub open spec fn dependent_required_entries(ds: Seq<(String, Vec<String>)>) -> Seq<(Seq<char>, JsonSpec)>
    decreases ds.len(),
{
    if ds.len() == 0 {
        Seq::empty()
    } else {
        jinsert(
            dependent_required_entries(ds.drop_last()),
            ds.last().0@,
            JsonSpec::Array(ds.last().1@.map_values(|n: String| JsonSpec::String(n@))),
        )
    }
}

/// The hint of a schema.
pub open spec fn hint_of(s: SchemaNode) -> JsonSpec
    decreases s, 1int,
{
    match s.bool_schema {
        Some(b) => JsonSpec::Bool(b),
        None => {
            let n = NestedHints {
                contains: hint_opt(s.contains),
                if_hint: hint_opt(s.if_schema),
                then_hint: hint_opt(s.then_schema),
                else_hint: hint_opt(s.else_schema),
            };
            match s.node_type {
                SchemaNodeType::Object => JsonSpec::Object(
                    object_entries(
                        s,
                        n,
                        hint_opt(s.additional_properties),
                        hint_map(s.properties@),
                        hint_map(s.dependent_schemas@),
                    ),
                ),
                SchemaNodeType::Array => JsonSpec::Object(
                    array_entries(
                        s,
                        n,
                        match hint_opt(s.items) {
                            Some(h) => h,
                            None => JsonSpec::Object(Seq::empty()),
                        },
                        hint_list(s.prefix_items@),
                    ),
                ),
                _ => JsonSpec::Object(scalar_entries(s, n)),
            }
        },
    }
}

pub open spec fn hint_opt(o: Option<Box<SchemaNode>>) -> Option<JsonSpec>
    decreases o, 0int,
{
    match o {
        Some(b) => Some(hint_of(*b)),
        None => None,
    }
}

/// Named schemas mapped to their hints, by ordered insertion.
pub open spec fn hint_map(ps: Seq<(String, SchemaNode)>) -> Seq<(Seq<char>, JsonSpec)>
    decreases ps, 0int,
{
    if ps.len() == 0 {
        Seq::empty()
    } else {
        jinsert(hint_map(ps.drop_last()), ps.last().0@, hint_of(ps.last().1))
    }
}

pub open spec fn hint_list(xs: Seq<SchemaNode>) -> Seq<JsonSpec>
    decreases xs, 0int,
{
    if xs.len() == 0 {
        Seq::empty()
    } else {
        hint_list(xs.drop_last()).push(hint_of(xs.last()))
    }
}

fn hint_opt_of(o: &Option<Box<SchemaNode>>) -> (r: Option<JsonValue>)
    ensures
        json_hint(r) == hint_opt(*o),
    decreases *o, 0int,
{
    match o {
        Some(b) => {
            proof {
                assert(decreases_to!(*o => o->0));
            }
            Some(schema_hint(b))
        },
        None => None,
    }
}

fn hint_map_of(ps: &Vec<(String, SchemaNode)>) -> (r: Vec<(String, JsonValue)>)
    ensures
        view_entries(r@) == hint_map(ps@),
    decreases ps@, 0int,
{
    let mut out: Vec<(String, JsonValue)> = Vec::new();
    let mut i: usize = 0;
    proof {
        assert(view_entries(out@) =~= Seq::<(Seq<char>, JsonSpec)>::empty());
        assert(ps@.subrange(0, 0) =~= Seq::<(String, SchemaNode)>::empty());
    }
    while i < ps.len()
        invariant
            i <= ps@.len(),
            view_entries(out@) == hint_map(ps@.subrange(0, i as int)),
        decreases ps.len() - i,
    {
        proof {
            assert(decreases_to!(ps@ => ps@[i as int]));
            assert(decreases_to!(ps@[i as int] => ps@[i as int].1));
        }
        let h = schema_hint(&ps[i].1);
        object_insert(&mut out, ps[i].0.clone(), h);
        proof {
            assert(ps@.subrange(0, i + 1).drop_last() =~= ps@.subrange(0, i as int));
        }
        i += 1;
    }
    proof {
        assert(ps@.subrange(0, ps@.len() as int) =~= ps@);
    }
    out
}

fn hint_list_of(xs: &Vec<SchemaNode>) -> (r: Vec<JsonValue>)
    ensures
        view_items(r@) == hint_list(xs@),
    decreases xs@, 0int,
{
    let mut out: Vec<JsonValue> = Vec::new();
    let mut i: usize = 0;
    proof {
        lemma_view_items(out@);
        assert(view_items(out@) =~= hint_list(xs@.subrange(0, 0)));
    }
    while i < xs.len()
        invariant
            i <= xs@.len(),
            view_items(out@) == hint_list(xs@.subrange(0, i as int)),
        decreases xs.len() - i,
    {
        proof {
            assert(decreases_to!(xs@ => xs@[i as int]));
        }
        let h = schema_hint(&xs[i]);
        let ghost before = out@;
        out.push(h);
        proof {
            assert(xs@.subrange(0, i + 1).drop_last() =~= xs@.subrange(0, i as int));
            lemma_view_items(before);
            lemma_view_items(out@);
            assert(view_items(out@) =~= view_items(before).push(view_json(h)));
        }
        i += 1;
    }
    proof {
        assert(xs@.subrange(0, xs@.len() as int) =~= xs@);
    }
    out
}

fn required_names_of(ps: &Vec<(String, SchemaNode)>) -> (r: Vec<JsonValue>)
    ensures
        view_items(r@) == required_names(ps@),
{
    let mut out: Vec<JsonValue> = Vec::new();
    let mut i: usize = 0;
    proof {
        lemma_view_items(out@);
        assert(view_items(out@) =~= required_names(ps@.subrange(0, 0)));
    }
    while i < ps.len()
        invariant
            i <= ps@.len(),
            view_items(out@) == required_names(ps@.subrange(0, i as int)),
        decreases ps.len() - i,
    {
        proof {
            assert(ps@.subrange(0, i + 1).drop_last() =~= ps@.subrange(0, i as int));
        }
        if ps[i].1.required {
            let ghost before = out@;
            let v = JsonValue::String(ps[i].0.clone());
            out.push(v);
            proof {
                lemma_view_items(before);
                lemma_view_items(out@);
                assert(view_items(out@) =~= view_items(before).push(view_json(v)));
            }
        }
        i += 1;
    }
    proof {
        assert(ps@.subrange(0, ps@.len() as int) =~= ps@);
    }
    out
}

fn string_list(names: &Vec<String>) -> (r: Vec<JsonValue>)
    ensures
        view_items(r@) == names@.map_values(|n: String| JsonSpec::String(n@)),
{
    let mut out: Vec<JsonValue> = Vec::new();
    let mut i: usize = 0;
    while i < names.len()
        invariant
            i <= names@.len(),
            out@.len() == i,
            forall|k: int| 0 <= k < i ==> view_json(#[trigger] out@[k]) == JsonSpec::String(names@[k]@),
        decreases names.len() - i,
    {
        out.push(JsonValue::String(names[i].clone()));
        i += 1;
    }
    proof {
        lemma_view_items(out@);
        assert(view_items(out@) =~= names@.map_values(|n: String| JsonSpec::String(n@)));
    }
    out
}

fn dependent_required_of(ds: &Vec<(String, Vec<String>)>) -> (r: Vec<(String, JsonValue)>)
    ensures
        view_entries(r@) == dependent_required_entries(ds@),
{
    let mut out: Vec<(String, JsonValue)> = Vec::new();
    let mut i: usize = 0;
    proof {
        assert(view_entries(out@) =~= Seq::<(Seq<char>, JsonSpec)>::empty());
        assert(ds@.subrange(0, 0) =~= Seq::<(String, Vec<String>)>::empty());
    }
    while i < ds.len()
        invariant
            i <= ds@.len(),
            view_entries(out@) == dependent_required_entries(ds@.subrange(0, i as int)),
        decreases ds.len() - i,
    {
        let list = JsonValue::Array(string_list(&ds[i].1));
        object_insert(&mut out, ds[i].0.clone(), list);
        proof {
            assert(ds@.subrange(0, i + 1).drop_last() =~= ds@.subrange(0, i as int));
        }
        i += 1;
    }
    proof {
        assert(ds@.subrange(0, ds@.len() as int) =~= ds@);
    }
    out
}

fn push_opt(out: &mut Vec<(String, JsonValue)>, key: &str, v: Option<JsonValue>)
    ensures
        view_entries(final(out)@) == view_entries(old(out)@) + entry_opt(key@, json_hint(v)),
{
    match v {
        Some(x) => push_entry(out, key, x),
        None => {
            assert(view_entries(out@) =~= view_entries(out@) + entry_opt(key@, json_hint(v)));
        },
    }
}

fn push_when(out: &mut Vec<(String, JsonValue)>, c: bool, key: &str, v: JsonValue)
    ensures
        view_entries(final(out)@) == view_entries(old(out)@) + entry_when(c, key@, view_json(v)),
{
    if c {
        push_entry(out, key, v);
    } else {
        assert(view_entries(out@) =~= view_entries(out@) + entry_when(c, key@, view_json(v)));
    }
}

fn count_value(o: Option<usize>) -> (r: Option<JsonValue>)
    ensures
        json_hint(r) == count_hint(o),
{
    match o {
        Some(n) => Some(JsonValue::Number(JsonNumber::PosInt(n as u64))),
        None => None,
    }
}

fn number_value(o: &Option<JsonNumber>) -> (r: Option<JsonValue>)
    ensures
        json_hint(r) == number_hint(*o),
{
    match o {
        Some(n) => Some(JsonValue::Number(number_clone(n))),
        None => None,
    }
}

fn text_value(o: &Option<String>) -> (r: Option<JsonValue>)
    ensures
        json_hint(r) == text_hint(*o),
{
    match o {
        Some(t) => Some(JsonValue::String(t.clone())),
        None => None,
    }
}

fn json_value(o: &Option<JsonValue>) -> (r: Option<JsonValue>)
    ensures
        json_hint(r) == json_hint(*o),
{
    match o {
        Some(v) => Some(json_clone(v)),
        None => None,
    }
}

fn push_flags(out: &mut Vec<(String, JsonValue)>, s: &SchemaNode, if_hint: Option<JsonValue>)
    ensures
        view_entries(final(out)@) == view_entries(old(out)@) + flag_entries(*s, json_hint(if_hint)),
{
    let ghost start = view_entries(out@);
    push_when(out, s.exclusive_maximum, "exclusiveMaximum", JsonValue::Bool(true));
    push_when(out, s.exclusive_minimum, "exclusiveMinimum", JsonValue::Bool(true));
    push_opt(out, "format", text_value(&s.format));
    push_opt(out, "if", if_hint);
    assert(view_entries(out@) =~= start + flag_entries(*s, json_hint(if_hint)));
}

fn push_upper(out: &mut Vec<(String, JsonValue)>, s: &SchemaNode)
    ensures
        view_entries(final(out)@) == view_entries(old(out)@) + upper_entries(*s),
{
    let ghost start = view_entries(out@);
    push_opt(out, "maxContains", count_value(s.max_contains));
    push_opt(out, "maxItems", count_value(s.max_items));
    push_opt(out, "maxLength", count_value(s.max_length));
    push_opt(out, "maxProperties", count_value(s.max_properties));
    push_opt(out, "maximum", number_value(&s.maximum));
    assert(view_entries(out@) =~= start + upper_entries(*s));
}

fn push_bounds(out: &mut Vec<(String, JsonValue)>, s: &SchemaNode)
    ensures
        view_entries(final(out)@) == view_entries(old(out)@) + bound_entries(*s),
{
    let ghost start = view_entries(out@);
    push_upper(out, s);
    let ghost mid = view_entries(out@);
    push_opt(out, "minContains", count_value(s.min_contains));
    push_opt(out, "minItems", count_value(s.min_items));
    push_opt(out, "minLength", count_value(s.min_length));
    push_opt(out, "minProperties", count_value(s.min_properties));
    push_opt(out, "minimum", number_value(&s.minimum));
    push_opt(out, "multipleOf", number_value(&s.multiple_of));
    assert(view_entries(out@) =~= mid + lower_entries(*s));
    assert(view_entries(out@) =~= start + bound_entries(*s));
}

fn object_hint(
    schema: &SchemaNode,
    contains: Option<JsonValue>,
    if_hint: Option<JsonValue>,
    then_hint: Option<JsonValue>,
    else_hint: Option<JsonValue>,
) -> (r: Vec<(String, JsonValue)>)
    ensures
        view_entries(r@) == object_entries(
            *schema,
            NestedHints {
                contains: json_hint(contains),
                if_hint: json_hint(if_hint),
                then_hint: json_hint(then_hint),
                else_hint: json_hint(else_hint),
            },
            hint_opt(schema.additional_properties),
            hint_map(schema.properties@),
            hint_map(schema.dependent_schemas@),
        ),
    decreases *schema, 1int,
{
    proof {
        assert(decreases_to!(*schema => schema.properties));
        assert(decreases_to!(schema.properties => schema.properties@));
        assert(decreases_to!(*schema => schema.dependent_schemas));
        assert(decreases_to!(schema.dependent_schemas => schema.dependent_schemas@));
    }
    let ghost n = NestedHints {
        contains: json_hint(contains),
        if_hint: json_hint(if_hint),
        then_hint: json_hint(then_hint),
        else_hint: json_hint(else_hint),
    };
    let mut out: Vec<(String, JsonValue)> = Vec::new();
    proof {
        assert(view_entries(out@) =~= Seq::<(Seq<char>, JsonSpec)>::empty());
    }
    let additional = if !schema.allow_additional_properties {
        Some(JsonValue::Bool(false))
    } else {
        hint_opt_of(&schema.additional_properties)
    };
    let props = hint_map_of(&schema.properties);
    let dependent = hint_map_of(&schema.dependent_schemas);
    let names = required_names_of(&schema.properties);
    push_opt(&mut out, "additionalProperties", additional);
    push_opt(&mut out, "contains", contains);
    let dr = dependent_required_of(&schema.dependent_required);
    push_when(&mut out, schema.dependent_required.len() > 0, "dependentRequired", JsonValue::Object(dr));
    push_when(&mut out, schema.dependent_schemas.len() > 0, "dependentSchemas", JsonValue::Object(dependent));
    push_opt(&mut out, "else", else_hint);
    push_opt(&mut out, "example", json_value(&schema.example));
    push_flags(&mut out, schema, if_hint);
    push_bounds(&mut out, schema);
    push_opt(&mut out, "pattern", text_value(&schema.pattern));
    push_entry(&mut out, "properties", JsonValue::Object(props));
    proof {
        lemma_view_items(names@);
    }
    let has_names = names.len() > 0;
    push_when(&mut out, has_names, "required", JsonValue::Array(names));
    push_opt(&mut out, "then", then_hint);
    push_entry(&mut out, "type", JsonValue::String("object".to_string()));
    push_when(&mut out, !schema.allow_unevaluated_properties, "unevaluatedProperties", JsonValue::Bool(false));
    push_when(&mut out, schema.unique_items, "uniqueItems", JsonValue::Bool(true));
    proof {
        assert(view_entries(out@) =~= object_entries(
            *schema,
            n,
            hint_opt(schema.additional_properties),
            hint_map(schema.properties@),
            hint_map(schema.dependent_schemas@),
        ));
    }
    out
}

fn array_hint(
    schema: &SchemaNode,
    contains: Option<JsonValue>,
    if_hint: Option<JsonValue>,
    then_hint: Option<JsonValue>,
    else_hint: Option<JsonValue>,
) -> (r: Vec<(String, JsonValue)>)
    ensures
        view_entries(r@) == array_entries(
            *schema,
            NestedHints {
                contains: json_hint(contains),
                if_hint: json_hint(if_hint),
                then_hint: json_hint(then_hint),
                else_hint: json_hint(else_hint),
            },
            match hint_opt(schema.items) {
                Some(h) => h,
                None => JsonSpec::Object(Seq::empty()),
            },
            hint_list(schema.prefix_items@),
        ),
    decreases *schema, 1int,
{
    proof {
        assert(decreases_to!(*schema => schema.prefix_items));
        assert(decreases_to!(schema.prefix_items => schema.prefix_items@));
    }
    let ghost n = NestedHints {
        contains: json_hint(contains),
        if_hint: json_hint(if_hint),
        then_hint: json_hint(then_hint),
        else_hint: json_hint(else_hint),
    };
    let mut out: Vec<(String, JsonValue)> = Vec::new();
    proof {
        assert(view_entries(out@) =~= Seq::<(Seq<char>, JsonSpec)>::empty());
    }
    let items = match hint_opt_of(&schema.items) {
        Some(h) => h,
        None => JsonValue::Object(Vec::new()),
    };
    proof {
        assert(view_entries(Seq::<(String, JsonValue)>::empty()) =~= Seq::<(Seq<char>, JsonSpec)>::empty());
    }
    let prefix = hint_list_of(&schema.prefix_items);
    proof {
        lemma_view_items(prefix@);
    }
    push_opt(&mut out, "contains", contains);
    push_opt(&mut out, "else", else_hint);
    push_flags(&mut out, schema, if_hint);
    push_entry(&mut out, "items", items);
    push_bounds(&mut out, schema);
    push_opt(&mut out, "pattern", text_value(&schema.pattern));
    let has_prefix = prefix.len() > 0;
    push_when(&mut out, has_prefix, "prefixItems", JsonValue::Array(prefix));
    push_opt(&mut out, "then", then_hint);
    push_entry(&mut out, "type", JsonValue::String("array".to_string()));
    push_when(&mut out, !schema.allow_unevaluated_items, "unevaluatedItems", JsonValue::Bool(false));
    push_when(&mut out, schema.unique_items, "uniqueItems", JsonValue::Bool(true));
    proof {
        assert(view_entries(out@) =~= array_entries(
            *schema,
            n,
            match hint_opt(schema.items) {
                Some(h) => h,
                None => JsonSpec::Object(Seq::empty()),
            },
            hint_list(schema.prefix_items@),
        ));
    }
    out
}

fn scalar_hint(
    schema: &SchemaNode,
    contains: Option<JsonValue>,
    if_hint: Option<JsonValue>,
    then_hint: Option<JsonValue>,
    else_hint: Option<JsonValue>,
) -> (r: Vec<(String, JsonValue)>)
    ensures
        view_entries(r@) == scalar_entries(
            *schema,
            NestedHints {
                contains: json_hint(contains),
                if_hint: json_hint(if_hint),
                then_hint: json_hint(then_hint),
                else_hint: json_hint(else_hint),
            },
        ),
{
    let ghost n = NestedHints {
        contains: json_hint(contains),
        if_hint: json_hint(if_hint),
        then_hint: json_hint(then_hint),
        else_hint: json_hint(else_hint),
    };
    let mut out: Vec<(String, JsonValue)> = Vec::new();
    proof {
        assert(view_entries(out@) =~= Seq::<(Seq<char>, JsonSpec)>::empty());
    }
    let name = match schema.node_type {
        SchemaNodeType::String => "string",
        SchemaNodeType::Integer => "integer",
        SchemaNodeType::Number => "number",
        SchemaNodeType::Boolean => "boolean",
        SchemaNodeType::Null => "null",
        _ => "any",
    };
    push_opt(&mut out, "contains", contains);
    push_opt(&mut out, "else", else_hint);
    let mut enum_values: Vec<JsonValue> = Vec::new();
    let mut i: usize = 0;
    while i < schema.enum_values.len()
        invariant
            i <= schema.enum_values@.len(),
            enum_values@.len() == i,
            forall|k: int| 0 <= k < i ==> view_json(#[trigger] enum_values@[k]) == view_json(schema.enum_values@[k]),
        decreases schema.enum_values.len() - i,
    {
        enum_values.push(json_clone(&schema.enum_values[i]));
        i += 1;
    }
    proof {
        lemma_view_items(enum_values@);
        lemma_view_items(schema.enum_values@);
        assert(view_items(enum_values@) =~= view_items(schema.enum_values@));
    }
    push_when(&mut out, schema.enum_values.len() > 0, "enum", JsonValue::Array(enum_values));
    push_opt(&mut out, "example", json_value(&schema.example));
    push_flags(&mut out, schema, if_hint);
    push_bounds(&mut out, schema);
    push_when(&mut out, schema.nullable, "nullable", JsonValue::Bool(true));
    push_opt(&mut out, "pattern", text_value(&schema.pattern));
    push_opt(&mut out, "then", then_hint);
    push_entry(&mut out, "type", JsonValue::String(name.to_string()));
    push_when(&mut out, schema.unique_items, "uniqueItems", JsonValue::Bool(true));
    proof {
        assert(view_entries(out@) =~= scalar_entries(*schema, n));
    }
    out
}

/// Describes a schema as a compact JSON-Schema-like value for the model.
pub fn schema_hint(schema: &SchemaNode) -> (r: JsonValue)
    ensures
        view_json(r) == hint_of(*schema),
    decreases *schema, 2int,
{
    if let Some(b) = schema.bool_schema {
        return JsonValue::Bool(b);
    }
    let contains = hint_opt_of(&schema.contains);
    let if_hint = hint_opt_of(&schema.if_schema);
    let then_hint = hint_opt_of(&schema.then_schema);
    let else_hint = hint_opt_of(&schema.else_schema);
    let entries = match schema.node_type {
        SchemaNodeType::Object => object_hint(schema, contains, if_hint, then_hint, else_hint),
        SchemaNodeType::Array => array_hint(schema, contains, if_hint, then_hint, else_hint),
        _ => scalar_hint(schema, contains, if_hint, then_hint, else_hint),
    };
    JsonValue::Object(entries)
}

/// The lower-case name of a parameter's location.
pub open spec fn location_name(l: ParameterLocation) -> Seq<char> {
    match l {
        ParameterLocation::Path => "path"@,
        ParameterLocation::Query => "query"@,
        ParameterLocation::Header => "header"@,
        ParameterLocation::Cookie => "cookie"@,
    }
}

pub open spec fn text_or_null(o: Option<String>) -> JsonSpec {
    match o {
        Some(t) => JsonSpec::String(t@),
        None => JsonSpec::Null,
    }
}

/// A parameter's hint: its description, location, name, whether it is
/// required and its schema's hint.
pub open spec fn parameter_hint(p: CanonicalParameter) -> JsonSpec {
    JsonSpec::Object(
        seq![
            ("description"@, text_or_null(p.description)),
            ("in"@, JsonSpec::String(location_name(p.location))),
            ("name"@, JsonSpec::String(p.name@)),
            ("required"@, JsonSpec::Bool(p.required)),
            ("schema"@, hint_of(p.schema)),
        ],
    )
}

/// A response's hint: content type, description, schema hint and status.
pub open spec fn response_hint(r: CanonicalResponse) -> JsonSpec {
    JsonSpec::Object(
        seq![
            ("content_type"@, JsonSpec::String(r.content_type@)),
            ("description"@, text_or_null(r.description)),
            ("schema"@, match r.schema {
                Some(s) => hint_of(s),
                None => JsonSpec::Null,
            }),
            ("status_code"@, JsonSpec::String(r.status_code@)),
        ],
    )
}

fn text_or_null_of(o: &Option<String>) -> (r: JsonValue)
    ensures
        view_json(r) == text_or_null(*o),
{
    match o {
        Some(t) => JsonValue::String(t.clone()),
        None => JsonValue::Null,
    }
}

/// The hints of the parameters, in order.
pub fn parameter_hints(params: &Vec<CanonicalParameter>) -> (r: Vec<JsonValue>)
    ensures
        r@.len() == params@.len(),
        forall|i: int| 0 <= i < params@.len() ==> view_json(#[trigger] r@[i]) == parameter_hint(params@[i]),
{
    let mut out: Vec<JsonValue> = Vec::new();
    let mut i: usize = 0;
    while i < params.len()
        invariant
            i <= params@.len(),
            out@.len() == i,
            forall|k: int| 0 <= k < i ==> view_json(#[trigger] out@[k]) == parameter_hint(params@[k]),
        decreases params.len() - i,
    {
        let p = &params[i];
        let location = match p.location {
            ParameterLocation::Path => "path",
            ParameterLocation::Query => "query",
            ParameterLocation::Header => "header",
            ParameterLocation::Cookie => "cookie",
        };
        let mut entries: Vec<(String, JsonValue)> = Vec::new();
        proof {
            assert(view_entries(entries@) =~= Seq::<(Seq<char>, JsonSpec)>::empty());
        }
        push_entry(&mut entries, "description", text_or_null_of(&p.description));
        push_entry(&mut entries, "in", JsonValue::String(location.to_string()));
        push_entry(&mut entries, "name", JsonValue::String(p.name.clone()));
        push_entry(&mut entries, "required", JsonValue::Bool(p.required));
        push_entry(&mut entries, "schema", schema_hint(&p.schema));
        assert(view_entries(entries@) =~= seq![
            ("description"@, text_or_null(p.description)),
            ("in"@, JsonSpec::String(location_name(p.location))),
            ("name"@, JsonSpec::String(p.name@)),
            ("required"@, JsonSpec::Bool(p.required)),
            ("schema"@, hint_of(p.schema)),
        ]);
        let v = JsonValue::Object(entries);
        assert(view_json(v) == parameter_hint(params@[i as int]));
        out.push(v);
        i += 1;
    }
    out
}

/// The hints of the responses, in order.
pub fn response_hints(responses: &Vec<CanonicalResponse>) -> (r: Vec<JsonValue>)
    ensures
        r@.len() == responses@.len(),
        forall|i: int| 0 <= i < responses@.len() ==> view_json(#[trigger] r@[i]) == response_hint(responses@[i]),
{
    let mut out: Vec<JsonValue> = Vec::new();
    let mut i: usize = 0;
    while i < responses.len()
        invariant
            i <= responses@.len(),
            out@.len() == i,
            forall|k: int| 0 <= k < i ==> view_json(#[trigger] out@[k]) == response_hint(responses@[k]),
        decreases responses.len() - i,
    {
        let r = &responses[i];
        let mut entries: Vec<(String, JsonValue)> = Vec::new();
        proof {
            assert(view_entries(entries@) =~= Seq::<(Seq<char>, JsonSpec)>::empty());
        }
        push_entry(&mut entries, "content_type", JsonValue::String(r.content_type.clone()));
        push_entry(&mut entries, "description", text_or_null_of(&r.description));
        let schema = match &r.schema {
            Some(s) => schema_hint(s),
            None => JsonValue::Null,
        };
        push_entry(&mut entries, "schema", schema);
        push_entry(&mut entries, "status_code", JsonValue::String(r.status_code.clone()));
        assert(view_entries(entries@) =~= seq![
            ("content_type"@, JsonSpec::String(r.content_type@)),
            ("description"@, text_or_null(r.description)),
            ("schema"@, match r.schema {
                Some(s) => hint_of(s),
                None => JsonSpec::Null,
            }),
            ("status_code"@, JsonSpec::String(r.status_code@)),
        ]);
        let v = JsonValue::Object(entries);
        assert(view_json(v) == response_hint(responses@[i as int]));
        out.push(v);
        i += 1;
    }
    out
}

} // verus!
