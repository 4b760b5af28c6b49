//! The mathematical view of a schema node: the same fields with texts as
//! character sequences, JSON values as their spec form and nested schemas
//! as views in turn.
use vstd::prelude::*;
use crate::canonical::{SchemaNode, text_view, same_schema, same_opt, same_props, same_list, same_json_list, same_json_opt, same_number_opt};
use crate::json::{JsonNumber, JsonSpec, JsonValue, NumberSpec, view_json, view_items, view_number, lemma_view_items};
use crate::model::SchemaNodeType;

verus! {

pub struct SchemaView {
    pub node_type: SchemaNodeType,
    pub description: Option<Seq<char>>,
    pub required: bool,
    pub nullable: bool,
    pub properties: Seq<(Seq<char>, SchemaView)>,
    pub items: Option<Box<SchemaView>>,
    pub prefix_items: Seq<SchemaView>,
    pub enum_values: Seq<JsonSpec>,
    pub example: Option<JsonSpec>,
    pub format: Option<Seq<char>>,
    pub pattern: Option<Seq<char>>,
    pub min_length: Option<usize>,
    pub max_length: Option<usize>,
    pub minimum: Option<NumberSpec>,
    pub maximum: Option<NumberSpec>,
    pub exclusive_minimum: bool,
    pub exclusive_maximum: bool,
    pub min_items: Option<usize>,
    pub max_items: Option<usize>,
    pub contains: Option<Box<SchemaView>>,
    pub min_contains: Option<usize>,
    pub max_contains: Option<usize>,
    pub min_properties: Option<usize>,
    pub max_properties: Option<usize>,
    pub dependent_required: Seq<(Seq<char>, Seq<Seq<char>>)>,
    pub dependent_schemas: Seq<(Seq<char>, SchemaView)>,
    pub if_schema: Option<Box<SchemaView>>,
    pub then_schema: Option<Box<SchemaView>>,
    pub else_schema: Option<Box<SchemaView>>,
    pub unique_items: bool,
    pub multiple_of: Option<NumberSpec>,
    pub additional_properties: Option<Box<SchemaView>>,
    pub allow_additional_properties: bool,
    pub allow_unevaluated_properties: bool,
    pub allow_unevaluated_items: bool,
    pub bool_schema: Option<bool>,
}

pub open spec fn json_opt_view(o: Option<JsonValue>) -> Option<JsonSpec> {
    match o {
        Some(v) => Some(view_json(v)),
        None => None,
    }
}

pub open spec fn number_opt_view(o: Option<JsonNumber>) -> Option<NumberSpec> {
    match o {
        Some(n) => Some(view_number(n)),
        None => None,
    }
}

pub open spec fn names_view(v: Seq<String>) -> Seq<Seq<char>> {
    v.map_values(|s: String| s@)
}

pub open spec fn dependencies_view(d: Seq<(String, Vec<String>)>) -> Seq<(Seq<char>, Seq<Seq<char>>)> {
    d.map_values(|p: (String, Vec<String>)| (p.0@, names_view(p.1@)))
}

pub open spec fn schema_view(s: SchemaNode) -> SchemaView
    decreases s, 2int,
{
    SchemaView {
        node_type: s.node_type,
        description: text_view(s.description),
        required: s.required,
        nullable: s.nullable,
        properties: props_view(s.properties@),
        items: opt_view(s.items),
        prefix_items: list_view(s.prefix_items@),
        enum_values: view_items(s.enum_values@),
        example: json_opt_view(s.example),
        format: text_view(s.format),
        pattern: text_view(s.pattern),
        min_length: s.min_length,
        max_length: s.max_length,
        minimum: number_opt_view(s.minimum),
        maximum: number_opt_view(s.maximum),
        exclusive_minimum: s.exclusive_minimum,
        exclusive_maximum: s.exclusive_maximum,
        min_items: s.min_items,
        max_items: s.max_items,
        contains: opt_view(s.contains),
        min_contains: s.min_contains,
        max_contains: s.max_contains,
        min_properties: s.min_properties,
        max_properties: s.max_properties,
        dependent_required: dependencies_view(s.dependent_required@),
        dependent_schemas: props_view(s.dependent_schemas@),
        if_schema: opt_view(s.if_schema),
        then_schema: opt_view(s.then_schema),
        else_schema: opt_view(s.else_schema),
        unique_items: s.unique_items,
        multiple_of: number_opt_view(s.multiple_of),
        additional_properties: opt_view(s.additional_properties),
        allow_additional_properties: s.allow_additional_properties,
        allow_unevaluated_properties: s.allow_unevaluated_properties,
        allow_unevaluated_items: s.allow_unevaluated_items,
        bool_schema: s.bool_schema,
    }
}

pub open spec fn opt_view(o: Option<Box<SchemaNode>>) -> Option<Box<SchemaView>>
    decreases o, 1int,
{
    match o {
        Some(b) => Some(Box::new(schema_view(*b))),
        None => None,
    }
}

pub open spec fn props_view(s: Seq<(String, SchemaNode)>) -> Seq<(Seq<char>, SchemaView)>
    decreases s, 1int,
{
    if s.len() == 0 {
        Seq::empty()
    } else {
        seq![(s[0].0@, schema_view(s[0].1))] + props_view(s.subrange(1, s.len() as int))
    }
}

pub open spec fn list_view(s: Seq<SchemaNode>) -> Seq<SchemaView>
    decreases s, 1int,
{
    if s.len() == 0 {
        Seq::empty()
    } else {
        seq![schema_view(s[0])] + list_view(s.subrange(1, s.len() as int))
    }
}

impl View for SchemaNode {
    type V = SchemaView;

    open spec fn view(&self) -> SchemaView {
        schema_view(*self)
    }
}

pub proof fn lemma_props_view(s: Seq<(String, SchemaNode)>)
    ensures
        props_view(s).len() == s.len(),
        forall|i: int|
            0 <= i < s.len() ==> #[trigger] props_view(s)[i] == (s[i].0@, schema_view(s[i].1)),
    decreases s.len(),
{
    if s.len() > 0 {
        let t = s.subrange(1, s.len() as int);
        lemma_props_view(t);
        assert forall|i: int| 0 <= i < s.len() implies #[trigger] props_view(s)[i] == (
            s[i].0@,
            schema_view(s[i].1),
        ) by {
            if i > 0 {
                assert(props_view(s)[i] == props_view(t)[i - 1]);
                assert(t[i - 1] == s[i]);
            }
        }
    }
}

pub proof fn lemma_list_view(s: Seq<SchemaNode>)
    ensures
        list_view(s).len() == s.len(),
        forall|i: int| 0 <= i < s.len() ==> #[trigger] list_view(s)[i] == schema_view(s[i]),
    decreases s.len(),
{
    if s.len() > 0 {
        let t = s.subrange(1, s.len() as int);
        lemma_list_view(t);
        assert forall|i: int| 0 <= i < s.len() implies #[trigger] list_view(s)[i] == schema_view(
            s[i],
        ) by {
            if i > 0 {
                assert(list_view(s)[i] == list_view(t)[i - 1]);
                assert(t[i - 1] == s[i]);
            }
        }
    }
}

/// Pushing an entry pushes its view.
pub proof fn lemma_props_view_push(s: Seq<(String, SchemaNode)>, e: (String, SchemaNode))
    ensures
        props_view(s.push(e)) == props_view(s).push((e.0@, schema_view(e.1))),
{
    lemma_props_view(s);
    lemma_props_view(s.push(e));
    assert(props_view(s.push(e)) =~= props_view(s).push((e.0@, schema_view(e.1))));
}

pub proof fn lemma_list_view_push(s: Seq<SchemaNode>, e: SchemaNode)
    ensures
        list_view(s.push(e)) == list_view(s).push(schema_view(e)),
{
    lemma_list_view(s);
    lemma_list_view(s.push(e));
    assert(list_view(s.push(e)) =~= list_view(s).push(schema_view(e)));
}

pub proof fn lemma_items_view_push(s: Seq<JsonValue>, e: JsonValue)
    ensures
        view_items(s.push(e)) == view_items(s).push(view_json(e)),
{
    lemma_view_items(s);
    lemma_view_items(s.push(e));
    assert(view_items(s.push(e)) =~= view_items(s).push(view_json(e)));
}

/// A copy in the sense of `same_schema` has the same view.
pub proof fn lemma_same_schema_view(a: SchemaNode, b: SchemaNode)
    requires
        same_schema(a, b),
    ensures
        schema_view(a) == schema_view(b),
    decreases a, 2int,
{
    lemma_same_opt_view(a.items, b.items);
    lemma_same_opt_view(a.contains, b.contains);
    lemma_same_opt_view(a.if_schema, b.if_schema);
    lemma_same_opt_view(a.then_schema, b.then_schema);
    lemma_same_opt_view(a.else_schema, b.else_schema);
    lemma_same_opt_view(a.additional_properties, b.additional_properties);
    assert(decreases_to!(a => a.properties));
    assert(decreases_to!(a => a.dependent_schemas));
    assert(decreases_to!(a => a.prefix_items));
    lemma_same_props_view(a.properties@, b.properties@);
    lemma_same_props_view(a.dependent_schemas@, b.dependent_schemas@);
    lemma_same_list_view(a.prefix_items@, b.prefix_items@);
    lemma_view_items(a.enum_values@);
    lemma_view_items(b.enum_values@);
    assert(view_items(a.enum_values@) =~= view_items(b.enum_values@));
    assert(dependencies_view(a.dependent_required@) =~= dependencies_view(b.dependent_required@)) by {
        assert forall|i: int| 0 <= i < a.dependent_required@.len() implies
            #[trigger] dependencies_view(a.dependent_required@)[i] == dependencies_view(b.dependent_required@)[i] by {
            assert(names_view(a.dependent_required@[i].1@) =~= names_view(b.dependent_required@[i].1@));
        }
    }
}

pub proof fn lemma_same_opt_view(a: Option<Box<SchemaNode>>, b: Option<Box<SchemaNode>>)
    requires
        same_opt(a, b),
    ensures
        opt_view(a) == opt_view(b),
    decreases a, 1int,
{
    match (a, b) {
        (Some(x), Some(y)) => {
            lemma_same_schema_view(*x, *y);
        },
        _ => {},
    }
}

pub proof fn lemma_same_props_view(a: Seq<(String, SchemaNode)>, b: Seq<(String, SchemaNode)>)
    requires
        same_props(a, b),
    ensures
        props_view(a) == props_view(b),
    decreases a, 1int,
{
    if a.len() > 0 {
        let n = a.len() - 1;
        lemma_same_props_view(a.drop_last(), b.drop_last());
        lemma_same_schema_view(a.last().1, b.last().1);
        lemma_props_view_push(a.drop_last(), a.last());
        lemma_props_view_push(b.drop_last(), b.last());
        assert(a.drop_last().push(a.last()) =~= a);
        assert(b.drop_last().push(b.last()) =~= b);
    }
}

pub proof fn lemma_same_list_view(a: Seq<SchemaNode>, b: Seq<SchemaNode>)
    requires
        same_list(a, b),
    ensures
        list_view(a) == list_view(b),
    decreases a, 1int,
{
    if a.len() > 0 {
        lemma_same_list_view(a.drop_last(), b.drop_last());
        lemma_same_schema_view(a.last(), b.last());
        lemma_list_view_push(a.drop_last(), a.last());
        lemma_list_view_push(b.drop_last(), b.last());
        assert(a.drop_last().push(a.last()) =~= a);
        assert(b.drop_last().push(b.last()) =~= b);
    }
}


/// A schema of the given type with every constraint unset.
pub open spec fn blank_view(t: SchemaNodeType) -> SchemaView {
    SchemaView {
        node_type: t,
        description: None,
        required: false,
        nullable: false,
        properties: Seq::empty(),
        items: None,
        prefix_items: Seq::empty(),
        enum_values: Seq::empty(),
        example: None,
        format: None,
        pattern: None,
        min_length: None,
        max_length: None,
        minimum: None,
        maximum: None,
        exclusive_minimum: false,
        exclusive_maximum: false,
        min_items: None,
        max_items: None,
        contains: None,
        min_contains: None,
        max_contains: None,
        min_properties: None,
        max_properties: None,
        dependent_required: Seq::empty(),
        dependent_schemas: Seq::empty(),
        if_schema: None,
        then_schema: None,
        else_schema: None,
        unique_items: false,
        multiple_of: None,
        additional_properties: None,
        allow_additional_properties: true,
        allow_unevaluated_properties: true,
        allow_unevaluated_items: true,
        bool_schema: None,
    }
}

pub proof fn lemma_blank_view(t: SchemaNodeType, s: SchemaNode)
    requires
        crate::canonical::blank_schema(t, s),
        s.items is None,
    ensures
        schema_view(s) == blank_view(t),
{
    assert(props_view(s.properties@) =~= Seq::<(Seq<char>, SchemaView)>::empty());
    assert(props_view(s.dependent_schemas@) =~= Seq::<(Seq<char>, SchemaView)>::empty());
    assert(list_view(s.prefix_items@) =~= Seq::<SchemaView>::empty());
    assert(view_items(s.enum_values@) =~= Seq::<JsonSpec>::empty());
    assert(dependencies_view(s.dependent_required@) =~= Seq::<(Seq<char>, Seq<Seq<char>>)>::empty());
}

pub open spec fn node_view_fn() -> spec_fn(SchemaNode) -> SchemaView {
    |n: SchemaNode| schema_view(n)
}

pub open spec fn names_view_fn() -> spec_fn(Vec<String>) -> Seq<Seq<char>> {
    |v: Vec<String>| names_view(v@)
}

pub proof fn lemma_props_keyed(m: Seq<(String, SchemaNode)>)
    ensures
        props_view(m) == crate::assoc::keyed_view(m, node_view_fn()),
{
    lemma_props_view(m);
    assert(props_view(m) =~= crate::assoc::keyed_view(m, node_view_fn()));
}

pub proof fn lemma_dependencies_keyed(m: Seq<(String, Vec<String>)>)
    ensures
        dependencies_view(m) == crate::assoc::keyed_view(m, names_view_fn()),
{
    assert(dependencies_view(m) =~= crate::assoc::keyed_view(m, names_view_fn()));
}

/// Inserting a schema into key-ordered entries, seen through views.
pub proof fn lemma_props_insert(m: Seq<(String, SchemaNode)>, key: String, n: SchemaNode)
    ensures
        props_view(crate::assoc::map_insert(m, key, n)) == crate::assoc::vinsert(props_view(m), key@, schema_view(n)),
{
    lemma_props_keyed(m);
    lemma_props_keyed(crate::assoc::map_insert(m, key, n));
    crate::assoc::lemma_map_insert_view(m, key, n, node_view_fn());
}

pub proof fn lemma_dependencies_insert(m: Seq<(String, Vec<String>)>, key: String, v: Vec<String>)
    ensures
        dependencies_view(crate::assoc::map_insert(m, key, v)) == crate::assoc::vinsert(dependencies_view(m), key@, names_view(v@)),
{
    lemma_dependencies_keyed(m);
    lemma_dependencies_keyed(crate::assoc::map_insert(m, key, v));
    crate::assoc::lemma_map_insert_view(m, key, v, names_view_fn());
}

} // verus!
