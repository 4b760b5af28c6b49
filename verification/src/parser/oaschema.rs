//! Schemas of an OpenAPI document as the `openapiv3` crate types them:
//! the crate says which kind of schema a JSON value is, and this module
//! reads that kind's keywords into a schema node.
//!
//! Every step into a nested schema spends one unit of `fuel`; a schema
//! reached with no fuel left is an unconstrained node of unknown type.
use vstd::prelude::*;
use openapiv3::{SchemaKind, Type};
use crate::assoc::{vinsert, entries_insert, find_key_str, key_index};
use crate::canonical::SchemaNode;
use crate::json::{JsonNumber, JsonSpec, JsonValue, NumberSpec, view_json, view_entries, view_items, view_number, lemma_view_entries, lemma_view_items, json_clone};
use crate::model::SchemaNodeType;
use crate::parser::oajson::{entry_get, jget, jstr, jbool, jnum, jusize, jarr, jobj, get_field, get_str, get_bool, get_number, get_usize};
use crate::parser::oaraw::{has_string, strings_of, blank_node, has_string_of, is_text};
use crate::schema_view::{SchemaView, blank_view, schema_view, props_view, list_view, number_opt_view, lemma_props_insert, lemma_list_view_push, lemma_props_view, lemma_list_view};
use crate::text::chars_of;

verus! {

/// The kind of schema a JSON value deserializes to as `openapiv3::Schema`.
#[derive(Debug, Clone, Copy, PartialEq, Eq, Structural)]
pub enum SchemaVariant {
    Invalid,
    String,
    Number,
    Integer,
    Boolean,
    Object,
    Array,
    OneOf,
    AllOf,
    AnyOf,
    Not,
    Any,
}

/// What `serde_json::from_value::<openapiv3::Schema>` makes of a value:
/// which `SchemaKind` (and which `Type`) it is, or that it is refused.
pub uninterp spec fn openapi_schema_variant(v: JsonSpec) -> SchemaVariant;

/// A number as `serde_json::Number::from_f64(n.as_f64())` gives it back.
pub uninterp spec fn float_form(n: NumberSpec) -> Option<NumberSpec>;

/// Carries a JSON value over into a `serde_json::Value`, one variant for
/// another; a float's text is read back as a number (a text that does not
/// read becomes `null`).
#[verifier::external_body]
pub(crate) fn to_serde(v: &JsonValue) -> serde_json::Value {
    match v {
        JsonValue::Null => serde_json::Value::Null,
        JsonValue::Bool(b) => serde_json::Value::Bool(*b),
        JsonValue::Number(n) => to_serde_number(n).map(serde_json::Value::Number).unwrap_or(serde_json::Value::Null),
        JsonValue::String(s) => serde_json::Value::String(s.clone()),
        JsonValue::Array(a) => serde_json::Value::Array(a.iter().map(to_serde).collect()),
        JsonValue::Object(m) => serde_json::Value::Object(m.iter().map(|(k, x)| (k.clone(), to_serde(x))).collect()),
    }
}

/// Carries a JSON number over into a `serde_json::Number`.
#[verifier::external_body]
fn to_serde_number(n: &JsonNumber) -> Option<serde_json::Number> {
    match n {
        JsonNumber::PosInt(u) => Some(serde_json::Number::from(*u)),
        JsonNumber::NegInt(i) => Some(serde_json::Number::from(*i)),
        JsonNumber::Float(t) => t.parse::<serde_json::Number>().ok(),
    }
}

/// `serde_json::from_value::<openapiv3::Schema>` on the value, read back
/// as the kind of schema it gives. Claimed: the kind is a function of the
/// value.
#[verifier::external_body]
pub fn schema_variant(v: &JsonValue) -> (k: SchemaVariant)
    ensures
        k == openapi_schema_variant(v@),
{
    match serde_json::from_value::<openapiv3::Schema>(to_serde(v)) {
        Err(_) => SchemaVariant::Invalid,
        Ok(s) => kind_variant(&s.schema_kind),
    }
}

#[verifier::external_type_specification]
#[verifier::external_body]
pub struct ExSchemaKind(openapiv3::SchemaKind);

/// Tells the variants of an `openapiv3::SchemaKind` (and of its `Type`) apart.
#[verifier::external_body]
fn kind_variant(k: &SchemaKind) -> SchemaVariant {
    match k {
        SchemaKind::Type(Type::String(_)) => SchemaVariant::String,
        SchemaKind::Type(Type::Number(_)) => SchemaVariant::Number,
        SchemaKind::Type(Type::Integer(_)) => SchemaVariant::Integer,
        SchemaKind::Type(Type::Boolean(_)) => SchemaVariant::Boolean,
        SchemaKind::Type(Type::Object(_)) => SchemaVariant::Object,
        SchemaKind::Type(Type::Array(_)) => SchemaVariant::Array,
        SchemaKind::OneOf { .. } => SchemaVariant::OneOf,
        SchemaKind::AllOf { .. } => SchemaVariant::AllOf,
        SchemaKind::AnyOf { .. } => SchemaVariant::AnyOf,
        SchemaKind::Not { .. } => SchemaVariant::Not,
        SchemaKind::Any(_) => SchemaVariant::Any,
    }
}

/// `serde_json::Number::as_f64` followed by `serde_json::Number::from_f64`:
/// the number as a float. Claimed: the result is a function of the number.
#[verifier::external_body]
fn as_float(n: &JsonNumber) -> (r: Option<JsonNumber>)
    ensures
        number_opt_view(r) == float_form(view_number(*n)),
{
    to_serde_number(n).and_then(|x| x.as_f64()).and_then(serde_json::Number::from_f64).map(|x| crate::parser::curl::from_serde_number(&x))
}

// ---------------------------------------------------------------------
// Specification

/// A value standing for a reference: it has a string `$ref`.
pub open spec fn ref_text(v: JsonSpec) -> Option<Seq<char>> {
    jstr(v, "$ref"@)
}

/// The component schema a `#/components/schemas/NAME` reference names,
/// when it is there and is not itself a reference.
pub open spec fn ref_target(comps: Option<JsonSpec>, r: Seq<char>) -> Option<JsonSpec> {
    let prefix = "#/components/schemas/"@;
    if r.len() >= prefix.len() && r.subrange(0, prefix.len() as int) == prefix {
        match comps {
            Some(c) => match jobj(c, "schemas"@) {
                Some(m) => match entry_get(m, r.subrange(prefix.len() as int, r.len() as int)) {
                    Some(t) => if ref_text(t) is Some {
                        None
                    } else {
                        Some(t)
                    },
                    None => None,
                },
                None => None,
            },
            None => None,
        }
    } else {
        None
    }
}

pub open spec fn unresolved_view(r: Seq<char>) -> SchemaView {
    SchemaView {
        description: Some("Unresolved schema reference: "@ + r),
        ..blank_view(SchemaNodeType::Unknown)
    }
}

/// The members of an array that are not `null`.
pub open spec fn non_null(a: Seq<JsonSpec>) -> Seq<JsonSpec>
    decreases a.len(),
{
    if a.len() == 0 {
        Seq::empty()
    } else {
        let prev = non_null(a.drop_last());
        if a.last() == JsonSpec::Null {
            prev
        } else {
            prev.push(a.last())
        }
    }
}

/// Numbers made floats; other members are dropped.
pub open spec fn float_values(a: Seq<JsonSpec>) -> Seq<JsonSpec>
    decreases a.len(),
{
    if a.len() == 0 {
        Seq::empty()
    } else {
        let prev = float_values(a.drop_last());
        match a.last() {
            JsonSpec::Number(n) => match float_form(n) {
                Some(m) => prev.push(JsonSpec::Number(m)),
                None => prev,
            },
            _ => prev,
        }
    }
}

pub open spec fn enum_of(s: JsonSpec) -> Seq<JsonSpec> {
    match jarr(s, "enum"@) {
        Some(a) => a,
        None => Seq::empty(),
    }
}

/// Description, `nullable` and example, as a typed schema carries them.
pub open spec fn data_view(t: SchemaNodeType, s: JsonSpec) -> SchemaView {
    SchemaView {
        description: jstr(s, "description"@),
        nullable: jbool(s, "nullable"@) == Some(true),
        example: jget(s, "example"@),
        ..blank_view(t)
    }
}

pub open spec fn string_kind(s: JsonSpec) -> SchemaView {
    SchemaView {
        enum_values: non_null(enum_of(s)),
        format: jstr(s, "format"@),
        pattern: jstr(s, "pattern"@),
        min_length: jusize(s, "minLength"@),
        max_length: jusize(s, "maxLength"@),
        ..data_view(SchemaNodeType::String, s)
    }
}

pub open spec fn numeric_kind(s: JsonSpec, integer: bool) -> SchemaView {
    SchemaView {
        enum_values: if integer {
            non_null(enum_of(s))
        } else {
            float_values(non_null(enum_of(s)))
        },
        format: jstr(s, "format"@),
        minimum: jnum(s, "minimum"@),
        maximum: jnum(s, "maximum"@),
        exclusive_minimum: jbool(s, "exclusiveMinimum"@) == Some(true),
        exclusive_maximum: jbool(s, "exclusiveMaximum"@) == Some(true),
        multiple_of: jnum(s, "multipleOf"@),
        ..data_view(if integer { SchemaNodeType::Integer } else { SchemaNodeType::Number }, s)
    }
}

pub open spec fn boolean_kind(s: JsonSpec) -> SchemaView {
    SchemaView { enum_values: non_null(enum_of(s)), ..data_view(SchemaNodeType::Boolean, s) }
}

/// Description, `nullable`, example and the schema's own keywords laid
/// over what its kind gave.
pub open spec fn finish_typed(n: SchemaView, s: JsonSpec) -> SchemaView {
    SchemaView {
        description: if n.description is None {
            jstr(s, "description"@)
        } else {
            n.description
        },
        example: if n.example is None {
            jget(s, "example"@)
        } else {
            n.example
        },
        nullable: jbool(s, "nullable"@) == Some(true),
        ..n
    }
}

/// A schema or a reference to a component schema.
pub open spec fn typed_ref(v: JsonSpec, comps: Option<JsonSpec>, fuel: nat) -> SchemaView
    decreases fuel, 0nat,
{
    if fuel == 0 {
        blank_view(SchemaNodeType::Unknown)
    } else {
        let f = (fuel - 1) as nat;
        match ref_text(v) {
            Some(r) => match ref_target(comps, r) {
                Some(t) => typed_schema(t, comps, f),
                None => unresolved_view(r),
            },
            None => typed_schema(v, comps, f),
        }
    }
}

/// A schema, read by its kind.
pub open spec fn typed_schema(s: JsonSpec, comps: Option<JsonSpec>, fuel: nat) -> SchemaView
    decreases fuel, 0nat,
{
    if fuel == 0 {
        blank_view(SchemaNodeType::Unknown)
    } else {
        let f = (fuel - 1) as nat;
        finish_typed(kind_node(s, openapi_schema_variant(s), comps, f), s)
    }
}

pub open spec fn kind_node(s: JsonSpec, k: SchemaVariant, comps: Option<JsonSpec>, fuel: nat) -> SchemaView
    decreases fuel, 0nat,
{
    if fuel == 0 {
        blank_view(SchemaNodeType::Unknown)
    } else {
        let f = (fuel - 1) as nat;
        match k {
            SchemaVariant::String => string_kind(s),
            SchemaVariant::Number => numeric_kind(s, false),
            SchemaVariant::Integer => numeric_kind(s, true),
            SchemaVariant::Boolean => boolean_kind(s),
            SchemaVariant::Object => object_kind(s, comps, f),
            SchemaVariant::Array => array_kind(s, comps, f),
            SchemaVariant::OneOf => collapse_nodes(typed_list(list_of(s, "oneOf"@), comps, f)),
            SchemaVariant::AnyOf => collapse_nodes(typed_list(list_of(s, "anyOf"@), comps, f)),
            SchemaVariant::AllOf => merge_nodes(typed_list(list_of(s, "allOf"@), comps, f)),
            SchemaVariant::Not => data_view(SchemaNodeType::Unknown, s),
            SchemaVariant::Any => any_kind(s, comps, f),
            SchemaVariant::Invalid => blank_view(SchemaNodeType::Unknown),
        }
    }
}

pub open spec fn list_of(s: JsonSpec, k: Seq<char>) -> Seq<JsonSpec> {
    match jarr(s, k) {
        Some(a) => a,
        None => Seq::empty(),
    }
}

/// `additionalProperties`: `false` closes the object, `true` or nothing
/// leaves it open, a schema describes the extra members.
pub open spec fn typed_additional(n: SchemaView, s: JsonSpec, comps: Option<JsonSpec>, fuel: nat) -> SchemaView
    decreases fuel, 0nat,
{
    if fuel == 0 {
        n
    } else {
        let f = (fuel - 1) as nat;
        match jget(s, "additionalProperties"@) {
            Some(JsonSpec::Bool(false)) => SchemaView { allow_additional_properties: false, additional_properties: None, ..n },
            Some(JsonSpec::Bool(true)) => SchemaView { allow_additional_properties: true, additional_properties: None, ..n },
            Some(x) => SchemaView {
                allow_additional_properties: true,
                additional_properties: Some(Box::new(typed_ref(x, comps, f))),
                ..n
            },
            None => SchemaView { allow_additional_properties: true, additional_properties: None, ..n },
        }
    }
}

/// The `properties` of a typed object, each marked required when `req`
/// names it, in key order.
pub open spec fn typed_props(es: Seq<(Seq<char>, JsonSpec)>, req: Seq<JsonSpec>, comps: Option<JsonSpec>, fuel: nat) -> Seq<(Seq<char>, SchemaView)>
    decreases fuel, es.len() + 1,
{
    if es.len() == 0 {
        Seq::empty()
    } else {
        let prev = typed_props(es.drop_last(), req, comps, fuel);
        let e = es.last();
        let c = typed_ref(e.1, comps, fuel);
        vinsert(prev, e.0, SchemaView { required: has_string(req, e.0), ..c })
    }
}

pub open spec fn props_of(s: JsonSpec) -> Seq<(Seq<char>, JsonSpec)> {
    match jobj(s, "properties"@) {
        Some(m) => m,
        None => Seq::empty(),
    }
}

/// An object typed as such.
pub open spec fn object_kind(s: JsonSpec, comps: Option<JsonSpec>, fuel: nat) -> SchemaView
    decreases fuel, 0nat,
{
    if fuel == 0 {
        blank_view(SchemaNodeType::Unknown)
    } else {
        let f = (fuel - 1) as nat;
        let base = SchemaView {
            min_properties: jusize(s, "minProperties"@),
            max_properties: jusize(s, "maxProperties"@),
            ..data_view(SchemaNodeType::Object, s)
        };
        let b = typed_additional(base, s, comps, f);
        SchemaView { properties: typed_props(props_of(s), list_of(s, "required"@), comps, f), ..b }
    }
}

/// An array typed as such.
pub open spec fn array_kind(s: JsonSpec, comps: Option<JsonSpec>, fuel: nat) -> SchemaView
    decreases fuel, 0nat,
{
    if fuel == 0 {
        blank_view(SchemaNodeType::Unknown)
    } else {
        let f = (fuel - 1) as nat;
        SchemaView {
            items: match jget(s, "items"@) {
                Some(i) => Some(Box::new(typed_ref(i, comps, f))),
                None => None,
            },
            min_items: jusize(s, "minItems"@),
            max_items: jusize(s, "maxItems"@),
            unique_items: jbool(s, "uniqueItems"@) == Some(true),
            ..data_view(SchemaNodeType::Array, s)
        }
    }
}

/// Each schema of a list, in order.
pub open spec fn typed_list(vs: Seq<JsonSpec>, comps: Option<JsonSpec>, fuel: nat) -> Seq<SchemaView>
    decreases fuel, vs.len() + 1,
{
    if vs.len() == 0 {
        Seq::empty()
    } else {
        typed_list(vs.drop_last(), comps, fuel).push(typed_ref(vs.last(), comps, fuel))
    }
}

/// A schema of no declared kind: an object when it lists properties, an
/// array when it has items, else by its `type` text.
pub open spec fn any_kind(s: JsonSpec, comps: Option<JsonSpec>, fuel: nat) -> SchemaView
    decreases fuel, 0nat,
{
    if fuel == 0 {
        blank_view(SchemaNodeType::Unknown)
    } else {
        let f = (fuel - 1) as nat;
        let unique = jbool(s, "uniqueItems"@) == Some(true);
        if props_of(s).len() > 0 {
            let base = SchemaView {
                description: jstr(s, "description"@),
                example: jget(s, "example"@),
                min_properties: jusize(s, "minProperties"@),
                max_properties: jusize(s, "maxProperties"@),
                unique_items: unique,
                ..blank_view(SchemaNodeType::Object)
            };
            let b = typed_additional(base, s, comps, f);
            SchemaView { properties: typed_props(props_of(s), list_of(s, "required"@), comps, f), ..b }
        } else {
            match jget(s, "items"@) {
                Some(i) => SchemaView {
                    items: Some(Box::new(typed_ref(i, comps, f))),
                    description: jstr(s, "description"@),
                    example: jget(s, "example"@),
                    min_items: jusize(s, "minItems"@),
                    max_items: jusize(s, "maxItems"@),
                    unique_items: unique,
                    ..blank_view(SchemaNodeType::Array)
                },
                None => any_scalar(s),
            }
        }
    }
}

/// A schema of no declared kind and no structure, by its `type` text.
pub open spec fn any_scalar(s: JsonSpec) -> SchemaView {
    let t = jstr(s, "type"@);
    if t == Some("null"@) {
        SchemaView { nullable: true, ..data_view(SchemaNodeType::Null, s) }
    } else if t == Some("string"@) {
        SchemaView {
            enum_values: enum_of(s),
            format: jstr(s, "format"@),
            pattern: jstr(s, "pattern"@),
            min_length: jusize(s, "minLength"@),
            max_length: jusize(s, "maxLength"@),
            ..data_view(SchemaNodeType::String, s)
        }
    } else if t == Some("integer"@) || t == Some("number"@) {
        SchemaView {
            enum_values: enum_of(s),
            format: jstr(s, "format"@),
            minimum: jnum(s, "minimum"@),
            maximum: jnum(s, "maximum"@),
            exclusive_minimum: jbool(s, "exclusiveMinimum"@) == Some(true),
            exclusive_maximum: jbool(s, "exclusiveMaximum"@) == Some(true),
            multiple_of: jnum(s, "multipleOf"@),
            ..data_view(if t == Some("integer"@) { SchemaNodeType::Integer } else { SchemaNodeType::Number }, s)
        }
    } else if t == Some("boolean"@) {
        SchemaView { enum_values: enum_of(s), ..data_view(SchemaNodeType::Boolean, s) }
    } else {
        SchemaView { enum_values: enum_of(s), ..data_view(SchemaNodeType::Unknown, s) }
    }
}

/// Whether spec entries hold the key.
pub open spec fn has_key(m: Seq<(Seq<char>, SchemaView)>, k: Seq<char>) -> bool {
    exists|i: int| 0 <= i < m.len() && m[i].0 == k
}

/// The branches that are not `null`-typed.
pub open spec fn concrete(ns: Seq<SchemaView>) -> Seq<SchemaView>
    decreases ns.len(),
{
    if ns.len() == 0 {
        Seq::empty()
    } else {
        let prev = concrete(ns.drop_last());
        if ns.last().node_type == SchemaNodeType::Null {
            prev
        } else {
            prev.push(ns.last())
        }
    }
}

/// Object branches merged: the first description found, and every
/// property not yet present.
pub open spec fn merge_first(ns: Seq<SchemaView>) -> SchemaView
    decreases ns.len(),
{
    if ns.len() == 0 {
        blank_view(SchemaNodeType::Object)
    } else {
        let m = merge_first(ns.drop_last());
        let b = ns.last();
        SchemaView {
            description: if m.description is None {
                b.description
            } else {
                m.description
            },
            properties: add_absent(m.properties, b.properties),
            ..m
        }
    }
}

/// The entries of `ps` whose keys `m` lacks, added to `m`.
pub open spec fn add_absent(m: Seq<(Seq<char>, SchemaView)>, ps: Seq<(Seq<char>, SchemaView)>) -> Seq<(Seq<char>, SchemaView)>
    decreases ps.len(),
{
    if ps.len() == 0 {
        m
    } else {
        let prev = add_absent(m, ps.drop_last());
        let e = ps.last();
        if has_key(prev, e.0) {
            prev
        } else {
            vinsert(prev, e.0, e.1)
        }
    }
}

/// `oneOf` / `anyOf` folded into one node: a `null` branch makes it
/// nullable; all-object branches merge; otherwise the first other branch.
pub open spec fn collapse_nodes(ns: Seq<SchemaView>) -> SchemaView {
    let cs = concrete(ns);
    let base = if cs.len() == 0 {
        blank_view(SchemaNodeType::Unknown)
    } else if forall|i: int| 0 <= i < cs.len() ==> (#[trigger] cs[i]).node_type == SchemaNodeType::Object {
        merge_first(cs)
    } else {
        cs[0]
    };
    if cs.len() < ns.len() {
        SchemaView { nullable: true, ..base }
    } else {
        base
    }
}

/// `allOf`: the properties of the object branches, later ones winning.
pub open spec fn merge_nodes(ns: Seq<SchemaView>) -> SchemaView
    decreases ns.len(),
{
    if ns.len() == 0 {
        blank_view(SchemaNodeType::Object)
    } else {
        let m = merge_nodes(ns.drop_last());
        let b = ns.last();
        if b.node_type == SchemaNodeType::Object {
            SchemaView { properties: add_all(m.properties, b.properties), ..m }
        } else {
            m
        }
    }
}

/// Every entry of `ps` inserted into `m`, replacing entries with its key.
pub open spec fn add_all(m: Seq<(Seq<char>, SchemaView)>, ps: Seq<(Seq<char>, SchemaView)>) -> Seq<(Seq<char>, SchemaView)>
    decreases ps.len(),
{
    if ps.len() == 0 {
        m
    } else {
        let prev = add_all(m, ps.drop_last());
        vinsert(prev, ps.last().0, ps.last().1)
    }
}


// ---------------------------------------------------------------------
// Executable side

fn ref_target_of<'a>(comps: Option<&'a JsonValue>, r: &String) -> (t: Option<&'a JsonValue>)
    ensures
        crate::parser::oajson::ref_view(t) == ref_target(crate::parser::oajson::ref_view(comps), r@),
{
    let rc = chars_of(r.as_str());
    let prefix = chars_of("#/components/schemas/");
    if !crate::text::starts_with_of(&rc, &prefix) {
        return None;
    }
    let name = crate::text::string_of(&crate::text::slice(&rc, prefix.len(), rc.len()));
    match comps {
        Some(c) => match get_field(c, "schemas") {
            Some(JsonValue::Object(m)) => {
                let k = chars_of(name.as_str());
                proof {
                    crate::parser::oajson::lemma_entry_get(m@, name@);
                    crate::json::lemma_entry_index(m@, name@);
                }
                match crate::json::find_entry(m, &k) {
                    Some(i) => {
                        let t = &m[i].1;
                        if get_str(t, "$ref").is_some() {
                            None
                        } else {
                            Some(t)
                        }
                    },
                    None => None,
                }
            },
            _ => None,
        },
        None => None,
    }
}

fn unresolved_node(r: &String) -> (n: SchemaNode)
    ensures
        n@ == unresolved_view(r@),
{
    let mut n = blank_node(SchemaNodeType::Unknown);
    let mut d = chars_of("Unresolved schema reference: ");
    crate::text::append_str(&mut d, r.as_str());
    n.description = Some(crate::text::string_of(&d));
    n
}

fn non_null_of(a: &Vec<JsonValue>) -> (r: Vec<JsonValue>)
    ensures
        view_items(r@) == non_null(view_items(a@)),
{
    proof {
        lemma_view_items(a@);
    }
    let mut r: Vec<JsonValue> = Vec::new();
    let mut i: usize = 0;
    while i < a.len()
        invariant
            i <= a.len(),
            view_items(a@).len() == a@.len(),
            forall|j: int| 0 <= j < a@.len() ==> #[trigger] view_items(a@)[j] == view_json(a@[j]),
            view_items(r@) == non_null(view_items(a@).subrange(0, i as int)),
        decreases a.len() - i,
    {
        proof {
            assert(view_items(a@).subrange(0, i + 1).drop_last() =~= view_items(a@).subrange(0, i as int));
        }
        match &a[i] {
            JsonValue::Null => {},
            x => {
                let ghost before = r@;
                let c = json_clone(x);
                r.push(c);
                proof {
                    crate::schema_view::lemma_items_view_push(before, c);
                }
            },
        }
        i += 1;
    }
    proof {
        assert(view_items(a@).subrange(0, a@.len() as int) =~= view_items(a@));
    }
    r
}

fn float_values_of(a: &Vec<JsonValue>) -> (r: Vec<JsonValue>)
    ensures
        view_items(r@) == float_values(view_items(a@)),
{
    proof {
        lemma_view_items(a@);
    }
    let mut r: Vec<JsonValue> = Vec::new();
    let mut i: usize = 0;
    while i < a.len()
        invariant
            i <= a.len(),
            view_items(a@).len() == a@.len(),
            forall|j: int| 0 <= j < a@.len() ==> #[trigger] view_items(a@)[j] == view_json(a@[j]),
            view_items(r@) == float_values(view_items(a@).subrange(0, i as int)),
        decreases a.len() - i,
    {
        proof {
            assert(view_items(a@).subrange(0, i + 1).drop_last() =~= view_items(a@).subrange(0, i as int));
        }
        match &a[i] {
            JsonValue::Number(n) => match as_float(n) {
                Some(m) => {
                    let ghost before = r@;
                    let c = JsonValue::Number(m);
                    r.push(c);
                    proof {
                        crate::schema_view::lemma_items_view_push(before, c);
                    }
                },
                None => {},
            },
            _ => {},
        }
        i += 1;
    }
    proof {
        assert(view_items(a@).subrange(0, a@.len() as int) =~= view_items(a@));
    }
    r
}

fn enum_of_node(s: &JsonValue) -> (r: Vec<JsonValue>)
    ensures
        view_items(r@) == enum_of(s@),
{
    match get_field(s, "enum") {
        Some(JsonValue::Array(a)) => crate::parser::oaraw::clone_values(a),
        _ => {
            let r: Vec<JsonValue> = Vec::new();
            assert(view_items(r@) =~= Seq::<JsonSpec>::empty());
            r
        },
    }
}

fn data_node(t: SchemaNodeType, s: &JsonValue) -> (n: SchemaNode)
    ensures
        n@ == data_view(t, s@),
{
    let mut n = blank_node(t);
    n.description = get_str(s, "description");
    n.nullable = match get_bool(s, "nullable") {
        Some(b) => b,
        None => false,
    };
    n.example = match get_field(s, "example") {
        Some(x) => Some(json_clone(x)),
        None => None,
    };
    n
}

fn string_kind_node(s: &JsonValue) -> (n: SchemaNode)
    ensures
        n@ == string_kind(s@),
{
    let mut n = data_node(SchemaNodeType::String, s);
    n.enum_values = non_null_of(&enum_of_node(s));
    n.format = get_str(s, "format");
    n.pattern = get_str(s, "pattern");
    n.min_length = get_usize(s, "minLength");
    n.max_length = get_usize(s, "maxLength");
    n
}

fn numeric_kind_node(s: &JsonValue, integer: bool) -> (n: SchemaNode)
    ensures
        n@ == numeric_kind(s@, integer),
{
    let mut n = data_node(if integer { SchemaNodeType::Integer } else { SchemaNodeType::Number }, s);
    let values = non_null_of(&enum_of_node(s));
    n.enum_values = if integer {
        values
    } else {
        float_values_of(&values)
    };
    n.format = get_str(s, "format");
    n.minimum = get_number(s, "minimum");
    n.maximum = get_number(s, "maximum");
    n.exclusive_minimum = match get_bool(s, "exclusiveMinimum") {
        Some(b) => b,
        None => false,
    };
    n.exclusive_maximum = match get_bool(s, "exclusiveMaximum") {
        Some(b) => b,
        None => false,
    };
    n.multiple_of = get_number(s, "multipleOf");
    n
}

fn boolean_kind_node(s: &JsonValue) -> (n: SchemaNode)
    ensures
        n@ == boolean_kind(s@),
{
    let mut n = data_node(SchemaNodeType::Boolean, s);
    n.enum_values = non_null_of(&enum_of_node(s));
    n
}

fn finish_typed_node(n: SchemaNode, s: &JsonValue) -> (r: SchemaNode)
    ensures
        r@ == finish_typed(n@, s@),
{
    let mut n = n;
    if n.description.is_none() {
        n.description = get_str(s, "description");
    }
    if n.example.is_none() {
        n.example = match get_field(s, "example") {
            Some(x) => Some(json_clone(x)),
            None => None,
        };
    }
    n.nullable = match get_bool(s, "nullable") {
        Some(b) => b,
        None => false,
    };
    n
}

fn any_scalar_node(s: &JsonValue) -> (n: SchemaNode)
    ensures
        n@ == any_scalar(s@),
{
    let t = get_str(s, "type");
    if is_text(&t, "null") {
        let mut n = data_node(SchemaNodeType::Null, s);
        n.nullable = true;
        n
    } else if is_text(&t, "string") {
        let mut n = data_node(SchemaNodeType::String, s);
        n.enum_values = enum_of_node(s);
        n.format = get_str(s, "format");
        n.pattern = get_str(s, "pattern");
        n.min_length = get_usize(s, "minLength");
        n.max_length = get_usize(s, "maxLength");
        n
    } else if is_text(&t, "integer") || is_text(&t, "number") {
        let mut n = data_node(if is_text(&t, "integer") { SchemaNodeType::Integer } else { SchemaNodeType::Number }, s);
        n.enum_values = enum_of_node(s);
        n.format = get_str(s, "format");
        n.minimum = get_number(s, "minimum");
        n.maximum = get_number(s, "maximum");
        n.exclusive_minimum = match get_bool(s, "exclusiveMinimum") {
            Some(b) => b,
            None => false,
        };
        n.exclusive_maximum = match get_bool(s, "exclusiveMaximum") {
            Some(b) => b,
            None => false,
        };
        n.multiple_of = get_number(s, "multipleOf");
        n
    } else if is_text(&t, "boolean") {
        let mut n = data_node(SchemaNodeType::Boolean, s);
        n.enum_values = enum_of_node(s);
        n
    } else {
        let mut n = data_node(SchemaNodeType::Unknown, s);
        n.enum_values = enum_of_node(s);
        n
    }
}

fn has_key_of(m: &Vec<(String, SchemaNode)>, k: &String) -> (b: bool)
    ensures
        b == has_key(props_view(m@), k@),
{
    proof {
        lemma_props_view(m@);
        crate::assoc::lemma_key_index(m@, k@);
    }
    match find_key_str(m, k.as_str()) {
        Some(i) => {
            assert(props_view(m@)[i as int].0 == k@);
            true
        },
        None => {
            assert forall|i: int| 0 <= i < props_view(m@).len() implies props_view(m@)[i].0 != k@ by {
                assert(props_view(m@)[i].0 == m@[i].0@);
            }
            false
        },
    }
}

fn add_absent_of(m: Vec<(String, SchemaNode)>, ps: Vec<(String, SchemaNode)>) -> (r: Vec<(String, SchemaNode)>)
    ensures
        props_view(r@) == add_absent(props_view(m@), props_view(ps@)),
{
    proof {
        lemma_props_view(ps@);
    }
    let ghost all = ps@;
    let mut rest = ps;
    let mut out = m;
    let n = rest.len();
    let mut i: usize = 0;
    while i < n
        invariant
            i <= n == all.len(),
            rest@ == all.subrange(i as int, n as int),
            props_view(all).len() == all.len(),
            forall|j: int| 0 <= j < all.len() ==> #[trigger] props_view(all)[j] == (all[j].0@, schema_view(all[j].1)),
            props_view(out@) == add_absent(props_view(m@), props_view(all).subrange(0, i as int)),
        decreases n - i,
    {
        proof {
            assert(props_view(all).subrange(0, i + 1).drop_last() =~= props_view(all).subrange(0, i as int));
            assert(rest@[0] == all[i as int]);
        }
        let (key, node) = rest.remove(0);
        if !has_key_of(&out, &key) {
            let ghost before = out@;
            proof {
                lemma_props_insert(before, key, node);
            }
            entries_insert(&mut out, key, node);
        }
        proof {
            assert(rest@ =~= all.subrange(i + 1, n as int));
        }
        i += 1;
    }
    proof {
        assert(props_view(all).subrange(0, n as int) =~= props_view(all));
    }
    out
}

fn add_all_of(m: Vec<(String, SchemaNode)>, ps: Vec<(String, SchemaNode)>) -> (r: Vec<(String, SchemaNode)>)
    ensures
        props_view(r@) == add_all(props_view(m@), props_view(ps@)),
{
    proof {
        lemma_props_view(ps@);
    }
    let ghost all = ps@;
    let mut rest = ps;
    let mut out = m;
    let n = rest.len();
    let mut i: usize = 0;
    while i < n
        invariant
            i <= n == all.len(),
            rest@ == all.subrange(i as int, n as int),
            props_view(all).len() == all.len(),
            forall|j: int| 0 <= j < all.len() ==> #[trigger] props_view(all)[j] == (all[j].0@, schema_view(all[j].1)),
            props_view(out@) == add_all(props_view(m@), props_view(all).subrange(0, i as int)),
        decreases n - i,
    {
        proof {
            assert(props_view(all).subrange(0, i + 1).drop_last() =~= props_view(all).subrange(0, i as int));
            assert(rest@[0] == all[i as int]);
        }
        let (key, node) = rest.remove(0);
        let ghost before = out@;
        proof {
            lemma_props_insert(before, key, node);
        }
        entries_insert(&mut out, key, node);
        proof {
            assert(rest@ =~= all.subrange(i + 1, n as int));
        }
        i += 1;
    }
    proof {
        assert(props_view(all).subrange(0, n as int) =~= props_view(all));
    }
    out
}

fn concrete_of(ns: Vec<SchemaNode>) -> (r: Vec<SchemaNode>)
    ensures
        list_view(r@) == concrete(list_view(ns@)),
{
    proof {
        lemma_list_view(ns@);
    }
    let ghost all = ns@;
    let mut rest = ns;
    let mut out: Vec<SchemaNode> = Vec::new();
    let n = rest.len();
    let mut i: usize = 0;
    while i < n
        invariant
            i <= n == all.len(),
            rest@ == all.subrange(i as int, n as int),
            list_view(all).len() == all.len(),
            forall|j: int| 0 <= j < all.len() ==> #[trigger] list_view(all)[j] == schema_view(all[j]),
            list_view(out@) == concrete(list_view(all).subrange(0, i as int)),
        decreases n - i,
    {
        proof {
            assert(list_view(all).subrange(0, i + 1).drop_last() =~= list_view(all).subrange(0, i as int));
            assert(rest@[0] == all[i as int]);
        }
        let node = rest.remove(0);
        if node.node_type != SchemaNodeType::Null {
            let ghost before = out@;
            out.push(node);
            proof {
                lemma_list_view_push(before, node);
            }
        }
        proof {
            assert(rest@ =~= all.subrange(i + 1, n as int));
        }
        i += 1;
    }
    proof {
        assert(list_view(all).subrange(0, n as int) =~= list_view(all));
    }
    out
}

fn merge_first_of(ns: Vec<SchemaNode>) -> (r: SchemaNode)
    ensures
        r@ == merge_first(list_view(ns@)),
{
    proof {
        lemma_list_view(ns@);
    }
    let ghost all = ns@;
    let mut rest = ns;
    let mut m = blank_node(SchemaNodeType::Object);
    let n = rest.len();
    let mut i: usize = 0;
    while i < n
        invariant
            i <= n == all.len(),
            rest@ == all.subrange(i as int, n as int),
            list_view(all).len() == all.len(),
            forall|j: int| 0 <= j < all.len() ==> #[trigger] list_view(all)[j] == schema_view(all[j]),
            m@ == merge_first(list_view(all).subrange(0, i as int)),
        decreases n - i,
    {
        proof {
            assert(list_view(all).subrange(0, i + 1).drop_last() =~= list_view(all).subrange(0, i as int));
            assert(rest@[0] == all[i as int]);
        }
        let b = rest.remove(0);
        let ghost bv = b@;
        let SchemaNode { description, properties, .. } = b;
        if m.description.is_none() {
            m.description = description;
        }
        let props = m.properties;
        m.properties = add_absent_of(props, properties);
        proof {
            assert(rest@ =~= all.subrange(i + 1, n as int));
        }
        i += 1;
    }
    proof {
        assert(list_view(all).subrange(0, n as int) =~= list_view(all));
    }
    m
}

fn all_objects(ns: &Vec<SchemaNode>) -> (b: bool)
    ensures
        b == (forall|i: int| 0 <= i < list_view(ns@).len() ==> (#[trigger] list_view(ns@)[i]).node_type == SchemaNodeType::Object),
{
    proof {
        lemma_list_view(ns@);
    }
    let mut i: usize = 0;
    while i < ns.len()
        invariant
            i <= ns.len(),
            list_view(ns@).len() == ns@.len(),
            forall|j: int| 0 <= j < ns@.len() ==> #[trigger] list_view(ns@)[j] == schema_view(ns@[j]),
            forall|j: int| 0 <= j < i ==> (#[trigger] list_view(ns@)[j]).node_type == SchemaNodeType::Object,
        decreases ns.len() - i,
    {
        if ns[i].node_type != SchemaNodeType::Object {
            assert(list_view(ns@)[i as int].node_type != SchemaNodeType::Object);
            return false;
        }
        i += 1;
    }
    true
}

/// `oneOf` / `anyOf` branches folded into one node.
pub fn collapse_nodes_of(ns: Vec<SchemaNode>) -> (r: SchemaNode)
    ensures
        r@ == collapse_nodes(list_view(ns@)),
{
    proof {
        lemma_list_view(ns@);
    }
    let total = ns.len();
    let cs = concrete_of(ns);
    proof {
        lemma_list_view(cs@);
    }
    let nullable = cs.len() < total;
    let mut base = if cs.len() == 0 {
        blank_node(SchemaNodeType::Unknown)
    } else if all_objects(&cs) {
        merge_first_of(cs)
    } else {
        let mut cs = cs;
        cs.remove(0)
    };
    if nullable {
        base.nullable = true;
    }
    base
}

/// `allOf` branches merged.
pub fn merge_nodes_of(ns: Vec<SchemaNode>) -> (r: SchemaNode)
    ensures
        r@ == merge_nodes(list_view(ns@)),
{
    proof {
        lemma_list_view(ns@);
    }
    let ghost all = ns@;
    let mut rest = ns;
    let mut m = blank_node(SchemaNodeType::Object);
    let n = rest.len();
    let mut i: usize = 0;
    while i < n
        invariant
            i <= n == all.len(),
            rest@ == all.subrange(i as int, n as int),
            list_view(all).len() == all.len(),
            forall|j: int| 0 <= j < all.len() ==> #[trigger] list_view(all)[j] == schema_view(all[j]),
            m@ == merge_nodes(list_view(all).subrange(0, i as int)),
        decreases n - i,
    {
        proof {
            assert(list_view(all).subrange(0, i + 1).drop_last() =~= list_view(all).subrange(0, i as int));
            assert(rest@[0] == all[i as int]);
        }
        let b = rest.remove(0);
        if b.node_type == SchemaNodeType::Object {
            let SchemaNode { properties, .. } = b;
            let props = m.properties;
            m.properties = add_all_of(props, properties);
        }
        proof {
            assert(rest@ =~= all.subrange(i + 1, n as int));
        }
        i += 1;
    }
    proof {
        assert(list_view(all).subrange(0, n as int) =~= list_view(all));
    }
    m
}


/// A schema or a reference to a component schema of `comps`.
pub fn typed_ref_of(v: &JsonValue, comps: Option<&JsonValue>, fuel: u64) -> (n: SchemaNode)
    ensures
        n@ == typed_ref(v@, crate::parser::oajson::ref_view(comps), fuel as nat),
    decreases fuel, 0nat,
{
    if fuel == 0 {
        return blank_node(SchemaNodeType::Unknown);
    }
    let f = fuel - 1;
    match get_str(v, "$ref") {
        Some(r) => match ref_target_of(comps, &r) {
            Some(t) => typed_schema_of(t, comps, f),
            None => unresolved_node(&r),
        },
        None => typed_schema_of(v, comps, f),
    }
}

/// A schema, read by the kind `openapiv3` gives it.
pub fn typed_schema_of(s: &JsonValue, comps: Option<&JsonValue>, fuel: u64) -> (n: SchemaNode)
    ensures
        n@ == typed_schema(s@, crate::parser::oajson::ref_view(comps), fuel as nat),
    decreases fuel, 0nat,
{
    if fuel == 0 {
        return blank_node(SchemaNodeType::Unknown);
    }
    let f = fuel - 1;
    let k = schema_variant(s);
    let n = kind_node_of(s, k, comps, f);
    finish_typed_node(n, s)
}

/// The node for a schema of kind `k`.
pub fn kind_node_of(s: &JsonValue, k: SchemaVariant, comps: Option<&JsonValue>, fuel: u64) -> (n: SchemaNode)
    ensures
        n@ == kind_node(s@, k, crate::parser::oajson::ref_view(comps), fuel as nat),
    decreases fuel, 0nat,
{
    if fuel == 0 {
        return blank_node(SchemaNodeType::Unknown);
    }
    let f = fuel - 1;
    match k {
        SchemaVariant::String => string_kind_node(s),
        SchemaVariant::Number => numeric_kind_node(s, false),
        SchemaVariant::Integer => numeric_kind_node(s, true),
        SchemaVariant::Boolean => boolean_kind_node(s),
        SchemaVariant::Object => object_kind_of(s, comps, f),
        SchemaVariant::Array => array_kind_of(s, comps, f),
        SchemaVariant::OneOf => collapse_nodes_of(list_nodes_of(s, "oneOf", comps, f)),
        SchemaVariant::AnyOf => collapse_nodes_of(list_nodes_of(s, "anyOf", comps, f)),
        SchemaVariant::AllOf => merge_nodes_of(list_nodes_of(s, "allOf", comps, f)),
        SchemaVariant::Not => data_node(SchemaNodeType::Unknown, s),
        SchemaVariant::Any => any_kind_of(s, comps, f),
        SchemaVariant::Invalid => blank_node(SchemaNodeType::Unknown),
    }
}

fn list_nodes_of(s: &JsonValue, key: &str, comps: Option<&JsonValue>, fuel: u64) -> (ns: Vec<SchemaNode>)
    ensures
        list_view(ns@) == typed_list(list_of(s@, key@), crate::parser::oajson::ref_view(comps), fuel as nat),
    decreases fuel, list_of(s@, key@).len() + 2,
{
    let empty: Vec<JsonValue> = Vec::new();
    proof {
        assert(view_items(empty@) =~= Seq::<JsonSpec>::empty());
    }
    match get_field(s, key) {
        Some(JsonValue::Array(a)) => {
            proof {
                lemma_view_items(a@);
            }
            typed_list_of(a, comps, fuel)
        },
        _ => typed_list_of(&empty, comps, fuel),
    }
}

fn typed_list_of(vs: &Vec<JsonValue>, comps: Option<&JsonValue>, fuel: u64) -> (out: Vec<SchemaNode>)
    ensures
        list_view(out@) == typed_list(view_items(vs@), crate::parser::oajson::ref_view(comps), fuel as nat),
    decreases fuel, vs@.len() + 1,
{
    proof {
        lemma_view_items(vs@);
    }
    let mut out: Vec<SchemaNode> = Vec::new();
    let mut i: usize = 0;
    while i < vs.len()
        invariant
            i <= vs.len(),
            view_items(vs@).len() == vs@.len(),
            forall|j: int| 0 <= j < vs@.len() ==> #[trigger] view_items(vs@)[j] == view_json(vs@[j]),
            list_view(out@) == typed_list(view_items(vs@).subrange(0, i as int), crate::parser::oajson::ref_view(comps), fuel as nat),
        decreases vs.len() - i,
    {
        proof {
            assert(view_items(vs@).subrange(0, i + 1).drop_last() =~= view_items(vs@).subrange(0, i as int));
        }
        let node = typed_ref_of(&vs[i], comps, fuel);
        let ghost before = out@;
        out.push(node);
        proof {
            lemma_list_view_push(before, node);
        }
        i += 1;
    }
    proof {
        assert(view_items(vs@).subrange(0, vs@.len() as int) =~= view_items(vs@));
    }
    out
}

fn typed_additional_of(n: SchemaNode, s: &JsonValue, comps: Option<&JsonValue>, fuel: u64) -> (r: SchemaNode)
    ensures
        r@ == typed_additional(n@, s@, crate::parser::oajson::ref_view(comps), fuel as nat),
    decreases fuel, 0nat,
{
    if fuel == 0 {
        return n;
    }
    let f = fuel - 1;
    let mut n = n;
    match get_field(s, "additionalProperties") {
        Some(JsonValue::Bool(b)) => {
            n.allow_additional_properties = *b;
            n.additional_properties = None;
        },
        Some(x) => {
            n.allow_additional_properties = true;
            n.additional_properties = Some(Box::new(typed_ref_of(x, comps, f)));
        },
        None => {
            n.allow_additional_properties = true;
            n.additional_properties = None;
        },
    }
    n
}

fn typed_props_of(es: &Vec<(String, JsonValue)>, req: &Vec<JsonValue>, comps: Option<&JsonValue>, fuel: u64) -> (out: Vec<(String, SchemaNode)>)
    ensures
        props_view(out@) == typed_props(view_entries(es@), view_items(req@), crate::parser::oajson::ref_view(comps), fuel as nat),
    decreases fuel, es@.len() + 1,
{
    proof {
        lemma_view_entries(es@);
    }
    let mut out: Vec<(String, SchemaNode)> = Vec::new();
    let mut i: usize = 0;
    while i < es.len()
        invariant
            i <= es.len(),
            view_entries(es@).len() == es@.len(),
            forall|j: int| 0 <= j < es@.len() ==> #[trigger] view_entries(es@)[j] == (es@[j].0@, view_json(es@[j].1)),
            props_view(out@) == typed_props(view_entries(es@).subrange(0, i as int), view_items(req@), crate::parser::oajson::ref_view(comps), fuel as nat),
        decreases es.len() - i,
    {
        let mut c = typed_ref_of(&es[i].1, comps, fuel);
        c.required = has_string_of(req, &es[i].0);
        let ghost before = out@;
        let key = es[i].0.clone();
        proof {
            lemma_props_insert(before, key, c);
            assert(view_entries(es@).subrange(0, i + 1).drop_last() =~= view_entries(es@).subrange(0, i as int));
        }
        entries_insert(&mut out, key, c);
        i += 1;
    }
    proof {
        assert(view_entries(es@).subrange(0, es@.len() as int) =~= view_entries(es@));
    }
    out
}

fn props_nodes_of(s: &JsonValue, comps: Option<&JsonValue>, fuel: u64) -> (out: Vec<(String, SchemaNode)>)
    ensures
        props_view(out@) == typed_props(props_of(s@), list_of(s@, "required"@), crate::parser::oajson::ref_view(comps), fuel as nat),
    decreases fuel, props_of(s@).len() + 2,
{
    let no_props: Vec<(String, JsonValue)> = Vec::new();
    let no_req: Vec<JsonValue> = Vec::new();
    proof {
        assert(view_entries(no_props@) =~= Seq::<(Seq<char>, JsonSpec)>::empty());
        assert(view_items(no_req@) =~= Seq::<JsonSpec>::empty());
    }
    let req: &Vec<JsonValue> = match get_field(s, "required") {
        Some(JsonValue::Array(a)) => a,
        _ => &no_req,
    };
    match get_field(s, "properties") {
        Some(JsonValue::Object(m)) => {
            proof {
                lemma_view_entries(m@);
            }
            typed_props_of(m, req, comps, fuel)
        },
        _ => typed_props_of(&no_props, req, comps, fuel),
    }
}

fn props_count(s: &JsonValue) -> (n: usize)
    ensures
        n == props_of(s@).len(),
{
    match get_field(s, "properties") {
        Some(JsonValue::Object(m)) => {
            proof {
                lemma_view_entries(m@);
            }
            m.len()
        },
        _ => 0,
    }
}

fn object_kind_of(s: &JsonValue, comps: Option<&JsonValue>, fuel: u64) -> (n: SchemaNode)
    ensures
        n@ == object_kind(s@, crate::parser::oajson::ref_view(comps), fuel as nat),
    decreases fuel, 0nat,
{
    if fuel == 0 {
        return blank_node(SchemaNodeType::Unknown);
    }
    let f = fuel - 1;
    let mut base = data_node(SchemaNodeType::Object, s);
    base.min_properties = get_usize(s, "minProperties");
    base.max_properties = get_usize(s, "maxProperties");
    let mut b = typed_additional_of(base, s, comps, f);
    b.properties = props_nodes_of(s, comps, f);
    b
}

fn array_kind_of(s: &JsonValue, comps: Option<&JsonValue>, fuel: u64) -> (n: SchemaNode)
    ensures
        n@ == array_kind(s@, crate::parser::oajson::ref_view(comps), fuel as nat),
    decreases fuel, 0nat,
{
    if fuel == 0 {
        return blank_node(SchemaNodeType::Unknown);
    }
    let f = fuel - 1;
    let mut n = data_node(SchemaNodeType::Array, s);
    n.items = match get_field(s, "items") {
        Some(i) => Some(Box::new(typed_ref_of(i, comps, f))),
        None => None,
    };
    n.min_items = get_usize(s, "minItems");
    n.max_items = get_usize(s, "maxItems");
    n.unique_items = match get_bool(s, "uniqueItems") {
        Some(b) => b,
        None => false,
    };
    n
}

fn any_kind_of(s: &JsonValue, comps: Option<&JsonValue>, fuel: u64) -> (n: SchemaNode)
    ensures
        n@ == any_kind(s@, crate::parser::oajson::ref_view(comps), fuel as nat),
    decreases fuel, 0nat,
{
    if fuel == 0 {
        return blank_node(SchemaNodeType::Unknown);
    }
    let f = fuel - 1;
    let unique = match get_bool(s, "uniqueItems") {
        Some(b) => b,
        None => false,
    };
    if props_count(s) > 0 {
        let mut base = blank_node(SchemaNodeType::Object);
        base.description = get_str(s, "description");
        base.example = match get_field(s, "example") {
            Some(x) => Some(json_clone(x)),
            None => None,
        };
        base.min_properties = get_usize(s, "minProperties");
        base.max_properties = get_usize(s, "maxProperties");
        base.unique_items = unique;
        let mut b = typed_additional_of(base, s, comps, f);
        b.properties = props_nodes_of(s, comps, f);
        b
    } else {
        match get_field(s, "items") {
            Some(i) => {
                let item = typed_ref_of(i, comps, f);
                let mut n = blank_node(SchemaNodeType::Array);
                n.items = Some(Box::new(item));
                n.description = get_str(s, "description");
                n.example = match get_field(s, "example") {
                    Some(x) => Some(json_clone(x)),
                    None => None,
                };
                n.min_items = get_usize(s, "minItems");
                n.max_items = get_usize(s, "maxItems");
                n.unique_items = unique;
                n
            },
            None => any_scalar_node(s),
        }
    }
}


// ---------------------------------------------------------------------
// Laws

proof fn lemma_concrete(ns: Seq<SchemaView>)
    ensures
        concrete(ns).len() <= ns.len(),
        concrete(ns).len() < ns.len() <==> exists|i: int| 0 <= i < ns.len() && (#[trigger] ns[i]).node_type == SchemaNodeType::Null,
        forall|i: int| 0 <= i < concrete(ns).len() ==> (#[trigger] concrete(ns)[i]).node_type != SchemaNodeType::Null,
    decreases ns.len(),
{
    if ns.len() > 0 {
        let d = ns.drop_last();
        lemma_concrete(d);
        if exists|i: int| 0 <= i < d.len() && (#[trigger] d[i]).node_type == SchemaNodeType::Null {
            let i = choose|i: int| 0 <= i < d.len() && (#[trigger] d[i]).node_type == SchemaNodeType::Null;
            assert(ns[i] == d[i]);
        }
        if exists|i: int| 0 <= i < ns.len() && (#[trigger] ns[i]).node_type == SchemaNodeType::Null {
            let i = choose|i: int| 0 <= i < ns.len() && (#[trigger] ns[i]).node_type == SchemaNodeType::Null;
            if i < d.len() {
                assert(d[i] == ns[i]);
            }
        }
    }
}

proof fn lemma_merge_first_object(ns: Seq<SchemaView>)
    ensures
        merge_first(ns).node_type == SchemaNodeType::Object,
    decreases ns.len(),
{
    if ns.len() > 0 {
        lemma_merge_first_object(ns.drop_last());
    }
}

/// `oneOf` / `anyOf`: a `null` branch makes the result nullable; when every
/// other branch is an object the result is an object; otherwise it has the
/// type of the first branch that is not `null` (unknown when there is none).
pub proof fn law_collapse_variants(ns: Seq<SchemaView>)
    ensures
        (exists|i: int| 0 <= i < ns.len() && (#[trigger] ns[i]).node_type == SchemaNodeType::Null) ==> collapse_nodes(ns).nullable,
        concrete(ns).len() > 0 && (forall|i: int| 0 <= i < concrete(ns).len() ==> (#[trigger] concrete(ns)[i]).node_type == SchemaNodeType::Object)
            ==> collapse_nodes(ns).node_type == SchemaNodeType::Object,
        concrete(ns).len() > 0 ==> collapse_nodes(ns).node_type == concrete(ns)[0].node_type,
        concrete(ns).len() == 0 ==> collapse_nodes(ns).node_type == SchemaNodeType::Unknown,
{
    lemma_concrete(ns);
    lemma_merge_first_object(concrete(ns));
}

/// `allOf` gives an object whatever its branches are.
pub proof fn law_all_of_is_object(ns: Seq<SchemaView>)
    ensures
        merge_nodes(ns).node_type == SchemaNodeType::Object,
    decreases ns.len(),
{
    if ns.len() > 0 {
        law_all_of_is_object(ns.drop_last());
    }
}

} // verus!
