//! Boolean schemas (`true` / `false`) rewritten as empty schema objects, at
//! every schema position of an OpenAPI document (component schemas, the
//! schemas of parameters, request bodies and responses, and the schemas
//! nested in them), so that a reader that only knows schema objects
//! accepts the document. A parameter, request body or response given as a
//! boolean becomes an empty object too.
use vstd::prelude::*;
use crate::json::{JsonSpec, JsonValue, view_json, view_entries, view_items, lemma_view_entries, lemma_view_items, json_clone};
use crate::text::chars_of;

verus! {

/// Where in the document a value stands.
#[derive(Debug, Clone, Copy, PartialEq, Eq, Structural)]
pub enum Site {
    Schema,
    Media,
    /// A parameter (`true`) or a request body or response (`false`).
    Holder(bool),
    Operation,
    Item,
    Components,
    Document,
}

pub open spec fn is_schema_key(k: Seq<char>) -> bool {
    k == "items"@ || k == "contains"@ || k == "additionalProperties"@ || k == "unevaluatedProperties"@
        || k == "unevaluatedItems"@ || k == "if"@ || k == "then"@ || k == "else"@
}

pub open spec fn is_schema_list_key(k: Seq<char>) -> bool {
    k == "prefixItems"@ || k == "allOf"@ || k == "anyOf"@ || k == "oneOf"@
}

pub open spec fn is_schema_map_key(k: Seq<char>) -> bool {
    k == "properties"@ || k == "dependentSchemas"@
}

pub open spec fn is_method_key(k: Seq<char>) -> bool {
    k == "get"@ || k == "put"@ || k == "post"@ || k == "delete"@ || k == "options"@ || k == "head"@
        || k == "patch"@ || k == "trace"@
}

/// A value standing at `site`, sanitized.
pub open spec fn node(site: Site, v: JsonSpec) -> JsonSpec
    decreases v,
{
    match v {
        JsonSpec::Bool(_) => match site {
            Site::Schema | Site::Holder(_) => JsonSpec::Object(Seq::empty()),
            _ => v,
        },
        JsonSpec::Object(m) => JsonSpec::Object(members(site, m)),
        _ => v,
    }
}

/// The members of an object standing at `site`, each sanitized by what
/// its key makes it.
pub open spec fn members(site: Site, m: Seq<(Seq<char>, JsonSpec)>) -> Seq<(Seq<char>, JsonSpec)>
    decreases m,
{
    if m.len() == 0 {
        m
    } else {
        let k = m[0].0;
        let v = m[0].1;
        let nv = match site {
            Site::Schema => if is_schema_key(k) {
                node(Site::Schema, v)
            } else if is_schema_map_key(k) {
                match v {
                    JsonSpec::Object(ps) => JsonSpec::Object(values(Site::Schema, ps)),
                    _ => v,
                }
            } else if is_schema_list_key(k) {
                match v {
                    JsonSpec::Array(xs) => JsonSpec::Array(list(Site::Schema, xs)),
                    _ => v,
                }
            } else {
                v
            },
            Site::Media => if k == "schema"@ {
                node(Site::Schema, v)
            } else {
                v
            },
            Site::Holder(param) => if k == "content"@ {
                match v {
                    JsonSpec::Object(cs) => JsonSpec::Object(values(Site::Media, cs)),
                    _ => v,
                }
            } else if param && k == "schema"@ {
                node(Site::Schema, v)
            } else {
                v
            },
            Site::Operation => if k == "parameters"@ {
                match v {
                    JsonSpec::Array(xs) => JsonSpec::Array(list(Site::Holder(true), xs)),
                    _ => v,
                }
            } else if k == "requestBody"@ {
                node(Site::Holder(false), v)
            } else if k == "responses"@ {
                match v {
                    JsonSpec::Object(ps) => JsonSpec::Object(values(Site::Holder(false), ps)),
                    _ => v,
                }
            } else {
                v
            },
            Site::Item => if k == "parameters"@ {
                match v {
                    JsonSpec::Array(xs) => JsonSpec::Array(list(Site::Holder(true), xs)),
                    _ => v,
                }
            } else if is_method_key(k) {
                node(Site::Operation, v)
            } else {
                v
            },
            Site::Components => if k == "schemas"@ {
                match v {
                    JsonSpec::Object(ps) => JsonSpec::Object(values(Site::Schema, ps)),
                    _ => v,
                }
            } else if k == "responses"@ || k == "requestBodies"@ {
                match v {
                    JsonSpec::Object(ps) => JsonSpec::Object(values(Site::Holder(false), ps)),
                    _ => v,
                }
            } else if k == "parameters"@ {
                match v {
                    JsonSpec::Object(ps) => JsonSpec::Object(values(Site::Holder(true), ps)),
                    _ => v,
                }
            } else {
                v
            },
            Site::Document => if k == "components"@ {
                node(Site::Components, v)
            } else if k == "paths"@ {
                match v {
                    JsonSpec::Object(ps) => JsonSpec::Object(values(Site::Item, ps)),
                    _ => v,
                }
            } else {
                v
            },
        };
        seq![(k, nv)] + members(site, m.subrange(1, m.len() as int))
    }
}

/// Every value of a map standing at `site`.
pub open spec fn values(site: Site, ps: Seq<(Seq<char>, JsonSpec)>) -> Seq<(Seq<char>, JsonSpec)>
    decreases ps,
{
    if ps.len() == 0 {
        ps
    } else {
        seq![(ps[0].0, node(site, ps[0].1))] + values(site, ps.subrange(1, ps.len() as int))
    }
}

/// Every member of a list standing at `site`.
pub open spec fn list(site: Site, xs: Seq<JsonSpec>) -> Seq<JsonSpec>
    decreases xs,
{
    if xs.len() == 0 {
        xs
    } else {
        seq![node(site, xs[0])] + list(site, xs.subrange(1, xs.len() as int))
    }
}

/// The whole document sanitized.
pub open spec fn sanitize_document(v: JsonSpec) -> JsonSpec {
    node(Site::Document, v)
}


// ---------------------------------------------------------------------
// Executable side

fn key_is(k: &[char], lit: &str) -> (b: bool)
    ensures
        b == (k@ == lit@),
{
    crate::text::eq_str(k, lit)
}

fn is_schema_key_of(k: &[char]) -> (b: bool)
    ensures
        b == is_schema_key(k@),
{
    key_is(k, "items") || key_is(k, "contains") || key_is(k, "additionalProperties") || key_is(k, "unevaluatedProperties")
        || key_is(k, "unevaluatedItems") || key_is(k, "if") || key_is(k, "then") || key_is(k, "else")
}

fn is_schema_list_key_of(k: &[char]) -> (b: bool)
    ensures
        b == is_schema_list_key(k@),
{
    key_is(k, "prefixItems") || key_is(k, "allOf") || key_is(k, "anyOf") || key_is(k, "oneOf")
}

fn is_schema_map_key_of(k: &[char]) -> (b: bool)
    ensures
        b == is_schema_map_key(k@),
{
    key_is(k, "properties") || key_is(k, "dependentSchemas")
}

fn is_method_key_of(k: &[char]) -> (b: bool)
    ensures
        b == is_method_key(k@),
{
    key_is(k, "get") || key_is(k, "put") || key_is(k, "post") || key_is(k, "delete") || key_is(k, "options")
        || key_is(k, "head") || key_is(k, "patch") || key_is(k, "trace")
}

/// A value standing at `site`, sanitized.
pub fn node_of(site: Site, v: &JsonValue) -> (r: JsonValue)
    ensures
        r@ == node(site, v@),
    decreases v,
{
    match v {
        JsonValue::Bool(b) => match site {
            Site::Schema | Site::Holder(_) => {
                let e: Vec<(String, JsonValue)> = Vec::new();
                proof {
                    assert(view_entries(e@) =~= Seq::<(Seq<char>, JsonSpec)>::empty());
                }
                JsonValue::Object(e)
            },
            _ => JsonValue::Bool(*b),
        },
        JsonValue::Object(m) => {
            proof {
                assert(decreases_to!(*v => v->Object_0));
            }
            JsonValue::Object(members_of(site, m))
        },
        _ => json_clone(v),
    }
}

fn members_of(site: Site, m: &Vec<(String, JsonValue)>) -> (r: Vec<(String, JsonValue)>)
    ensures
        view_entries(r@) == members(site, view_entries(m@)),
    decreases m,
{
    proof {
        lemma_view_entries(m@);
        assert(view_entries(m@).subrange(0, m@.len() as int) =~= view_entries(m@));
    }
    let ghost all = view_entries(m@);
    let n = m.len();
    let mut out: Vec<(String, JsonValue)> = Vec::new();
    let mut i: usize = 0;
    proof {
        assert(view_entries(out@) =~= Seq::<(Seq<char>, JsonSpec)>::empty());
        assert(view_entries(out@) + members(site, all.subrange(0, n as int)) =~= members(site, all));
    }
    while i < n
        invariant
            i <= n == m@.len(),
            all == view_entries(m@),
            all.len() == n,
            forall|j: int| 0 <= j < n ==> #[trigger] all[j] == (m@[j].0@, view_json(m@[j].1)),
            view_entries(out@) + members(site, all.subrange(i as int, n as int)) == members(site, all),
        decreases n - i,
    {
        proof {
            assert(decreases_to!(*m => m@));
            assert(decreases_to!(m@ => m@[i as int]));
            assert(decreases_to!(m@[i as int] => m@[i as int].1));
        }
        let k = &m[i].0;
        let v = &m[i].1;
        let kc = chars_of(k.as_str());
        let nv: JsonValue = match site {
            Site::Schema => if is_schema_key_of(&kc) {
                node_of(Site::Schema, v)
            } else if is_schema_map_key_of(&kc) {
                match v {
                    JsonValue::Object(ps) => {
                        proof {
                            assert(decreases_to!(*v => v->Object_0));
                        }
                        JsonValue::Object(values_of(Site::Schema, ps))
                    },
                    _ => json_clone(v),
                }
            } else if is_schema_list_key_of(&kc) {
                match v {
                    JsonValue::Array(xs) => {
                        proof {
                            assert(decreases_to!(*v => v->Array_0));
                        }
                        JsonValue::Array(list_of(Site::Schema, xs))
                    },
                    _ => json_clone(v),
                }
            } else {
                json_clone(v)
            },
            Site::Media => if key_is(&kc, "schema") {
                node_of(Site::Schema, v)
            } else {
                json_clone(v)
            },
            Site::Holder(param) => if key_is(&kc, "content") {
                match v {
                    JsonValue::Object(cs) => {
                        proof {
                            assert(decreases_to!(*v => v->Object_0));
                        }
                        JsonValue::Object(values_of(Site::Media, cs))
                    },
                    _ => json_clone(v),
                }
            } else if param && key_is(&kc, "schema") {
                node_of(Site::Schema, v)
            } else {
                json_clone(v)
            },
            Site::Operation => if key_is(&kc, "parameters") {
                match v {
                    JsonValue::Array(xs) => {
                        proof {
                            assert(decreases_to!(*v => v->Array_0));
                        }
                        JsonValue::Array(list_of(Site::Holder(true), xs))
                    },
                    _ => json_clone(v),
                }
            } else if key_is(&kc, "requestBody") {
                node_of(Site::Holder(false), v)
            } else if key_is(&kc, "responses") {
                match v {
                    JsonValue::Object(ps) => {
                        proof {
                            assert(decreases_to!(*v => v->Object_0));
                        }
                        JsonValue::Object(values_of(Site::Holder(false), ps))
                    },
                    _ => json_clone(v),
                }
            } else {
                json_clone(v)
            },
            Site::Item => if key_is(&kc, "parameters") {
                match v {
                    JsonValue::Array(xs) => {
                        proof {
                            assert(decreases_to!(*v => v->Array_0));
                        }
                        JsonValue::Array(list_of(Site::Holder(true), xs))
                    },
                    _ => json_clone(v),
                }
            } else if is_method_key_of(&kc) {
                node_of(Site::Operation, v)
            } else {
                json_clone(v)
            },
            Site::Components => if key_is(&kc, "schemas") {
                match v {
                    JsonValue::Object(ps) => {
                        proof {
                            assert(decreases_to!(*v => v->Object_0));
                        }
                        JsonValue::Object(values_of(Site::Schema, ps))
                    },
                    _ => json_clone(v),
                }
            } else if key_is(&kc, "responses") || key_is(&kc, "requestBodies") {
                match v {
                    JsonValue::Object(ps) => {
                        proof {
                            assert(decreases_to!(*v => v->Object_0));
                        }
                        JsonValue::Object(values_of(Site::Holder(false), ps))
                    },
                    _ => json_clone(v),
                }
            } else if key_is(&kc, "parameters") {
                match v {
                    JsonValue::Object(ps) => {
                        proof {
                            assert(decreases_to!(*v => v->Object_0));
                        }
                        JsonValue::Object(values_of(Site::Holder(true), ps))
                    },
                    _ => json_clone(v),
                }
            } else {
                json_clone(v)
            },
            Site::Document => if key_is(&kc, "components") {
                node_of(Site::Components, v)
            } else if key_is(&kc, "paths") {
                match v {
                    JsonValue::Object(ps) => {
                        proof {
                            assert(decreases_to!(*v => v->Object_0));
                        }
                        JsonValue::Object(values_of(Site::Item, ps))
                    },
                    _ => json_clone(v),
                }
            } else {
                json_clone(v)
            },
        };
        let ghost before = out@;
        let ghost rest = all.subrange(i as int, n as int);
        out.push((k.clone(), nv));
        proof {
            assert(rest[0] == all[i as int]);
            assert(rest.subrange(1, rest.len() as int) =~= all.subrange(i + 1, n as int));
            lemma_view_entries(before);
            lemma_view_entries(out@);
            assert(view_entries(out@) =~= view_entries(before).push((k@, view_json(nv))));
            assert(view_entries(out@) + members(site, all.subrange(i + 1, n as int)) =~= view_entries(before) + members(site, rest));
        }
        i += 1;
    }
    proof {
        assert(all.subrange(n as int, n as int) =~= Seq::<(Seq<char>, JsonSpec)>::empty());
        assert(view_entries(out@) + Seq::<(Seq<char>, JsonSpec)>::empty() =~= view_entries(out@));
    }
    out
}

fn values_of(site: Site, ps: &Vec<(String, JsonValue)>) -> (r: Vec<(String, JsonValue)>)
    ensures
        view_entries(r@) == values(site, view_entries(ps@)),
    decreases ps,
{
    proof {
        lemma_view_entries(ps@);
        assert(view_entries(ps@).subrange(0, ps@.len() as int) =~= view_entries(ps@));
    }
    let ghost all = view_entries(ps@);
    let n = ps.len();
    let mut out: Vec<(String, JsonValue)> = Vec::new();
    let mut i: usize = 0;
    proof {
        assert(view_entries(out@) =~= Seq::<(Seq<char>, JsonSpec)>::empty());
        assert(view_entries(out@) + values(site, all.subrange(0, n as int)) =~= values(site, all));
    }
    while i < n
        invariant
            i <= n == ps@.len(),
            all == view_entries(ps@),
            all.len() == n,
            forall|j: int| 0 <= j < n ==> #[trigger] all[j] == (ps@[j].0@, view_json(ps@[j].1)),
            view_entries(out@) + values(site, all.subrange(i as int, n as int)) == values(site, all),
        decreases n - i,
    {
        proof {
            assert(decreases_to!(*ps => ps@));
            assert(decreases_to!(ps@ => ps@[i as int]));
            assert(decreases_to!(ps@[i as int] => ps@[i as int].1));
        }
        let nv = node_of(site, &ps[i].1);
        let ghost before = out@;
        let ghost rest = all.subrange(i as int, n as int);
        out.push((ps[i].0.clone(), nv));
        proof {
            assert(rest[0] == all[i as int]);
            assert(rest.subrange(1, rest.len() as int) =~= all.subrange(i + 1, n as int));
            lemma_view_entries(before);
            lemma_view_entries(out@);
            assert(view_entries(out@) =~= view_entries(before).push((ps@[i as int].0@, view_json(nv))));
            assert(view_entries(out@) + values(site, all.subrange(i + 1, n as int)) =~= view_entries(before) + values(site, rest));
        }
        i += 1;
    }
    proof {
        assert(all.subrange(n as int, n as int) =~= Seq::<(Seq<char>, JsonSpec)>::empty());
        assert(view_entries(out@) + Seq::<(Seq<char>, JsonSpec)>::empty() =~= view_entries(out@));
    }
    out
}

fn list_of(site: Site, xs: &Vec<JsonValue>) -> (r: Vec<JsonValue>)
    ensures
        view_items(r@) == list(site, view_items(xs@)),
    decreases xs,
{
    proof {
        lemma_view_items(xs@);
        assert(view_items(xs@).subrange(0, xs@.len() as int) =~= view_items(xs@));
    }
    let ghost all = view_items(xs@);
    let n = xs.len();
    let mut out: Vec<JsonValue> = Vec::new();
    let mut i: usize = 0;
    proof {
        assert(view_items(out@) =~= Seq::<JsonSpec>::empty());
        assert(view_items(out@) + list(site, all.subrange(0, n as int)) =~= list(site, all));
    }
    while i < n
        invariant
            i <= n == xs@.len(),
            all == view_items(xs@),
            all.len() == n,
            forall|j: int| 0 <= j < n ==> #[trigger] all[j] == view_json(xs@[j]),
            view_items(out@) + list(site, all.subrange(i as int, n as int)) == list(site, all),
        decreases n - i,
    {
        proof {
            assert(decreases_to!(*xs => xs@));
            assert(decreases_to!(xs@ => xs@[i as int]));
        }
        let nv = node_of(site, &xs[i]);
        let ghost before = out@;
        let ghost rest = all.subrange(i as int, n as int);
        out.push(nv);
        proof {
            assert(rest[0] == all[i as int]);
            assert(rest.subrange(1, rest.len() as int) =~= all.subrange(i + 1, n as int));
            lemma_view_items(before);
            lemma_view_items(out@);
            assert(view_items(out@) =~= view_items(before).push(view_json(nv)));
            assert(view_items(out@) + list(site, all.subrange(i + 1, n as int)) =~= view_items(before) + list(site, rest));
        }
        i += 1;
    }
    proof {
        assert(all.subrange(n as int, n as int) =~= Seq::<JsonSpec>::empty());
        assert(view_items(out@) + Seq::<JsonSpec>::empty() =~= view_items(out@));
    }
    out
}

/// The whole document sanitized.
pub fn sanitize_document_of(v: &JsonValue) -> (r: JsonValue)
    ensures
        r@ == sanitize_document(v@),
{
    node_of(Site::Document, v)
}

} // verus!
