//! Per-endpoint mock route definition.
use vstd::prelude::*;
use crate::canonical::{CanonicalApiCollection, CanonicalEndpoint, MockExample, SchemaNode, example_clone, same_example, same_schema, schema_clone};
use crate::synth::{default_mock_examples, is_default_examples};
use crate::model::{HttpMethod, MockExampleKind, method_text};
use crate::text::{append, append_str, chars_of, string_of};
use crate::assoc::{get_copy, lookup};
use crate::canonical::text_view;
use crate::gateway::config::GatewayRouteSummary;

verus! {

/// A snapshot of one mock endpoint that the HTTP runtime can serve.
#[derive(Debug)]
pub struct MockRoute {
    pub collection_id: String,
    pub collection_name: String,
    pub method: HttpMethod,
    pub path: String,
    pub operation_id: Option<String>,
    pub summary: Option<String>,
    pub examples: Vec<MockExample>,
    /// Request body schema used by the opt-in body validator.
    pub request_body_schema: Option<SchemaNode>,
}

/// A route that matched a request, with the path parameters it bound in
/// path order (a later binding of the same name wins on lookup).
pub struct MatchedRoute<'a> {
    pub route: &'a MockRoute,
    pub params: Vec<(String, String)>,
}

/// The key `METHOD /path` under which per-route rules are stored.
pub open spec fn spec_route_key(method: HttpMethod, path: Seq<char>) -> Seq<char> {
    method_text(method) + " "@ + path
}

pub fn route_key(method: &HttpMethod, path: &str) -> (r: String)
    ensures
        r@ == spec_route_key(*method, path@),
{
    let mut out = chars_of(method.as_str());
    append_str(&mut out, " ");
    append_str(&mut out, path);
    string_of(&out)
}

/// Index of the first example of `kind`.
pub open spec fn example_index(examples: Seq<MockExample>, kind: MockExampleKind) -> Option<int>
    decreases examples.len(),
{
    if examples.len() == 0 {
        None
    } else {
        match example_index(examples.drop_last(), kind) {
            Some(i) => Some(i),
            None => if examples.last().kind == kind {
                Some(examples.len() - 1)
            } else {
                None
            },
        }
    }
}

pub proof fn lemma_example_index(examples: Seq<MockExample>, kind: MockExampleKind)
    ensures
        match example_index(examples, kind) {
            Some(i) => 0 <= i < examples.len() && examples[i].kind == kind && forall|j: int|
                0 <= j < i ==> (#[trigger] examples[j]).kind != kind,
            None => forall|j: int| 0 <= j < examples.len() ==> (#[trigger] examples[j]).kind != kind,
        },
    decreases examples.len(),
{
    if examples.len() > 0 {
        let t = examples.drop_last();
        lemma_example_index(t, kind);
        assert forall|j: int| 0 <= j < t.len() implies (#[trigger] examples[j]).kind == t[j].kind by {
        }
    }
}

/// The example served for an optional override: the first example of the
/// override kind when one exists, else the first success example, else the
/// first example.
pub open spec fn preferred_index(examples: Seq<MockExample>, override_kind: Option<MockExampleKind>) -> Option<int> {
    let from_override = match override_kind {
        Some(k) => example_index(examples, k),
        None => None,
    };
    match from_override {
        Some(i) => Some(i),
        None => match example_index(examples, MockExampleKind::Success) {
            Some(i) => Some(i),
            None => if examples.len() > 0 {
                Some(0)
            } else {
                None
            },
        },
    }
}

pub fn example_index_of(examples: &Vec<MockExample>, kind: MockExampleKind) -> (r: Option<usize>)
    ensures
        match r {
            Some(i) => example_index(examples@, kind) == Some(i as int),
            None => example_index(examples@, kind) is None,
        },
{
    proof {
        lemma_example_index(examples@, kind);
    }
    let mut i: usize = 0;
    while i < examples.len()
        invariant
            i <= examples.len(),
            forall|j: int| 0 <= j < i ==> (#[trigger] examples@[j]).kind != kind,
            match example_index(examples@, kind) {
                Some(k) => 0 <= k < examples@.len() && examples@[k].kind == kind && forall|j: int|
                    0 <= j < k ==> (#[trigger] examples@[j]).kind != kind,
                None => forall|j: int| 0 <= j < examples@.len() ==> (#[trigger] examples@[j]).kind != kind,
            },
        decreases examples.len() - i,
    {
        if examples[i].kind == kind {
            return Some(i);
        }
        i += 1;
    }
    None
}

pub fn preferred_index_of(examples: &Vec<MockExample>, override_kind: Option<MockExampleKind>) -> (r: Option<usize>)
    ensures
        match r {
            Some(i) => preferred_index(examples@, override_kind) == Some(i as int) && i < examples@.len(),
            None => preferred_index(examples@, override_kind) is None,
        },
{
    proof {
        lemma_example_index(examples@, MockExampleKind::Success);
        if let Some(k) = override_kind {
            lemma_example_index(examples@, k);
        }
    }
    if let Some(k) = override_kind {
        if let Some(i) = example_index_of(examples, k) {
            return Some(i);
        }
    }
    if let Some(i) = example_index_of(examples, MockExampleKind::Success) {
        return Some(i);
    }
    if examples.len() > 0 {
        Some(0)
    } else {
        None
    }
}

impl MockRoute {
    /// The first example of `kind`.
    pub fn example(&self, kind: &MockExampleKind) -> (r: Option<&MockExample>)
        ensures
            match example_index(self.examples@, *kind) {
                Some(i) => r == Some(&self.examples@[i]),
                None => r is None,
            },
    {
        proof {
            lemma_example_index(self.examples@, *kind);
        }
        match example_index_of(&self.examples, *kind) {
            Some(i) => Some(&self.examples[i]),
            None => None,
        }
    }

    /// The example served when `override_kind` is requested: that kind when
    /// present, else the success example, else the first example.
    pub fn preferred_example(&self, override_kind: Option<&MockExampleKind>) -> (r: Option<&MockExample>)
        ensures
            match preferred_index(self.examples@, match override_kind { Some(k) => Some(*k), None => None }) {
                Some(i) => r == Some(&self.examples@[i]),
                None => r is None,
            },
    {
        let k = match override_kind {
            Some(k) => Some(*k),
            None => None,
        };
        match preferred_index_of(&self.examples, k) {
            Some(i) => Some(&self.examples[i]),
            None => None,
        }
    }
}

/// `r` serves `endpoint` of `collection`: identity and method/path copied,
/// the endpoint's examples (the placeholders when it has none) and its
/// request-body schema.
pub open spec fn route_of(r: MockRoute, collection: CanonicalApiCollection, endpoint: CanonicalEndpoint) -> bool {
    &&& r.collection_id == collection.id
    &&& r.collection_name == collection.name
    &&& r.method == endpoint.method
    &&& r.path == endpoint.path
    &&& r.operation_id == endpoint.operation_id
    &&& r.summary == endpoint.summary
    &&& if endpoint.examples@.len() == 0 {
        is_default_examples(r.examples@)
    } else {
        r.examples@.len() == endpoint.examples@.len() && forall|i: int|
            0 <= i < r.examples@.len() ==> same_example(#[trigger] endpoint.examples@[i], r.examples@[i])
    }
    &&& match endpoint.request_body {
        Some(b) => r.request_body_schema matches Some(s) && same_schema(b.schema, s),
        None => r.request_body_schema is None,
    }
}

fn clone_opt(o: &Option<String>) -> (r: Option<String>)
    ensures
        r == *o,
{
    match o {
        Some(s) => Some(s.clone()),
        None => None,
    }
}

impl MockRoute {
    pub fn from_endpoint(collection: &CanonicalApiCollection, endpoint: &CanonicalEndpoint) -> (r: Self)
        ensures
            route_of(r, *collection, *endpoint),
    {
        let examples = if endpoint.examples.len() == 0 {
            default_mock_examples()
        } else {
            let mut out: Vec<MockExample> = Vec::new();
            let mut i: usize = 0;
            while i < endpoint.examples.len()
                invariant
                    i <= endpoint.examples@.len(),
                    out@.len() == i,
                    forall|k: int| 0 <= k < i ==> same_example(#[trigger] endpoint.examples@[k], out@[k]),
                decreases endpoint.examples.len() - i,
            {
                out.push(example_clone(&endpoint.examples[i]));
                i += 1;
            }
            out
        };
        let request_body_schema = match &endpoint.request_body {
            Some(b) => Some(schema_clone(&b.schema)),
            None => None,
        };
        MockRoute {
            collection_id: collection.id.clone(),
            collection_name: collection.name.clone(),
            method: endpoint.method,
            path: endpoint.path.clone(),
            operation_id: clone_opt(&endpoint.operation_id),
            summary: clone_opt(&endpoint.summary),
            examples,
            request_body_schema,
        }
    }
}

/// `(collection, endpoint)` positions of every endpoint, collection by
/// collection in endpoint order.
pub open spec fn endpoint_positions(cs: Seq<CanonicalApiCollection>) -> Seq<(int, int)>
    decreases cs.len(),
{
    if cs.len() == 0 {
        Seq::empty()
    } else {
        endpoint_positions(cs.drop_last()) + Seq::new(
            cs.last().endpoints@.len(),
            |e: int| ((cs.len() - 1) as int, e),
        )
    }
}

proof fn lemma_positions_bound(cs: Seq<CanonicalApiCollection>)
    ensures
        forall|i: int|
            0 <= i < endpoint_positions(cs).len() ==> 0 <= (#[trigger] endpoint_positions(cs)[i]).0 < cs.len()
                && 0 <= endpoint_positions(cs)[i].1 < cs[endpoint_positions(cs)[i].0].endpoints@.len(),
    decreases cs.len(),
{
    if cs.len() > 0 {
        lemma_positions_bound(cs.drop_last());
    }
}

/// The route built for the endpoint at position `p`.
pub open spec fn route_at(r: MockRoute, cs: Seq<CanonicalApiCollection>, p: (int, int)) -> bool {
    route_of(r, cs[p.0], cs[p.0].endpoints@[p.1])
}

/// The routes of every endpoint of every collection, collection by
/// collection in endpoint order.
pub fn build_routes(collections: &Vec<CanonicalApiCollection>) -> (r: Vec<MockRoute>)
    ensures
        r@.len() == endpoint_positions(collections@).len(),
        forall|i: int| 0 <= i < r@.len() ==> route_at(#[trigger] r@[i], collections@, endpoint_positions(collections@)[i]),
{
    let mut routes: Vec<MockRoute> = Vec::new();
    let mut c: usize = 0;
    while c < collections.len()
        invariant
            c <= collections@.len(),
            routes@.len() == endpoint_positions(collections@.subrange(0, c as int)).len(),
            forall|i: int|
                0 <= i < routes@.len() ==> route_at(
                    #[trigger] routes@[i],
                    collections@,
                    endpoint_positions(collections@.subrange(0, c as int))[i],
                ),
        decreases collections.len() - c,
    {
        let ghost before = endpoint_positions(collections@.subrange(0, c as int));
        let collection = &collections[c];
        let start = routes.len();
        let mut e: usize = 0;
        while e < collection.endpoints.len()
            invariant
                c < collections@.len(),
                *collection == collections@[c as int],
                e <= collection.endpoints@.len(),
                routes@.len() == start + e,
                start == before.len(),
                forall|i: int| 0 <= i < start ==> route_at(#[trigger] routes@[i], collections@, before[i]),
                forall|x: int| 0 <= x < e ==> route_of(#[trigger] routes@[start + x], *collection, collection.endpoints@[x]),
            decreases collection.endpoints.len() - e,
        {
            let ghost prev = routes@;
            routes.push(MockRoute::from_endpoint(collection, &collection.endpoints[e]));
            proof {
                assert forall|i: int| 0 <= i < start implies route_at(#[trigger] routes@[i], collections@, before[i]) by {
                    assert(routes@[i] == prev[i]);
                }
                assert forall|x: int| 0 <= x < e + 1 implies route_of(#[trigger] routes@[start + x], *collection, collection.endpoints@[x]) by {
                    if x < e {
                        assert(routes@[start + x] == prev[start + x]);
                    }
                }
            }
            e += 1;
        }
        proof {
            let next = collections@.subrange(0, c + 1);
            assert(next.drop_last() =~= collections@.subrange(0, c as int));
            let after = endpoint_positions(next);
            assert(after == before + Seq::new(collection.endpoints@.len(), |x: int| (c as int, x)));
            lemma_positions_bound(collections@.subrange(0, c as int));
            assert forall|i: int| 0 <= i < routes@.len() implies route_at(#[trigger] routes@[i], collections@, after[i]) by {
                if i < start {
                    assert(after[i] == before[i]);
                } else {
                    assert(after[i] == (c as int, i - start));
                    assert(routes@[start + (i - start)] == routes@[i]);
                }
            }
        }
        c += 1;
    }
    proof {
        assert(collections@.subrange(0, collections@.len() as int) =~= collections@);
    }
    routes
}

/// `s` summarizes route `r`: its method, path, collection, operation id and
/// summary; the example it serves (under the override stored for its key,
/// if any); the kinds of all its examples; and its latency override.
pub open spec fn summary_of(
    r: MockRoute,
    overrides: Seq<(String, MockExampleKind)>,
    latency_overrides: Seq<(String, u64)>,
    s: GatewayRouteSummary,
) -> bool {
    let key = spec_route_key(r.method, r.path@);
    &&& s.method == r.method
    &&& s.path@ == r.path@
    &&& s.collection_name@ == r.collection_name@
    &&& text_view(s.operation_id) == text_view(r.operation_id)
    &&& text_view(s.summary) == text_view(r.summary)
    &&& s.selected_example == match preferred_index(r.examples@, lookup(overrides, key)) {
        Some(i) => Some(r.examples@[i].kind),
        None => None,
    }
    &&& s.available_examples@ == r.examples@.map_values(|e: MockExample| e.kind)
    &&& s.latency_ms == lookup(latency_overrides, key)
}

fn copy_text(o: &Option<String>) -> (r: Option<String>)
    ensures
        text_view(r) == text_view(*o),
{
    match o {
        Some(t) => Some(t.clone()),
        None => None,
    }
}

/// The summary of each route, in order (see `summary_of`).
pub fn summarize(
    routes: &Vec<MockRoute>,
    overrides: &Vec<(String, MockExampleKind)>,
    latency_overrides: &Vec<(String, u64)>,
) -> (r: Vec<GatewayRouteSummary>)
    ensures
        r@.len() == routes@.len(),
        forall|i: int| 0 <= i < routes@.len() ==> summary_of(routes@[i], overrides@, latency_overrides@, #[trigger] r@[i]),
{
    let mut out: Vec<GatewayRouteSummary> = Vec::new();
    let mut i: usize = 0;
    while i < routes.len()
        invariant
            i <= routes@.len(),
            out@.len() == i,
            forall|j: int| 0 <= j < i ==> summary_of(routes@[j], overrides@, latency_overrides@, #[trigger] out@[j]),
        decreases routes.len() - i,
    {
        let route = &routes[i];
        let key = route_key(&route.method, route.path.as_str());
        let override_kind = get_copy(overrides, key.as_str());
        let selected = match preferred_index_of(&route.examples, override_kind) {
            Some(k) => Some(route.examples[k].kind),
            None => None,
        };
        let mut kinds: Vec<MockExampleKind> = Vec::new();
        let mut k: usize = 0;
        while k < route.examples.len()
            invariant
                k <= route.examples@.len(),
                kinds@ == route.examples@.subrange(0, k as int).map_values(|e: MockExample| e.kind),
            decreases route.examples.len() - k,
        {
            kinds.push(route.examples[k].kind);
            assert(route.examples@.subrange(0, k + 1).map_values(|e: MockExample| e.kind)
                =~= route.examples@.subrange(0, k as int).map_values(|e: MockExample| e.kind).push(route.examples@[k as int].kind));
            k += 1;
        }
        assert(route.examples@.subrange(0, route.examples@.len() as int) =~= route.examples@);
        let summary = GatewayRouteSummary {
            method: route.method,
            path: route.path.clone(),
            collection_name: route.collection_name.clone(),
            operation_id: copy_text(&route.operation_id),
            summary: copy_text(&route.summary),
            selected_example: selected,
            available_examples: kinds,
            latency_ms: get_copy(latency_overrides, key.as_str()),
        };
        out.push(summary);
        i += 1;
    }
    out
}

} // verus!
