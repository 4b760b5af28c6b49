//! Route table and path pattern matching for the mock gateway.
use vstd::prelude::*;
use crate::gateway::route::{MatchedRoute, MockRoute};
use crate::model::HttpMethod;
use crate::text::{chars_eq, chars_lt, chars_of, lemma_seq_lt_total, lemma_seq_lt_trans, segments, segments_of, seq_lt, slice, string_of, views};

verus! {

#[derive(Debug, Clone, PartialEq, Eq)]
pub enum PathSegment {
    Literal(String),
    Param(String),
}

/// Mathematical form of a path segment.
pub enum SegmentSpec {
    Literal(Seq<char>),
    Param(Seq<char>),
}

pub open spec fn segment_view(s: PathSegment) -> SegmentSpec {
    match s {
        PathSegment::Literal(t) => SegmentSpec::Literal(t@),
        PathSegment::Param(t) => SegmentSpec::Param(t@),
    }
}

pub open spec fn segment_views(s: Seq<PathSegment>) -> Seq<SegmentSpec> {
    s.map_values(|x: PathSegment| segment_view(x))
}

/// `{name}` and `:name` segments are parameters; anything else is literal.
pub open spec fn classify(seg: Seq<char>) -> SegmentSpec {
    if seg.len() >= 2 && seg[0] == '{' && seg[seg.len() - 1] == '}' {
        SegmentSpec::Param(seg.subrange(1, seg.len() - 1))
    } else if seg.len() >= 1 && seg[0] == ':' {
        SegmentSpec::Param(seg.subrange(1, seg.len() as int))
    } else {
        SegmentSpec::Literal(seg)
    }
}

/// The compiled form of a path template: its non-empty `/`-separated pieces,
/// each classified.
pub open spec fn compiled_path(path: Seq<char>) -> Seq<SegmentSpec> {
    segments(path, '/').map_values(|s: Seq<char>| classify(s))
}

pub open spec fn literal_count(segs: Seq<SegmentSpec>) -> nat
    decreases segs.len(),
{
    if segs.len() == 0 {
        0
    } else {
        literal_count(segs.drop_last()) + if segs.last() is Literal {
            1nat
        } else {
            0nat
        }
    }
}

fn classify_of(seg: &Vec<char>) -> (r: PathSegment)
    ensures
        segment_view(r) == classify(seg@),
{
    let n = seg.len();
    if n >= 2 && seg[0] == '{' && seg[n - 1] == '}' {
        PathSegment::Param(string_of(&slice(seg, 1, n - 1)))
    } else if n >= 1 && seg[0] == ':' {
        PathSegment::Param(string_of(&slice(seg, 1, n)))
    } else {
        PathSegment::Literal(string_of(seg))
    }
}

pub fn compile_path(path: &str) -> (r: Vec<PathSegment>)
    ensures
        segment_views(r@) == compiled_path(path@),
{
    let chars = chars_of(path);
    let pieces = segments_of(&chars, '/');
    let mut out: Vec<PathSegment> = Vec::new();
    let mut i: usize = 0;
    while i < pieces.len()
        invariant
            i <= pieces.len(),
            views(pieces@) == segments(path@, '/'),
            out@.len() == i,
            forall|j: int| 0 <= j < i ==> segment_view(#[trigger] out@[j]) == classify(pieces@[j]@),
        decreases pieces.len() - i,
    {
        out.push(classify_of(&pieces[i]));
        i += 1;
    }
    proof {
        assert(segment_views(out@) =~= compiled_path(path@)) by {
            assert forall|j: int| 0 <= j < out@.len() implies segment_views(out@)[j] == compiled_path(path@)[j] by {
                assert(views(pieces@)[j] == pieces@[j]@);
            }
        }
    }
    out
}

/// A literal segment equals its piece; a parameter accepts any piece.
pub open spec fn segment_matches(seg: SegmentSpec, actual: Seq<char>) -> bool {
    match seg {
        SegmentSpec::Literal(l) => l == actual,
        SegmentSpec::Param(_) => true,
    }
}

pub open spec fn all_segments_match(segs: Seq<SegmentSpec>, req: Seq<Seq<char>>) -> bool {
    segs.len() == req.len() && forall|i: int| 0 <= i < segs.len() ==> segment_matches(#[trigger] segs[i], req[i])
}

/// The `(name, piece)` pairs bound by the parameter segments, in path order.
pub open spec fn bindings(segs: Seq<SegmentSpec>, req: Seq<Seq<char>>) -> Seq<(Seq<char>, Seq<char>)>
    decreases segs.len(),
{
    if segs.len() == 0 || req.len() == 0 {
        Seq::empty()
    } else {
        let r = bindings(segs.drop_last(), req.drop_last());
        match segs.last() {
            SegmentSpec::Param(name) => r.push((name, req.last())),
            SegmentSpec::Literal(_) => r,
        }
    }
}

pub open spec fn param_views(p: Seq<(String, String)>) -> Seq<(Seq<char>, Seq<char>)> {
    p.map_values(|x: (String, String)| (x.0@, x.1@))
}

/// A compiled endpoint path with its specificity.
#[derive(Debug)]
pub struct CompiledRoute {
    pub route: MockRoute,
    pub segments: Vec<PathSegment>,
    pub literal_count: usize,
}

/// The route's segments and literal count agree with its path.
pub open spec fn compiled_ok(c: CompiledRoute) -> bool {
    &&& segment_views(c.segments@) == compiled_path(c.route.path@)
    &&& c.literal_count == literal_count(segment_views(c.segments@))
}

fn count_literals(segs: &Vec<PathSegment>) -> (n: usize)
    ensures
        n == literal_count(segment_views(segs@)),
{
    let mut n: usize = 0;
    let mut i: usize = 0;
    while i < segs.len()
        invariant
            i <= segs.len(),
            n == literal_count(segment_views(segs@.subrange(0, i as int))),
            n <= i,
        decreases segs.len() - i,
    {
        proof {
            assert(segment_views(segs@.subrange(0, i + 1)).drop_last() =~= segment_views(
                segs@.subrange(0, i as int),
            ));
        }
        if let PathSegment::Literal(_) = &segs[i] {
            n += 1;
        }
        i += 1;
    }
    proof {
        assert(segs@.subrange(0, segs@.len() as int) =~= segs@);
    }
    n
}

impl CompiledRoute {
    pub fn new(route: MockRoute) -> (r: Self)
        ensures
            r.route == route,
            compiled_ok(r),
    {
        let segments = compile_path(route.path.as_str());
        let literal_count = count_literals(&segments);
        CompiledRoute { route, segments, literal_count }
    }
}

/// `a` (at input position `ia`) is tried before `b` (at `ib`): more literal
/// segments first, then more segments, then the smaller path, then input order.
pub open spec fn route_before(a: CompiledRoute, ia: int, b: CompiledRoute, ib: int) -> bool {
    ||| a.literal_count > b.literal_count
    ||| (a.literal_count == b.literal_count && a.segments@.len() > b.segments@.len())
    ||| (a.literal_count == b.literal_count && a.segments@.len() == b.segments@.len() && seq_lt(
        a.route.path@,
        b.route.path@,
    ))
    ||| (a.literal_count == b.literal_count && a.segments@.len() == b.segments@.len()
        && a.route.path@ == b.route.path@ && ia < ib)
}

proof fn lemma_before_total(a: CompiledRoute, ia: int, b: CompiledRoute, ib: int)
    requires
        ia != ib,
    ensures
        route_before(a, ia, b, ib) || route_before(b, ib, a, ia),
        !(route_before(a, ia, b, ib) && route_before(b, ib, a, ia)),
{
    lemma_seq_lt_total(a.route.path@, b.route.path@);
}

proof fn lemma_before_trans(a: CompiledRoute, ia: int, b: CompiledRoute, ib: int, c: CompiledRoute, ic: int)
    requires
        route_before(a, ia, b, ib),
        route_before(b, ib, c, ic),
    ensures
        route_before(a, ia, c, ic),
{
    lemma_seq_lt_total(a.route.path@, b.route.path@);
    lemma_seq_lt_total(b.route.path@, c.route.path@);
    lemma_seq_lt_total(a.route.path@, c.route.path@);
    if seq_lt(a.route.path@, b.route.path@) && seq_lt(b.route.path@, c.route.path@) {
        lemma_seq_lt_trans(a.route.path@, b.route.path@, c.route.path@);
    }
}

/// `c` serves requests with `method` whose path pieces are `req`.
pub open spec fn route_matches(c: CompiledRoute, method: HttpMethod, req: Seq<Seq<char>>) -> bool {
    c.route.method == method && all_segments_match(segment_views(c.segments@), req)
}

/// Route `k` (in priority order) serves `method` on `path`: it matches and
/// no route tried before it does.
pub open spec fn serves(t: RouteTable, method: HttpMethod, path: Seq<char>, k: int) -> bool {
    &&& 0 <= k < t.entries().len()
    &&& route_matches(t.entries()[k], method, segments(path, '/'))
    &&& forall|j: int| 0 <= j < k ==> !route_matches(#[trigger] t.entries()[j], method, segments(path, '/'))
}

/// The route serving `method` on `path`, if any.
pub open spec fn first_served(t: RouteTable, method: HttpMethod, path: Seq<char>) -> Option<int> {
    if exists|k: int| serves(t, method, path, k) {
        Some(choose|k: int| serves(t, method, path, k))
    } else {
        None
    }
}

/// At most one route serves a request.
pub proof fn lemma_serves_unique(t: RouteTable, method: HttpMethod, path: Seq<char>, k: int)
    requires
        serves(t, method, path, k),
    ensures
        first_served(t, method, path) == Some(k),
{
    let c = choose|c: int| serves(t, method, path, c);
    if c < k {
        assert(!route_matches(t.entries()[c], method, segments(path, '/')));
    } else if c > k {
        assert(!route_matches(t.entries()[k], method, segments(path, '/')));
    }
}

/// What a table built from `routes` is: each input route once, compiled,
/// in priority order.
pub open spec fn built_from(t: RouteTable, routes: Seq<MockRoute>) -> bool {
    &&& t.entries().len() == routes.len()
    &&& forall|k: int| 0 <= k < routes.len() ==> 0 <= #[trigger] t.source_index(k) < routes.len()
    &&& forall|p: int, q: int|
        0 <= p < q < routes.len() ==> #[trigger] t.source_index(p) != #[trigger] t.source_index(q)
    &&& forall|k: int|
        0 <= k < routes.len() ==> (#[trigger] t.entries()[k]).route == routes[t.source_index(k)]
    &&& forall|k: int| 0 <= k < routes.len() ==> compiled_ok(#[trigger] t.entries()[k])
    &&& forall|p: int, q: int|
        0 <= p < q < routes.len() ==> route_before(
            #[trigger] t.entries()[p],
            t.source_index(p),
            #[trigger] t.entries()[q],
            t.source_index(q),
        )
}

/// Input route `r` serves `method` on the path pieces `req`.
pub open spec fn input_matches(r: MockRoute, method: HttpMethod, req: Seq<Seq<char>>) -> bool {
    r.method == method && all_segments_match(compiled_path(r.path@), req)
}

/// Some entry of `t` among the first `n` came from input route `i`.
pub open spec fn sourced(t: RouteTable, n: int, i: int) -> bool {
    exists|k: int| 0 <= k < n && #[trigger] t.source_index(k) == i
}

proof fn lemma_sources_onto(t: RouteTable, routes: Seq<MockRoute>)
    requires
        built_from(t, routes),
    ensures
        forall|i: int| 0 <= i < routes.len() ==> #[trigger] sourced(t, routes.len() as int, i),
{
    let n = routes.len() as int;
    let x = vstd::set_lib::set_int_range(0, n);
    let f = |k: int| t.source_index(k);
    vstd::set_lib::lemma_int_range(0, n);
    assert(vstd::relations::injective_on(f, x)) by {
        assert forall|a: int, b: int| x.contains(a) && x.contains(b) && #[trigger] f(a) == #[trigger] f(b) implies a == b by {
            if a < b {
                assert(t.source_index(a) != t.source_index(b));
            } else if b < a {
                assert(t.source_index(b) != t.source_index(a));
            }
        }
    }
    let y = x.map(f);
    vstd::set_lib::lemma_map_size(x, y, f);
    assert(y.subset_of(x)) by {
        assert forall|v: int| y.contains(v) implies x.contains(v) by {
            let k = choose|k: int| x.contains(k) && f(k) == v;
            assert(0 <= t.source_index(k) < n);
        }
    }
    vstd::set_lib::lemma_subset_equality(y, x);
    assert forall|i: int| 0 <= i < n implies #[trigger] sourced(t, n, i) by {
        assert(x.contains(i));
        assert(y.contains(i));
        let k = choose|k: int| x.contains(k) && f(k) == i;
        assert(0 <= k < n && t.source_index(k) == i);
    }
}

/// The route a table serves, stated over the routes it was built from:
/// the serving entry is an input route that matches, and no matching input
/// route has more literal segments.
pub proof fn law_served_over_inputs(t: RouteTable, routes: Seq<MockRoute>, method: HttpMethod, path: Seq<char>, k: int)
    requires
        built_from(t, routes),
        0 <= k < t.entries().len(),
        route_matches(t.entries()[k], method, segments(path, '/')),
        forall|j: int|
            0 <= j < t.entries().len() && route_matches(#[trigger] t.entries()[j], method, segments(path, '/'))
                ==> t.entries()[j].literal_count <= t.entries()[k].literal_count,
    ensures
        t.entries()[k].route == routes[t.source_index(k)],
        input_matches(routes[t.source_index(k)], method, segments(path, '/')),
        forall|i: int|
            0 <= i < routes.len() && input_matches(#[trigger] routes[i], method, segments(path, '/')) ==> literal_count(
                compiled_path(routes[i].path@),
            ) <= literal_count(compiled_path(routes[t.source_index(k)].path@)),
{
    let req = segments(path, '/');
    lemma_sources_onto(t, routes);
    assert(compiled_ok(t.entries()[k]));
    assert forall|i: int|
        0 <= i < routes.len() && input_matches(#[trigger] routes[i], method, req) implies literal_count(
            compiled_path(routes[i].path@),
        ) <= literal_count(compiled_path(routes[t.source_index(k)].path@)) by {
        assert(sourced(t, routes.len() as int, i));
        let q = choose|q: int| 0 <= q < routes.len() && t.source_index(q) == i;
        assert(compiled_ok(t.entries()[q]));
        assert(route_matches(t.entries()[q], method, req));
    }
}

/// Route matching stated over the routes a table was built from: some
/// entry of the table serves a request exactly when some input route
/// does, and an entry that serves it is the input route it came from.
pub proof fn law_match_over_inputs(t: RouteTable, routes: Seq<MockRoute>, method: HttpMethod, path: Seq<char>)
    requires
        built_from(t, routes),
    ensures
        (exists|k: int| 0 <= k < t.entries().len() && route_matches(#[trigger] t.entries()[k], method, segments(path, '/')))
            <==> (exists|i: int| 0 <= i < routes.len() && input_matches(#[trigger] routes[i], method, segments(path, '/'))),
        forall|k: int|
            0 <= k < t.entries().len() && route_matches(#[trigger] t.entries()[k], method, segments(path, '/'))
                ==> input_matches(routes[t.source_index(k)], method, segments(path, '/')),
{
    let req = segments(path, '/');
    let n = routes.len() as int;
    assert forall|k: int| 0 <= k < n implies route_matches(#[trigger] t.entries()[k], method, req) == input_matches(
        routes[t.source_index(k)],
        method,
        req,
    ) by {
        assert(compiled_ok(t.entries()[k]));
    }
    lemma_sources_onto(t, routes);
    if exists|i: int| 0 <= i < n && input_matches(#[trigger] routes[i], method, req) {
        let i = choose|i: int| 0 <= i < n && input_matches(#[trigger] routes[i], method, req);
        assert(sourced(t, n, i));
        let k = choose|k: int| 0 <= k < n && t.source_index(k) == i;
        assert(route_matches(t.entries()[k], method, req));
    }
    if exists|k: int| 0 <= k < t.entries().len() && route_matches(#[trigger] t.entries()[k], method, req) {
        let k = choose|k: int| 0 <= k < t.entries().len() && route_matches(#[trigger] t.entries()[k], method, req);
        assert(input_matches(routes[t.source_index(k)], method, req));
    }
}

/// Routes tried in priority order: literal matches are preferred over
/// parameter wildcards.
#[derive(Debug)]
pub struct RouteTable {
    routes: Vec<CompiledRoute>,
    order: Vec<usize>,
}

impl RouteTable {
    #[verifier::type_invariant]
    spec fn inv(self) -> bool {
        &&& self.order@.len() == self.routes@.len()
        &&& forall|k: int| 0 <= k < self.order@.len() ==> #[trigger] self.order@[k] < self.routes@.len()
        &&& forall|p: int, q: int|
            0 <= p < q < self.order@.len() ==> #[trigger] self.order@[p] != #[trigger] self.order@[q]
        &&& forall|p: int, q: int|
            0 <= p < q < self.order@.len() ==> route_before(
                self.routes@[#[trigger] self.order@[p] as int],
                self.order@[p] as int,
                self.routes@[#[trigger] self.order@[q] as int],
                self.order@[q] as int,
            )
        &&& forall|k: int| 0 <= k < self.routes@.len() ==> compiled_ok(#[trigger] self.routes@[k])
    }

    /// The routes in the order in which they are tried.
    pub closed spec fn entries(&self) -> Seq<CompiledRoute> {
        self.order@.map_values(|k: usize| self.routes@[k as int])
    }

    /// Input position of the `k`-th tried route.
    pub closed spec fn source_index(&self, k: int) -> int {
        self.order@[k] as int
    }

    pub fn from_routes(routes: Vec<MockRoute>) -> (t: Self)
        ensures
            built_from(t, routes@),
    {
        let mut compiled: Vec<CompiledRoute> = Vec::new();
        let mut routes = routes;
        let ghost input = routes@;
        while routes.len() > 0
            invariant
                compiled@.len() + routes@.len() == input.len(),
                routes@ == input.subrange(compiled@.len() as int, input.len() as int),
                forall|k: int| 0 <= k < compiled@.len() ==> (#[trigger] compiled@[k]).route == input[k],
                forall|k: int| 0 <= k < compiled@.len() ==> compiled_ok(#[trigger] compiled@[k]),
            decreases routes@.len(),
        {
            let r = routes.remove(0);
            proof {
                assert(r == input[compiled@.len() as int]);
                assert(routes@ =~= input.subrange(compiled@.len() as int + 1, input.len() as int));
            }
            compiled.push(CompiledRoute::new(r));
        }
        let n = compiled.len();
        let mut order: Vec<usize> = Vec::new();
        let mut i: usize = 0;
        while i < n
            invariant
                i <= n,
                n == compiled@.len(),
                order@.len() == i,
                forall|k: int| 0 <= k < order@.len() ==> #[trigger] order@[k] < i,
                forall|p: int, q: int| 0 <= p < q < order@.len() ==> #[trigger] order@[p] != #[trigger] order@[q],
                forall|p: int, q: int|
                    0 <= p < q < order@.len() ==> route_before(
                        compiled@[#[trigger] order@[p] as int],
                        order@[p] as int,
                        compiled@[#[trigger] order@[q] as int],
                        order@[q] as int,
                    ),
            decreases n - i,
        {
            // Find the first position whose entry comes after route `i`.
            let mut p: usize = 0;
            while p < order.len() && !Self::before_of(&compiled, i, order[p])
                invariant
                    p <= order@.len(),
                    i < compiled@.len(),
                    forall|k: int| 0 <= k < order@.len() ==> #[trigger] order@[k] < i,
                    forall|k: int| 0 <= k < p ==> !route_before(compiled@[i as int], i as int, compiled@[#[trigger] order@[k] as int], order@[k] as int),
                decreases order@.len() - p,
            {
                p += 1;
            }
            let ghost prev = order@;
            order.insert(p, i);
            proof {
                assert forall|p2: int, q2: int| 0 <= p2 < q2 < order@.len() implies route_before(
                    compiled@[#[trigger] order@[p2] as int],
                    order@[p2] as int,
                    compiled@[#[trigger] order@[q2] as int],
                    order@[q2] as int,
                ) by {
                    let ip = i as int;
                    if p2 < p && q2 == p {
                        lemma_before_total(compiled@[prev[p2] as int], prev[p2] as int, compiled@[ip], ip);
                    } else if p2 < p && q2 > p {
                        assert(order@[q2] == prev[q2 - 1]);
                    } else if p2 == p && q2 > p {
                        assert(order@[q2] == prev[q2 - 1]);
                        if q2 - 1 > p as int {
                            lemma_before_trans(compiled@[ip], ip, compiled@[prev[p as int] as int], prev[p as int] as int, compiled@[prev[q2 - 1] as int], prev[q2 - 1] as int);
                        }
                    } else if p2 > p {
                        assert(order@[p2] == prev[p2 - 1]);
                        assert(order@[q2] == prev[q2 - 1]);
                    }
                }
            }
            i += 1;
        }
        let t = RouteTable { routes: compiled, order };
        proof {
            assert forall|k: int| 0 <= k < input.len() implies (#[trigger] t.entries()[k]).route == input[t.source_index(k)] by {
            }
        }
        t
    }

    fn before_of(compiled: &Vec<CompiledRoute>, a: usize, b: usize) -> (r: bool)
        requires
            a < compiled@.len(),
            b < compiled@.len(),
        ensures
            r == route_before(compiled@[a as int], a as int, compiled@[b as int], b as int),
    {
        let x = &compiled[a];
        let y = &compiled[b];
        if x.literal_count != y.literal_count {
            return x.literal_count > y.literal_count;
        }
        if x.segments.len() != y.segments.len() {
            return x.segments.len() > y.segments.len();
        }
        let px = chars_of(x.route.path.as_str());
        let py = chars_of(y.route.path.as_str());
        if chars_lt(&px, &py) {
            return true;
        }
        if chars_eq(&px, &py) {
            return a < b;
        }
        false
    }

    /// The first route, in priority order, whose method equals `method` and
    /// whose segments match the non-empty pieces of `path`. A literal segment
    /// must equal its piece; a parameter binds it. Among all matching routes
    /// the result has the most literal segments.
    pub fn match_route<'a>(&'a self, method: &HttpMethod, path: &str) -> (r: Option<MatchedRoute<'a>>)
        ensures
            match r {
                None => forall|k: int|
                    0 <= k < self.entries().len() ==> !route_matches(
                        #[trigger] self.entries()[k],
                        *method,
                        segments(path@, '/'),
                    ),
                Some(m) => exists|k: int|
                    0 <= k < self.entries().len() && route_matches(
                        #[trigger] self.entries()[k],
                        *method,
                        segments(path@, '/'),
                    ) && *m.route == self.entries()[k].route && param_views(m.params@) == bindings(
                        segment_views(self.entries()[k].segments@),
                        segments(path@, '/'),
                    ) && (forall|j: int|
                        0 <= j < k ==> !route_matches(
                            #[trigger] self.entries()[j],
                            *method,
                            segments(path@, '/'),
                        )) && (forall|j: int|
                        0 <= j < self.entries().len() && route_matches(
                            #[trigger] self.entries()[j],
                            *method,
                            segments(path@, '/'),
                        ) ==> self.entries()[j].literal_count <= self.entries()[k].literal_count),
            },
    {
        proof {
            use_type_invariant(self);
        }
        let chars = chars_of(path);
        let req = segments_of(&chars, '/');
        let ghost rq = segments(path@, '/');
        let mut k: usize = 0;
        while k < self.order.len()
            invariant
                k <= self.order@.len(),
                views(req@) == rq,
                rq == segments(path@, '/'),
                self.order@.len() == self.routes@.len(),
                forall|x: int| 0 <= x < self.order@.len() ==> #[trigger] self.order@[x] < self.routes@.len(),
                forall|j: int|
                    0 <= j < k ==> !route_matches(#[trigger] self.entries()[j], *method, rq),
            decreases self.order@.len() - k,
        {
            let idx = self.order[k];
            let candidate = &self.routes[idx];
            if candidate.route.method == *method && candidate.segments.len() == req.len() {
                match Self::bind(&candidate.segments, &req) {
                    Some(params) => {
                        proof {
                            use_type_invariant(self);
                            assert(self.entries()[k as int] == *candidate);
                            assert(route_matches(self.entries()[k as int], *method, rq));
                            assert forall|j: int|
                                0 <= j < self.entries().len() && route_matches(
                                    #[trigger] self.entries()[j],
                                    *method,
                                    rq,
                                ) implies self.entries()[j].literal_count <= self.entries()[k as int].literal_count by {
                                if j > k {
                                    assert(self.order@[k as int] != self.order@[j]);
                                }
                            }
                        }
                        return Some(MatchedRoute { route: &candidate.route, params });
                    },
                    None => {},
                }
            }
            proof {
                assert(self.entries()[k as int] == *candidate);
            }
            k += 1;
        }
        None
    }

    /// Bindings of the parameter segments, or `None` when a literal differs.
    fn bind(segs: &Vec<PathSegment>, req: &Vec<Vec<char>>) -> (r: Option<Vec<(String, String)>>)
        requires
            segs@.len() == req@.len(),
        ensures
            match r {
                Some(p) => all_segments_match(segment_views(segs@), views(req@)) && param_views(p@)
                    == bindings(segment_views(segs@), views(req@)),
                None => !all_segments_match(segment_views(segs@), views(req@)),
            },
    {
        let mut params: Vec<(String, String)> = Vec::new();
        let mut i: usize = 0;
        while i < segs.len()
            invariant
                i <= segs@.len(),
                segs@.len() == req@.len(),
                forall|j: int| 0 <= j < i ==> segment_matches(segment_view(#[trigger] segs@[j]), req@[j]@),
                param_views(params@) == bindings(
                    segment_views(segs@.subrange(0, i as int)),
                    views(req@.subrange(0, i as int)),
                ),
            decreases segs@.len() - i,
        {
            proof {
                assert(segment_views(segs@.subrange(0, i + 1)).drop_last() =~= segment_views(
                    segs@.subrange(0, i as int),
                ));
                assert(views(req@.subrange(0, i + 1)).drop_last() =~= views(req@.subrange(0, i as int)));
            }
            match &segs[i] {
                PathSegment::Literal(lit) => {
                    let l = chars_of(lit.as_str());
                    if !chars_eq(&l, &req[i]) {
                        proof {
                            assert(!segment_matches(segment_view(segs@[i as int]), req@[i as int]@));
                            assert(segment_views(segs@)[i as int] == segment_view(segs@[i as int]));
                            assert(views(req@)[i as int] == req@[i as int]@);
                        }
                        return None;
                    }
                },
                PathSegment::Param(name) => {
                    let ghost before = params@;
                    params.push((name.clone(), string_of(&req[i])));
                    proof {
                        assert(param_views(params@) =~= param_views(before).push((name@, req@[i as int]@)));
                    }
                },
            }
            i += 1;
        }
        proof {
            assert(segs@.subrange(0, segs@.len() as int) =~= segs@);
            assert(req@.subrange(0, req@.len() as int) =~= req@);
            assert forall|j: int| 0 <= j < segs@.len() implies segment_matches(
                #[trigger] segment_views(segs@)[j],
                views(req@)[j],
            ) by {
                assert(segment_views(segs@)[j] == segment_view(segs@[j]));
                assert(views(req@)[j] == req@[j]@);
            }
        }
        Some(params)
    }

    /// The `(method, path)` of every route, in the order they are tried.
    pub fn route_pairs(&self) -> (r: Vec<(HttpMethod, String)>)
        ensures
            r@.len() == self.entries().len(),
            forall|k: int|
                0 <= k < r@.len() ==> (#[trigger] r@[k]).0 == self.entries()[k].route.method && r@[k].1@
                    == self.entries()[k].route.path@,
    {
        proof {
            use_type_invariant(self);
        }
        let mut out: Vec<(HttpMethod, String)> = Vec::new();
        let mut k: usize = 0;
        while k < self.order.len()
            invariant
                k <= self.order@.len(),
                self.order@.len() == self.routes@.len(),
                forall|x: int| 0 <= x < self.order@.len() ==> #[trigger] self.order@[x] < self.routes@.len(),
                out@.len() == k,
                forall|j: int|
                    0 <= j < k ==> (#[trigger] out@[j]).0 == self.entries()[j].route.method && out@[j].1@
                        == self.entries()[j].route.path@,
            decreases self.order@.len() - k,
        {
            let r = &self.routes[self.order[k]].route;
            out.push((r.method, r.path.clone()));
            k += 1;
        }
        out
    }

    pub fn len(&self) -> (n: usize)
        ensures
            n == self.entries().len(),
    {
        proof {
            use_type_invariant(self);
        }
        self.routes.len()
    }

    pub fn is_empty(&self) -> (b: bool)
        ensures
            b == (self.entries().len() == 0),
    {
        proof {
            use_type_invariant(self);
        }
        self.routes.len() == 0
    }
}

} // verus!
