//! What a re-import changes: endpoints keyed by method and path are
//! compared with the stored collection and reported as added, removed,
//! changed (with reasons and per-field details) or unchanged. Endpoints,
//! parameters and responses are each taken as a key-ordered map, where a
//! later entry replaces an earlier one with the same key.
use vstd::prelude::*;
use crate::canonical::{
    CanonicalApiCollection, CanonicalEndpoint, CanonicalParameter, CanonicalRequestBody, CanonicalResponse,
    eq_schema, lemma_eq_schema_refl, schema_equal, text_opt_equal, text_view, texts_equal, texts_view,
};
use crate::model::{AuthRequirement, HttpMethod, ParameterLocation, method_text};
use crate::text::{
    append, append_str, chars_eq, chars_lt, chars_of, join, lemma_seq_lt_total, lemma_seq_lt_trans, seq_lt, string_of, views,
};

verus! {

/// One endpoint in a diff: its method, path and summary, and for a changed
/// endpoint why and what changed.
#[derive(Debug, Clone, PartialEq, Eq)]
pub struct ImportEndpointChange {
    pub method: String,
    pub path: String,
    pub summary: Option<String>,
    pub reasons: Vec<String>,
    pub details: Vec<String>,
}

#[derive(Debug, Clone, PartialEq, Eq)]
pub struct ImportDiffSummary {
    pub added: Vec<ImportEndpointChange>,
    pub removed: Vec<ImportEndpointChange>,
    pub changed: Vec<ImportEndpointChange>,
    pub unchanged: usize,
}

/// What an import stored: the collection, its endpoint count, the database
/// and the diff against what was there before.
#[derive(Debug, Clone)]
pub struct ImportResult {
    pub collection_id: String,
    pub collection_name: String,
    pub endpoint_count: usize,
    pub database_url: String,
    pub diff: ImportDiffSummary,
}

#[derive(Debug, Clone)]
pub struct BundleImportResult {
    pub database_url: String,
    pub imported: Vec<ImportResult>,
}

/// A change entry as the spec reads it.
pub struct ChangeView {
    pub method: Seq<char>,
    pub path: Seq<char>,
    pub summary: Option<Seq<char>>,
    pub reasons: Seq<Seq<char>>,
    pub details: Seq<Seq<char>>,
}

pub open spec fn strings(v: Seq<String>) -> Seq<Seq<char>> {
    texts_view(v)
}

pub open spec fn change_view(c: ImportEndpointChange) -> ChangeView {
    ChangeView {
        method: c.method@,
        path: c.path@,
        summary: text_view(c.summary),
        reasons: strings(c.reasons@),
        details: strings(c.details@),
    }
}

pub open spec fn changes_view(v: Seq<ImportEndpointChange>) -> Seq<ChangeView> {
    v.map_values(|c: ImportEndpointChange| change_view(c))
}

/// An endpoint's entry with the given reasons and details.
pub open spec fn entry_of(e: CanonicalEndpoint, reasons: Seq<Seq<char>>, details: Seq<Seq<char>>) -> ChangeView {
    ChangeView { method: method_text(e.method), path: e.path@, summary: text_view(e.summary), reasons, details }
}

// ---------------------------------------------------------------------
// Key-ordered maps, as index lists into the original sequence.

pub open spec fn key_lt(a: (Seq<char>, Seq<char>), b: (Seq<char>, Seq<char>)) -> bool {
    seq_lt(a.0, b.0) || (a.0 == b.0 && seq_lt(a.1, b.1))
}

/// Where key `k` goes in `m` (indices into `keys`, in key order).
pub open spec fn kpos(m: Seq<usize>, keys: Seq<(Seq<char>, Seq<char>)>, k: (Seq<char>, Seq<char>)) -> int
    decreases m.len(),
{
    if m.len() == 0 {
        0
    } else if key_lt(keys[m[0] as int], k) {
        1 + kpos(m.subrange(1, m.len() as int), keys, k)
    } else {
        0
    }
}

/// `m` after entry `i` goes in: it replaces the entry with its key, else
/// it is placed where the order puts it.
pub open spec fn kinsert(m: Seq<usize>, keys: Seq<(Seq<char>, Seq<char>)>, i: usize) -> Seq<usize> {
    let p = kpos(m, keys, keys[i as int]);
    if p < m.len() && keys[m[p] as int] == keys[i as int] {
        m.update(p, i)
    } else {
        m.insert(p, i)
    }
}

/// The entries `keys[..n]` as a key-ordered map, later ones winning.
pub open spec fn keyed(keys: Seq<(Seq<char>, Seq<char>)>, n: int) -> Seq<usize>
    decreases n,
{
    if n <= 0 {
        Seq::empty()
    } else {
        kinsert(keyed(keys, n - 1), keys, (n - 1) as usize)
    }
}

/// The first position of `m` whose entry has key `k`.
pub open spec fn kfind(m: Seq<usize>, keys: Seq<(Seq<char>, Seq<char>)>, k: (Seq<char>, Seq<char>)) -> Option<int>
    decreases m.len(),
{
    if m.len() == 0 {
        None
    } else if keys[m[0] as int] == k {
        Some(0)
    } else {
        match kfind(m.subrange(1, m.len() as int), keys, k) {
            Some(q) => Some(q + 1),
            None => None,
        }
    }
}

pub open spec fn kviews(keys: Seq<(Vec<char>, Vec<char>)>) -> Seq<(Seq<char>, Seq<char>)> {
    keys.map_values(|k: (Vec<char>, Vec<char>)| (k.0@, k.1@))
}

pub open spec fn indices_below(m: Seq<usize>, n: int) -> bool {
    forall|j: int| 0 <= j < m.len() ==> (#[trigger] m[j]) < n
}

proof fn lemma_kpos(m: Seq<usize>, keys: Seq<(Seq<char>, Seq<char>)>, k: (Seq<char>, Seq<char>), p: int)
    requires
        0 <= p <= m.len(),
        forall|j: int| 0 <= j < p ==> key_lt(keys[#[trigger] m[j] as int], k),
        p == m.len() || !key_lt(keys[m[p] as int], k),
    ensures
        kpos(m, keys, k) == p,
    decreases m.len(),
{
    if m.len() > 0 && p > 0 {
        let t = m.subrange(1, m.len() as int);
        assert forall|j: int| 0 <= j < p - 1 implies key_lt(keys[#[trigger] t[j] as int], k) by {
            assert(t[j] == m[j + 1]);
        }
        if p < m.len() {
            assert(t[p - 1] == m[p]);
        }
        lemma_kpos(t, keys, k, p - 1);
    }
}

proof fn lemma_kfind(m: Seq<usize>, keys: Seq<(Seq<char>, Seq<char>)>, k: (Seq<char>, Seq<char>))
    ensures
        match kfind(m, keys, k) {
            Some(q) => 0 <= q < m.len() && keys[m[q] as int] == k,
            None => forall|j: int| 0 <= j < m.len() ==> keys[#[trigger] m[j] as int] != k,
        },
    decreases m.len(),
{
    if m.len() > 0 {
        let t = m.subrange(1, m.len() as int);
        lemma_kfind(t, keys, k);
        assert forall|j: int| 1 <= j < m.len() implies #[trigger] m[j] == t[j - 1] by {}
    }
}

fn pair_lt(a: &(Vec<char>, Vec<char>), b: &(Vec<char>, Vec<char>)) -> (r: bool)
    ensures
        r == key_lt((a.0@, a.1@), (b.0@, b.1@)),
{
    chars_lt(&a.0, &b.0) || (chars_eq(&a.0, &b.0) && chars_lt(&a.1, &b.1))
}

fn pair_eq(a: &(Vec<char>, Vec<char>), b: &(Vec<char>, Vec<char>)) -> (r: bool)
    ensures
        r == ((a.0@, a.1@) == (b.0@, b.1@)),
{
    chars_eq(&a.0, &b.0) && chars_eq(&a.1, &b.1)
}

/// The entries of `keys` as a key-ordered map (see `keyed`).
fn keyed_of(keys: &Vec<(Vec<char>, Vec<char>)>) -> (r: Vec<usize>)
    ensures
        r@ == keyed(kviews(keys@), keys@.len() as int),
        indices_below(r@, keys@.len() as int),
{
    let ghost ks = kviews(keys@);
    let mut m: Vec<usize> = Vec::new();
    let mut i: usize = 0;
    while i < keys.len()
        invariant
            i <= keys@.len(),
            ks == kviews(keys@),
            m@ == keyed(ks, i as int),
            indices_below(m@, i as int),
        decreases keys.len() - i,
    {
        let mut p: usize = 0;
        while p < m.len() && pair_lt(&keys[m[p]], &keys[i])
            invariant
                p <= m@.len(),
                i < keys@.len(),
                ks == kviews(keys@),
                indices_below(m@, i as int),
                forall|j: int| 0 <= j < p ==> key_lt(ks[#[trigger] m@[j] as int], ks[i as int]),
            decreases m.len() - p,
        {
            p += 1;
        }
        proof {
            lemma_kpos(m@, ks, ks[i as int], p as int);
        }
        if p < m.len() && pair_eq(&keys[m[p]], &keys[i]) {
            m.set(p, i);
        } else {
            m.insert(p, i);
        }
        proof {
            assert(indices_below(m@, i + 1)) by {
                assert forall|j: int| 0 <= j < m@.len() implies (#[trigger] m@[j]) < i + 1 by {
                    if m@[j] != i {
                    }
                }
            }
        }
        i += 1;
    }
    m
}

/// The first position of `m` whose entry has key `k` (see `kfind`).
fn find_in(m: &Vec<usize>, keys: &Vec<(Vec<char>, Vec<char>)>, k: &(Vec<char>, Vec<char>)) -> (r: Option<usize>)
    requires
        indices_below(m@, keys@.len() as int),
    ensures
        match kfind(m@, kviews(keys@), (k.0@, k.1@)) {
            Some(q) => r == Some(q as usize) && 0 <= q < m@.len(),
            None => r is None,
        },
{
    let ghost ks = kviews(keys@);
    let mut q: usize = 0;
    proof {
        lemma_kfind(m@, ks, (k.0@, k.1@));
        assert(m@.subrange(0, m@.len() as int) =~= m@);
    }
    while q < m.len()
        invariant
            q <= m@.len(),
            indices_below(m@, keys@.len() as int),
            ks == kviews(keys@),
            forall|j: int| 0 <= j < q ==> ks[#[trigger] m@[j] as int] != (k.0@, k.1@),
            kfind(m@, ks, (k.0@, k.1@)) == match kfind(m@.subrange(q as int, m@.len() as int), ks, (k.0@, k.1@)) {
                Some(x) => Some(x + q),
                None => None,
            },
        decreases m.len() - q,
    {
        proof {
            let t = m@.subrange(q as int, m@.len() as int);
            assert(t[0] == m@[q as int]);
            assert(t.subrange(1, t.len() as int) =~= m@.subrange(q + 1, m@.len() as int));
        }
        if pair_eq(&keys[m[q]], k) {
            return Some(q);
        }
        q += 1;
    }
    proof {
        assert(m@.subrange(q as int, m@.len() as int).len() == 0);
    }
    None
}

// ---------------------------------------------------------------------
// Contract comparison.

pub open spec fn eq_param(a: CanonicalParameter, b: CanonicalParameter) -> bool {
    a.name@ == b.name@ && a.location == b.location && text_view(a.description) == text_view(b.description)
        && a.required == b.required && eq_schema(a.schema, b.schema)
}

pub open spec fn eq_params(a: Seq<CanonicalParameter>, b: Seq<CanonicalParameter>) -> bool {
    a.len() == b.len() && forall|i: int| 0 <= i < a.len() ==> eq_param(#[trigger] a[i], b[i])
}

pub open spec fn eq_body(a: Option<CanonicalRequestBody>, b: Option<CanonicalRequestBody>) -> bool {
    match (a, b) {
        (None, None) => true,
        (Some(x), Some(y)) => x.content_type@ == y.content_type@ && x.required == y.required && eq_schema(
            x.schema,
            y.schema,
        ),
        _ => false,
    }
}

pub open spec fn eq_schema_opt(a: Option<crate::canonical::SchemaNode>, b: Option<crate::canonical::SchemaNode>) -> bool {
    match (a, b) {
        (None, None) => true,
        (Some(x), Some(y)) => eq_schema(x, y),
        _ => false,
    }
}

pub open spec fn eq_response(a: CanonicalResponse, b: CanonicalResponse) -> bool {
    a.status_code@ == b.status_code@ && text_view(a.description) == text_view(b.description) && a.content_type@
        == b.content_type@ && eq_schema_opt(a.schema, b.schema)
}

pub open spec fn eq_responses(a: Seq<CanonicalResponse>, b: Seq<CanonicalResponse>) -> bool {
    a.len() == b.len() && forall|i: int| 0 <= i < a.len() ==> eq_response(#[trigger] a[i], b[i])
}

pub open spec fn eq_auth(a: Option<AuthRequirement>, b: Option<AuthRequirement>) -> bool {
    match (a, b) {
        (None, None) => true,
        (Some(x), Some(y)) => x.scheme == y.scheme && x.header_name@ == y.header_name@ && text_view(x.value_prefix)
            == text_view(y.value_prefix) && text_view(x.description) == text_view(y.description),
        _ => false,
    }
}

pub open spec fn eq_meta(a: CanonicalEndpoint, b: CanonicalEndpoint) -> bool {
    text_view(a.operation_id) == text_view(b.operation_id) && text_view(a.summary) == text_view(b.summary)
        && text_view(a.description) == text_view(b.description) && texts_view(a.tags@) == texts_view(b.tags@)
}

/// Two endpoints make the same contract: everything but their examples
/// agrees.
pub open spec fn eq_contract(a: CanonicalEndpoint, b: CanonicalEndpoint) -> bool {
    eq_meta(a, b) && a.method == b.method && a.path@ == b.path@ && eq_params(a.parameters@, b.parameters@)
        && eq_body(a.request_body, b.request_body) && eq_responses(a.responses@, b.responses@) && eq_auth(
        a.auth,
        b.auth,
    )
}

fn param_equal(a: &CanonicalParameter, b: &CanonicalParameter) -> (r: bool)
    ensures
        r == eq_param(*a, *b),
{
    a.name == b.name && a.location == b.location && text_opt_equal(&a.description, &b.description) && a.required
        == b.required && schema_equal(&a.schema, &b.schema)
}

fn params_equal(a: &Vec<CanonicalParameter>, b: &Vec<CanonicalParameter>) -> (r: bool)
    ensures
        r == eq_params(a@, b@),
{
    if a.len() != b.len() {
        return false;
    }
    let mut i: usize = 0;
    while i < a.len()
        invariant
            i <= a@.len(),
            a@.len() == b@.len(),
            forall|k: int| 0 <= k < i ==> eq_param(#[trigger] a@[k], b@[k]),
        decreases a.len() - i,
    {
        if !param_equal(&a[i], &b[i]) {
            return false;
        }
        i += 1;
    }
    true
}

fn body_equal(a: &Option<CanonicalRequestBody>, b: &Option<CanonicalRequestBody>) -> (r: bool)
    ensures
        r == eq_body(*a, *b),
{
    match (a, b) {
        (None, None) => true,
        (Some(x), Some(y)) => x.content_type == y.content_type && x.required == y.required && schema_equal(
            &x.schema,
            &y.schema,
        ),
        _ => false,
    }
}

fn schema_opt_equal(a: &Option<crate::canonical::SchemaNode>, b: &Option<crate::canonical::SchemaNode>) -> (r: bool)
    ensures
        r == eq_schema_opt(*a, *b),
{
    match (a, b) {
        (None, None) => true,
        (Some(x), Some(y)) => schema_equal(x, y),
        _ => false,
    }
}

fn response_equal(a: &CanonicalResponse, b: &CanonicalResponse) -> (r: bool)
    ensures
        r == eq_response(*a, *b),
{
    a.status_code == b.status_code && text_opt_equal(&a.description, &b.description) && a.content_type
        == b.content_type && schema_opt_equal(&a.schema, &b.schema)
}

fn responses_equal(a: &Vec<CanonicalResponse>, b: &Vec<CanonicalResponse>) -> (r: bool)
    ensures
        r == eq_responses(a@, b@),
{
    if a.len() != b.len() {
        return false;
    }
    let mut i: usize = 0;
    while i < a.len()
        invariant
            i <= a@.len(),
            a@.len() == b@.len(),
            forall|k: int| 0 <= k < i ==> eq_response(#[trigger] a@[k], b@[k]),
        decreases a.len() - i,
    {
        if !response_equal(&a[i], &b[i]) {
            return false;
        }
        i += 1;
    }
    true
}

fn auth_equal(a: &Option<AuthRequirement>, b: &Option<AuthRequirement>) -> (r: bool)
    ensures
        r == eq_auth(*a, *b),
{
    match (a, b) {
        (None, None) => true,
        (Some(x), Some(y)) => x.scheme == y.scheme && x.header_name == y.header_name && text_opt_equal(
            &x.value_prefix,
            &y.value_prefix,
        ) && text_opt_equal(&x.description, &y.description),
        _ => false,
    }
}

fn meta_equal(a: &CanonicalEndpoint, b: &CanonicalEndpoint) -> (r: bool)
    ensures
        r == eq_meta(*a, *b),
{
    text_opt_equal(&a.operation_id, &b.operation_id) && text_opt_equal(&a.summary, &b.summary) && text_opt_equal(
        &a.description,
        &b.description,
    ) && texts_equal(&a.tags, &b.tags)
}

fn contract_equal(a: &CanonicalEndpoint, b: &CanonicalEndpoint) -> (r: bool)
    ensures
        r == eq_contract(*a, *b),
{
    meta_equal(a, b) && a.method == b.method && a.path == b.path && params_equal(&a.parameters, &b.parameters)
        && body_equal(&a.request_body, &b.request_body) && responses_equal(&a.responses, &b.responses)
        && auth_equal(&a.auth, &b.auth)
}

// ---------------------------------------------------------------------
// Keys and labels.

pub open spec fn location_label(l: ParameterLocation) -> Seq<char> {
    match l {
        ParameterLocation::Path => "path"@,
        ParameterLocation::Query => "query"@,
        ParameterLocation::Header => "header"@,
        ParameterLocation::Cookie => "cookie"@,
    }
}

pub open spec fn endpoint_keys(es: Seq<CanonicalEndpoint>) -> Seq<(Seq<char>, Seq<char>)> {
    es.map_values(|e: CanonicalEndpoint| (method_text(e.method), e.path@))
}

pub open spec fn param_keys(ps: Seq<CanonicalParameter>) -> Seq<(Seq<char>, Seq<char>)> {
    ps.map_values(|p: CanonicalParameter| (location_label(p.location), p.name@))
}

pub open spec fn status_keys(rs: Seq<CanonicalResponse>) -> Seq<(Seq<char>, Seq<char>)> {
    rs.map_values(|r: CanonicalResponse| (r.status_code@, Seq::<char>::empty()))
}

pub open spec fn opt_or_dash(o: Option<String>) -> Seq<char> {
    match o {
        Some(t) => t@,
        None => "-"@,
    }
}

/// `<label> changed: <before> -> <after>`, a dash for a missing value.
pub open spec fn label_change(label: Seq<char>, a: Option<String>, b: Option<String>) -> Seq<char> {
    label + " changed: "@ + opt_or_dash(a) + " -> "@ + opt_or_dash(b)
}

pub open spec fn list_or_dash(v: Seq<String>) -> Seq<char> {
    if v.len() == 0 {
        "-"@
    } else {
        join(texts_view(v), ", "@)
    }
}

pub open spec fn param_label(p: CanonicalParameter) -> Seq<char> {
    location_label(p.location) + " "@ + p.name@
}

pub open spec fn response_label(r: CanonicalResponse) -> Seq<char> {
    r.status_code@ + " "@ + r.content_type@
}

pub open spec fn required_word(b: bool) -> Seq<char> {
    if b {
        "required"@
    } else {
        "optional"@
    }
}

pub open spec fn bool_text(b: bool) -> Seq<char> {
    if b {
        "true"@
    } else {
        "false"@
    }
}

pub open spec fn body_label(b: CanonicalRequestBody) -> Seq<char> {
    b.content_type@ + " ("@ + required_word(b.required) + ")"@
}

pub open spec fn one_if(c: bool, m: Seq<char>) -> Seq<Seq<char>> {
    if c {
        seq![m]
    } else {
        Seq::empty()
    }
}

// ---------------------------------------------------------------------
// Field-level details.

/// For the next map's entries `[..j]`: added, or changed when the stored
/// parameter differs.
pub open spec fn params_next(prev: Seq<CanonicalParameter>, next: Seq<CanonicalParameter>, pm: Seq<usize>, nm: Seq<usize>, j: int) -> Seq<Seq<char>>
    decreases j,
{
    if j <= 0 || j > nm.len() {
        Seq::empty()
    } else {
        let n = next[nm[j - 1] as int];
        params_next(prev, next, pm, nm, j - 1) + match kfind(pm, param_keys(prev), param_keys(next)[nm[j - 1] as int]) {
            None => seq!["parameter added: "@ + param_label(n)],
            Some(q) => one_if(!eq_param(prev[pm[q] as int], n), "parameter changed: "@ + param_label(n)),
        }
    }
}

/// For the stored map's entries `[..j]`: removed when the next map lacks the key.
pub open spec fn params_gone(prev: Seq<CanonicalParameter>, next: Seq<CanonicalParameter>, pm: Seq<usize>, nm: Seq<usize>, j: int) -> Seq<Seq<char>>
    decreases j,
{
    if j <= 0 || j > pm.len() {
        Seq::empty()
    } else {
        let o = prev[pm[j - 1] as int];
        params_gone(prev, next, pm, nm, j - 1) + one_if(
            kfind(nm, param_keys(next), param_keys(prev)[pm[j - 1] as int]) is None,
            "parameter removed: "@ + param_label(o),
        )
    }
}

pub open spec fn param_details(prev: Seq<CanonicalParameter>, next: Seq<CanonicalParameter>) -> Seq<Seq<char>> {
    let pm = keyed(param_keys(prev), prev.len() as int);
    let nm = keyed(param_keys(next), next.len() as int);
    params_next(prev, next, pm, nm, nm.len() as int) + params_gone(prev, next, pm, nm, pm.len() as int)
}

pub open spec fn body_details(a: Option<CanonicalRequestBody>, b: Option<CanonicalRequestBody>) -> Seq<Seq<char>> {
    match (a, b) {
        (None, None) => Seq::empty(),
        (None, Some(y)) => seq!["request body added: "@ + body_label(y)],
        (Some(x), None) => seq!["request body removed: "@ + body_label(x)],
        (Some(x), Some(y)) => one_if(
            x.content_type@ != y.content_type@,
            "request body content type changed: "@ + x.content_type@ + " -> "@ + y.content_type@,
        ) + one_if(
            x.required != y.required,
            "request body required changed: "@ + bool_text(x.required) + " -> "@ + bool_text(y.required),
        ) + one_if(!eq_schema(x.schema, y.schema), "request body schema changed"@),
    }
}

/// What differs between two responses with one status.
pub open spec fn response_parts(a: CanonicalResponse, b: CanonicalResponse) -> Seq<Seq<char>> {
    one_if(a.content_type@ != b.content_type@, "content type "@ + a.content_type@ + " -> "@ + b.content_type@)
        + one_if(text_view(a.description) != text_view(b.description), "description"@) + one_if(
        !eq_schema_opt(a.schema, b.schema),
        "schema"@,
    )
}

pub open spec fn responses_next(prev: Seq<CanonicalResponse>, next: Seq<CanonicalResponse>, pm: Seq<usize>, nm: Seq<usize>, j: int) -> Seq<Seq<char>>
    decreases j,
{
    if j <= 0 || j > nm.len() {
        Seq::empty()
    } else {
        let n = next[nm[j - 1] as int];
        responses_next(prev, next, pm, nm, j - 1) + match kfind(pm, status_keys(prev), status_keys(next)[nm[j - 1] as int]) {
            None => seq!["response added: "@ + response_label(n)],
            Some(q) => one_if(
                !eq_response(prev[pm[q] as int], n),
                "response changed: "@ + n.status_code@ + " ("@ + join(response_parts(prev[pm[q] as int], n), ", "@)
                    + ")"@,
            ),
        }
    }
}

pub open spec fn responses_gone(prev: Seq<CanonicalResponse>, next: Seq<CanonicalResponse>, pm: Seq<usize>, nm: Seq<usize>, j: int) -> Seq<Seq<char>>
    decreases j,
{
    if j <= 0 || j > pm.len() {
        Seq::empty()
    } else {
        let o = prev[pm[j - 1] as int];
        responses_gone(prev, next, pm, nm, j - 1) + one_if(
            kfind(nm, status_keys(next), status_keys(prev)[pm[j - 1] as int]) is None,
            "response removed: "@ + response_label(o),
        )
    }
}

pub open spec fn response_details(prev: Seq<CanonicalResponse>, next: Seq<CanonicalResponse>) -> Seq<Seq<char>> {
    let pm = keyed(status_keys(prev), prev.len() as int);
    let nm = keyed(status_keys(next), next.len() as int);
    responses_next(prev, next, pm, nm, nm.len() as int) + responses_gone(prev, next, pm, nm, pm.len() as int)
}

/// Why an endpoint's contract changed, in a fixed order; a generic reason
/// when no listed part differs.
pub open spec fn change_reasons(a: CanonicalEndpoint, b: CanonicalEndpoint) -> Seq<Seq<char>> {
    let listed = one_if(!eq_meta(a, b), "metadata changed"@) + one_if(
        !eq_params(a.parameters@, b.parameters@),
        "parameters changed"@,
    ) + one_if(!eq_body(a.request_body, b.request_body), "request body changed"@) + one_if(
        !eq_responses(a.responses@, b.responses@),
        "responses changed"@,
    ) + one_if(!eq_auth(a.auth, b.auth), "auth changed"@);
    if listed.len() == 0 {
        seq!["endpoint contract changed"@]
    } else {
        listed
    }
}

/// What changed in an endpoint, field by field.
pub open spec fn change_details(a: CanonicalEndpoint, b: CanonicalEndpoint) -> Seq<Seq<char>> {
    one_if(
        text_view(a.operation_id) != text_view(b.operation_id),
        label_change("operationId"@, a.operation_id, b.operation_id),
    ) + one_if(text_view(a.summary) != text_view(b.summary), label_change("summary"@, a.summary, b.summary))
        + one_if(text_view(a.description) != text_view(b.description), "description changed"@) + one_if(
        texts_view(a.tags@) != texts_view(b.tags@),
        "tags changed: "@ + list_or_dash(a.tags@) + " -> "@ + list_or_dash(b.tags@),
    ) + param_details(a.parameters@, b.parameters@) + body_details(a.request_body, b.request_body)
        + response_details(a.responses@, b.responses@) + one_if(!eq_auth(a.auth, b.auth), "auth requirement changed"@)
}

// ---------------------------------------------------------------------
// The collection-level diff.

pub open spec fn diff_added(prev: Seq<CanonicalEndpoint>, next: Seq<CanonicalEndpoint>, pm: Seq<usize>, nm: Seq<usize>, j: int) -> Seq<ChangeView>
    decreases j,
{
    if j <= 0 || j > nm.len() {
        Seq::empty()
    } else {
        diff_added(prev, next, pm, nm, j - 1) + if kfind(pm, endpoint_keys(prev), endpoint_keys(next)[nm[j - 1] as int]) is None {
            seq![entry_of(next[nm[j - 1] as int], Seq::empty(), Seq::empty())]
        } else {
            Seq::empty()
        }
    }
}

pub open spec fn diff_changed(prev: Seq<CanonicalEndpoint>, next: Seq<CanonicalEndpoint>, pm: Seq<usize>, nm: Seq<usize>, j: int) -> Seq<ChangeView>
    decreases j,
{
    if j <= 0 || j > nm.len() {
        Seq::empty()
    } else {
        let n = next[nm[j - 1] as int];
        diff_changed(prev, next, pm, nm, j - 1) + match kfind(pm, endpoint_keys(prev), endpoint_keys(next)[nm[j - 1] as int]) {
            Some(q) => if !eq_contract(prev[pm[q] as int], n) {
                seq![entry_of(n, change_reasons(prev[pm[q] as int], n), change_details(prev[pm[q] as int], n))]
            } else {
                Seq::empty()
            },
            None => Seq::empty(),
        }
    }
}

pub open spec fn diff_unchanged(prev: Seq<CanonicalEndpoint>, next: Seq<CanonicalEndpoint>, pm: Seq<usize>, nm: Seq<usize>, j: int) -> nat
    decreases j,
{
    if j <= 0 || j > nm.len() {
        0
    } else {
        diff_unchanged(prev, next, pm, nm, j - 1) + match kfind(pm, endpoint_keys(prev), endpoint_keys(next)[nm[j - 1] as int]) {
            Some(q) => if eq_contract(prev[pm[q] as int], next[nm[j - 1] as int]) {
                1nat
            } else {
                0nat
            },
            None => 0nat,
        }
    }
}

pub open spec fn diff_removed(prev: Seq<CanonicalEndpoint>, next: Seq<CanonicalEndpoint>, pm: Seq<usize>, nm: Seq<usize>, j: int) -> Seq<ChangeView>
    decreases j,
{
    if j <= 0 || j > pm.len() {
        Seq::empty()
    } else {
        diff_removed(prev, next, pm, nm, j - 1) + if kfind(nm, endpoint_keys(next), endpoint_keys(prev)[pm[j - 1] as int]) is None {
            seq![entry_of(prev[pm[j - 1] as int], Seq::empty(), Seq::empty())]
        } else {
            Seq::empty()
        }
    }
}

proof fn lemma_diff_from_empty(prev: Seq<CanonicalEndpoint>, next: Seq<CanonicalEndpoint>, nm: Seq<usize>, j: int)
    requires
        prev.len() == 0,
        0 <= j <= nm.len(),
    ensures
        diff_added(prev, next, Seq::empty(), nm, j) == nm.subrange(0, j).map_values(
            |i: usize| entry_of(next[i as int], Seq::empty(), Seq::empty()),
        ),
        diff_changed(prev, next, Seq::empty(), nm, j) == Seq::<ChangeView>::empty(),
        diff_unchanged(prev, next, Seq::empty(), nm, j) == 0,
    decreases j,
{
    if j > 0 {
        lemma_diff_from_empty(prev, next, nm, j - 1);
        assert(kfind(Seq::empty(), endpoint_keys(prev), endpoint_keys(next)[nm[j - 1] as int]) is None);
        assert(nm.subrange(0, j).map_values(|i: usize| entry_of(next[i as int], Seq::empty(), Seq::empty()))
            =~= nm.subrange(0, j - 1).map_values(|i: usize| entry_of(next[i as int], Seq::empty(), Seq::empty()))
                + seq![entry_of(next[nm[j - 1] as int], Seq::empty(), Seq::empty())]);
    } else {
        assert(nm.subrange(0, 0).map_values(|i: usize| entry_of(next[i as int], Seq::empty(), Seq::empty()))
            =~= Seq::<ChangeView>::empty());
    }
}

/// Diffing a collection against an empty previous import reports each
/// endpoint that the key walk of the new one visits as added, in that
/// order, and nothing as removed, changed or unchanged.
pub proof fn law_diff_from_empty(prev: Seq<CanonicalEndpoint>, next: Seq<CanonicalEndpoint>)
    requires
        prev.len() == 0,
    ensures
        ({
            let pm = keyed(endpoint_keys(prev), prev.len() as int);
            let nm = keyed(endpoint_keys(next), next.len() as int);
            &&& diff_added(prev, next, pm, nm, nm.len() as int) == nm.map_values(
                |i: usize| entry_of(next[i as int], Seq::empty(), Seq::empty()),
            )
            &&& diff_changed(prev, next, pm, nm, nm.len() as int) == Seq::<ChangeView>::empty()
            &&& diff_unchanged(prev, next, pm, nm, nm.len() as int) == 0
            &&& diff_removed(prev, next, pm, nm, pm.len() as int) == Seq::<ChangeView>::empty()
        }),
{
    let pm = keyed(endpoint_keys(prev), prev.len() as int);
    let nm = keyed(endpoint_keys(next), next.len() as int);
    assert(pm =~= Seq::<usize>::empty());
    lemma_diff_from_empty(prev, next, nm, nm.len() as int);
    assert(nm.subrange(0, nm.len() as int) =~= nm);
}

/// The entries of `m` are in strictly increasing key order.
pub open spec fn key_sorted(m: Seq<usize>, keys: Seq<(Seq<char>, Seq<char>)>) -> bool {
    forall|a: int, b: int| 0 <= a < b < m.len() ==> key_lt(keys[#[trigger] m[a] as int], keys[#[trigger] m[b] as int])
}

proof fn lemma_key_lt(a: (Seq<char>, Seq<char>), b: (Seq<char>, Seq<char>), c: (Seq<char>, Seq<char>))
    ensures
        !key_lt(a, a),
        !(key_lt(a, b) && key_lt(b, a)),
        key_lt(a, b) && key_lt(b, c) ==> key_lt(a, c),
        a != b ==> key_lt(a, b) || key_lt(b, a),
{
    lemma_seq_lt_total(a.0, b.0);
    lemma_seq_lt_total(a.1, b.1);
    lemma_seq_lt_total(b.0, c.0);
    lemma_seq_lt_total(a.0, c.0);
    if seq_lt(a.0, b.0) && seq_lt(b.0, c.0) {
        lemma_seq_lt_trans(a.0, b.0, c.0);
    }
    if seq_lt(a.1, b.1) && seq_lt(b.1, c.1) {
        lemma_seq_lt_trans(a.1, b.1, c.1);
    }
}

proof fn lemma_kpos_bounds(m: Seq<usize>, keys: Seq<(Seq<char>, Seq<char>)>, k: (Seq<char>, Seq<char>))
    ensures
        0 <= kpos(m, keys, k) <= m.len(),
        forall|j: int| 0 <= j < kpos(m, keys, k) ==> key_lt(keys[#[trigger] m[j] as int], k),
        kpos(m, keys, k) < m.len() ==> !key_lt(keys[m[kpos(m, keys, k)] as int], k),
    decreases m.len(),
{
    if m.len() > 0 && key_lt(keys[m[0] as int], k) {
        let t = m.subrange(1, m.len() as int);
        lemma_kpos_bounds(t, keys, k);
        assert forall|j: int| 1 <= j < m.len() implies #[trigger] m[j] == t[j - 1] by {}
    }
}

proof fn lemma_kinsert_sorted(m: Seq<usize>, keys: Seq<(Seq<char>, Seq<char>)>, i: usize, n: int)
    requires
        key_sorted(m, keys),
        indices_below(m, n),
        i <= n,
    ensures
        key_sorted(kinsert(m, keys, i), keys),
        indices_below(kinsert(m, keys, i), n + 1),
{
    let k = keys[i as int];
    let p = kpos(m, keys, k);
    lemma_kpos_bounds(m, keys, k);
    let r = kinsert(m, keys, i);
    if p < m.len() && keys[m[p] as int] == k {
        assert forall|a: int, b: int| 0 <= a < b < r.len() implies key_lt(keys[#[trigger] r[a] as int], keys[#[trigger] r[b] as int]) by {
            assert(keys[r[a] as int] == keys[m[a] as int]);
            assert(keys[r[b] as int] == keys[m[b] as int]);
        }
    } else {
        if p < m.len() {
            lemma_key_lt(keys[m[p] as int], k, k);
        }
        assert forall|x: int| p <= x < m.len() implies key_lt(k, keys[#[trigger] m[x] as int]) by {
            if x > p {
                lemma_key_lt(k, keys[m[p] as int], keys[m[x] as int]);
            }
        }
        assert forall|a: int, b: int| 0 <= a < b < r.len() implies key_lt(keys[#[trigger] r[a] as int], keys[#[trigger] r[b] as int]) by {
            if a < p && b > p {
                assert(r[a] == m[a]);
                assert(r[b] == m[b - 1]);
                lemma_key_lt(keys[m[a] as int], k, keys[m[b - 1] as int]);
            } else if b > p && a > p {
                assert(r[a] == m[a - 1]);
                assert(r[b] == m[b - 1]);
            }
        }
    }
    assert forall|j: int| 0 <= j < r.len() implies (#[trigger] r[j]) < n + 1 by {
        if !(p < m.len() && keys[m[p] as int] == k) {
            if j > p {
                assert(r[j] == m[j - 1]);
            }
        } else if j != p {
            assert(r[j] == m[j]);
        }
    }
}

proof fn lemma_keyed_sorted(keys: Seq<(Seq<char>, Seq<char>)>, n: int)
    requires
        0 <= n <= usize::MAX,
    ensures
        key_sorted(keyed(keys, n), keys),
        indices_below(keyed(keys, n), n),
    decreases n,
{
    if n > 0 {
        lemma_keyed_sorted(keys, n - 1);
        lemma_kinsert_sorted(keyed(keys, n - 1), keys, (n - 1) as usize, n - 1);
    }
}

proof fn lemma_kfind_sorted(m: Seq<usize>, keys: Seq<(Seq<char>, Seq<char>)>, j: int)
    requires
        key_sorted(m, keys),
        0 <= j < m.len(),
    ensures
        kfind(m, keys, keys[m[j] as int]) == Some(j),
{
    lemma_kfind(m, keys, keys[m[j] as int]);
    if let Some(q) = kfind(m, keys, keys[m[j] as int]) {
        lemma_key_lt(keys[m[j] as int], keys[m[j] as int], keys[m[j] as int]);
        if q < j {
            assert(key_lt(keys[m[q] as int], keys[m[j] as int]));
        } else if q > j {
            assert(key_lt(keys[m[j] as int], keys[m[q] as int]));
        }
    }
}

proof fn lemma_eq_contract_refl(e: CanonicalEndpoint)
    ensures
        eq_contract(e, e),
{
    assert forall|i: int| 0 <= i < e.parameters@.len() implies eq_param(#[trigger] e.parameters@[i], e.parameters@[i]) by {
        lemma_eq_schema_refl(e.parameters@[i].schema);
    }
    assert forall|i: int| 0 <= i < e.responses@.len() implies eq_response(#[trigger] e.responses@[i], e.responses@[i]) by {
        if let Some(s) = e.responses@[i].schema {
            lemma_eq_schema_refl(s);
        }
    }
    if let Some(b) = e.request_body {
        lemma_eq_schema_refl(b.schema);
    }
}

proof fn lemma_diff_with_itself(es: Seq<CanonicalEndpoint>, m: Seq<usize>, j: int)
    requires
        key_sorted(m, endpoint_keys(es)),
        indices_below(m, es.len() as int),
        0 <= j <= m.len(),
    ensures
        diff_added(es, es, m, m, j) == Seq::<ChangeView>::empty(),
        diff_changed(es, es, m, m, j) == Seq::<ChangeView>::empty(),
        diff_unchanged(es, es, m, m, j) == j,
        diff_removed(es, es, m, m, j) == Seq::<ChangeView>::empty(),
    decreases j,
{
    if j > 0 {
        lemma_diff_with_itself(es, m, j - 1);
        lemma_kfind_sorted(m, endpoint_keys(es), j - 1);
        lemma_eq_contract_refl(es[m[j - 1] as int]);
        assert(diff_added(es, es, m, m, j) =~= Seq::<ChangeView>::empty());
        assert(diff_changed(es, es, m, m, j) =~= Seq::<ChangeView>::empty());
        assert(diff_removed(es, es, m, m, j) =~= Seq::<ChangeView>::empty());
    }
}

/// Diffing a collection against itself reports nothing added, removed or
/// changed, and every endpoint of its key walk unchanged.
pub proof fn law_diff_with_itself(es: Seq<CanonicalEndpoint>)
    requires
        es.len() <= usize::MAX,
    ensures
        ({
            let m = keyed(endpoint_keys(es), es.len() as int);
            &&& diff_added(es, es, m, m, m.len() as int) == Seq::<ChangeView>::empty()
            &&& diff_changed(es, es, m, m, m.len() as int) == Seq::<ChangeView>::empty()
            &&& diff_unchanged(es, es, m, m, m.len() as int) == m.len()
            &&& diff_removed(es, es, m, m, m.len() as int) == Seq::<ChangeView>::empty()
        }),
{
    let m = keyed(endpoint_keys(es), es.len() as int);
    lemma_keyed_sorted(endpoint_keys(es), es.len() as int);
    lemma_diff_with_itself(es, m, m.len() as int);
}

proof fn lemma_diff_counts(prev: Seq<CanonicalEndpoint>, next: Seq<CanonicalEndpoint>, pm: Seq<usize>, nm: Seq<usize>, j: int)
    requires
        0 <= j <= nm.len(),
    ensures
        diff_added(prev, next, pm, nm, j).len() + diff_changed(prev, next, pm, nm, j).len() + diff_unchanged(prev, next, pm, nm, j) == j,
    decreases j,
{
    if j > 0 {
        lemma_diff_counts(prev, next, pm, nm, j - 1);
    }
}

/// The keys that the entries of a key walk `m` hold, in walk order.
pub open spec fn walk_keys(m: Seq<usize>, keys: Seq<(Seq<char>, Seq<char>)>) -> Seq<(Seq<char>, Seq<char>)> {
    m.map_values(|i: usize| keys[i as int])
}

/// How many of `ks` lie in `p`.
pub open spec fn count_in(ks: Seq<(Seq<char>, Seq<char>)>, p: Set<(Seq<char>, Seq<char>)>) -> nat
    decreases ks.len(),
{
    if ks.len() == 0 {
        0
    } else {
        count_in(ks.drop_last(), p) + if p.contains(ks.last()) {
            1nat
        } else {
            0nat
        }
    }
}

proof fn lemma_count_in(ks: Seq<(Seq<char>, Seq<char>)>, p: Set<(Seq<char>, Seq<char>)>)
    requires
        ks.no_duplicates(),
    ensures
        count_in(ks, p) == ks.to_set().intersect(p).len(),
        ks.to_set().finite(),
    decreases ks.len(),
{
    broadcast use vstd::set::group_set_axioms, vstd::seq_lib::seq_to_set_is_finite;
    if ks.len() > 0 {
        let t = ks.drop_last();
        let x = ks.last();
        assert(t.no_duplicates()) by {
            assert forall|a: int, b: int| 0 <= a < t.len() && 0 <= b < t.len() && a != b implies t[a] != t[b] by {
                assert(t[a] == ks[a] && t[b] == ks[b]);
            }
        }
        lemma_count_in(t, p);
        assert(ks.to_set() =~= t.to_set().insert(x)) by {
            assert(ks =~= t.push(x));
            assert forall|y| ks.contains(y) <==> t.contains(y) || y == x by {
                if ks.contains(y) && y != x {
                    let w = choose|w: int| 0 <= w < ks.len() && ks[w] == y;
                    assert(w < t.len());
                    assert(t[w] == y);
                }
                if t.contains(y) {
                    let w = choose|w: int| 0 <= w < t.len() && t[w] == y;
                    assert(ks[w] == y);
                }
                if y == x {
                    assert(ks[ks.len() - 1] == x);
                }
            }
        }
        assert(!t.to_set().contains(x)) by {
            if t.contains(x) {
                let w = choose|w: int| 0 <= w < t.len() && t[w] == x;
                assert(ks[w] == ks[ks.len() - 1]);
            }
        }
        let a = t.to_set().intersect(p);
        vstd::set_lib::lemma_len_subset(a, t.to_set());
        if p.contains(x) {
            assert(ks.to_set().intersect(p) =~= a.insert(x));
        } else {
            assert(ks.to_set().intersect(p) =~= a);
        }
    } else {
        assert(ks.to_set() =~= Set::<(Seq<char>, Seq<char>)>::empty());
        assert(ks.to_set().intersect(p) =~= Set::<(Seq<char>, Seq<char>)>::empty());
    }
}

proof fn lemma_walk_keys_distinct(m: Seq<usize>, keys: Seq<(Seq<char>, Seq<char>)>)
    requires
        key_sorted(m, keys),
    ensures
        walk_keys(m, keys).no_duplicates(),
{
    let ks = walk_keys(m, keys);
    assert forall|a: int, b: int| 0 <= a < ks.len() && 0 <= b < ks.len() && a != b implies ks[a] != ks[b] by {
        lemma_key_lt(keys[m[a] as int], keys[m[b] as int], keys[m[b] as int]);
        if a < b {
            assert(key_lt(keys[m[a] as int], keys[m[b] as int]));
        } else {
            assert(key_lt(keys[m[b] as int], keys[m[a] as int]));
        }
    }
}

proof fn lemma_found_in_walk(m: Seq<usize>, keys: Seq<(Seq<char>, Seq<char>)>, k: (Seq<char>, Seq<char>))
    ensures
        (kfind(m, keys, k) is Some) == walk_keys(m, keys).to_set().contains(k),
{
    lemma_kfind(m, keys, k);
    let ks = walk_keys(m, keys);
    if let Some(q) = kfind(m, keys, k) {
        assert(ks[q] == k);
    } else {
        if ks.contains(k) {
            let w = choose|w: int| 0 <= w < ks.len() && ks[w] == k;
            assert(keys[m[w] as int] == k);
        }
    }
}

proof fn lemma_matched_count(prev: Seq<CanonicalEndpoint>, next: Seq<CanonicalEndpoint>, pm: Seq<usize>, nm: Seq<usize>, j: int)
    requires
        0 <= j <= nm.len(),
    ensures
        diff_changed(prev, next, pm, nm, j).len() + diff_unchanged(prev, next, pm, nm, j) == count_in(
            walk_keys(nm, endpoint_keys(next)).subrange(0, j),
            walk_keys(pm, endpoint_keys(prev)).to_set(),
        ),
    decreases j,
{
    let ks = walk_keys(nm, endpoint_keys(next));
    if j > 0 {
        lemma_matched_count(prev, next, pm, nm, j - 1);
        assert(ks.subrange(0, j).drop_last() =~= ks.subrange(0, j - 1));
        lemma_found_in_walk(pm, endpoint_keys(prev), endpoint_keys(next)[nm[j - 1] as int]);
    } else {
        assert(ks.subrange(0, 0) =~= Seq::<(Seq<char>, Seq<char>)>::empty());
    }
}

proof fn lemma_removed_exact(prev: Seq<CanonicalEndpoint>, next: Seq<CanonicalEndpoint>, pm: Seq<usize>, nm: Seq<usize>, j: int)
    requires
        0 <= j <= pm.len(),
    ensures
        diff_removed(prev, next, pm, nm, j).len() + count_in(
            walk_keys(pm, endpoint_keys(prev)).subrange(0, j),
            walk_keys(nm, endpoint_keys(next)).to_set(),
        ) == j,
    decreases j,
{
    let ks = walk_keys(pm, endpoint_keys(prev));
    if j > 0 {
        lemma_removed_exact(prev, next, pm, nm, j - 1);
        assert(ks.subrange(0, j).drop_last() =~= ks.subrange(0, j - 1));
        lemma_found_in_walk(nm, endpoint_keys(next), endpoint_keys(prev)[pm[j - 1] as int]);
    } else {
        assert(ks.subrange(0, 0) =~= Seq::<(Seq<char>, Seq<char>)>::empty());
    }
}

proof fn lemma_keyed_len(keys: Seq<(Seq<char>, Seq<char>)>, n: int)
    requires
        0 <= n <= keys.len(),
        n <= usize::MAX,
        forall|a: int, b: int| 0 <= a < b < n ==> keys[a] != keys[b],
    ensures
        keyed(keys, n).len() == n,
    decreases n,
{
    if n > 0 {
        lemma_keyed_len(keys, n - 1);
        lemma_keyed_sorted(keys, n - 1);
        let m = keyed(keys, n - 1);
        let p = kpos(m, keys, keys[n - 1]);
        lemma_kpos_bounds(m, keys, keys[n - 1]);
        if p < m.len() {
            assert(m[p] < n - 1);
            assert(keys[m[p] as int] != keys[n - 1]);
        }
    }
}

/// The counts of a diff add up: every endpoint of the new collection's key
/// walk is exactly one of added, changed or unchanged; every endpoint of
/// the previous key walk is exactly one of removed, changed or unchanged;
/// and when no two endpoints of a collection share a method and path, its
/// key walk holds every endpoint.
pub proof fn law_diff_counts(prev: Seq<CanonicalEndpoint>, next: Seq<CanonicalEndpoint>)
    requires
        prev.len() <= usize::MAX,
        next.len() <= usize::MAX,
    ensures
        ({
            let pm = keyed(endpoint_keys(prev), prev.len() as int);
            let nm = keyed(endpoint_keys(next), next.len() as int);
            let added = diff_added(prev, next, pm, nm, nm.len() as int).len();
            let changed = diff_changed(prev, next, pm, nm, nm.len() as int).len();
            let unchanged = diff_unchanged(prev, next, pm, nm, nm.len() as int);
            let removed = diff_removed(prev, next, pm, nm, pm.len() as int).len();
            &&& added + changed + unchanged == nm.len()
            &&& removed + changed + unchanged == pm.len()
            &&& (forall|a: int, b: int| 0 <= a < b < prev.len() ==> endpoint_keys(prev)[a] != endpoint_keys(prev)[b])
                ==> pm.len() == prev.len()
            &&& (forall|a: int, b: int| 0 <= a < b < next.len() ==> endpoint_keys(next)[a] != endpoint_keys(next)[b])
                ==> nm.len() == next.len()
        }),
{
    let kp = endpoint_keys(prev);
    let kn = endpoint_keys(next);
    let pm = keyed(kp, prev.len() as int);
    let nm = keyed(kn, next.len() as int);
    lemma_diff_counts(prev, next, pm, nm, nm.len() as int);
    lemma_matched_count(prev, next, pm, nm, nm.len() as int);
    lemma_removed_exact(prev, next, pm, nm, pm.len() as int);
    let ksn = walk_keys(nm, kn);
    let ksp = walk_keys(pm, kp);
    assert(ksn.subrange(0, nm.len() as int) =~= ksn);
    assert(ksp.subrange(0, pm.len() as int) =~= ksp);
    lemma_keyed_sorted(kp, prev.len() as int);
    lemma_keyed_sorted(kn, next.len() as int);
    lemma_walk_keys_distinct(pm, kp);
    lemma_walk_keys_distinct(nm, kn);
    lemma_count_in(ksn, ksp.to_set());
    lemma_count_in(ksp, ksn.to_set());
    assert(ksn.to_set().intersect(ksp.to_set()) =~= ksp.to_set().intersect(ksn.to_set()));
    if forall|a: int, b: int| 0 <= a < b < prev.len() ==> kp[a] != kp[b] {
        lemma_keyed_len(kp, prev.len() as int);
    }
    if forall|a: int, b: int| 0 <= a < b < next.len() ==> kn[a] != kn[b] {
        lemma_keyed_len(kn, next.len() as int);
    }
}

/// What an unchanged endpoint shares with its previous version: every
/// field but its examples agrees. Method, path, operation id, summary,
/// description and tags are equal; each parameter keeps its name,
/// location, description and whether it is required, with a schema that
/// describes the same contract; the request body keeps its content type
/// and whether it is required; each response keeps its status, content
/// type and description; and the auth requirement is the same.
pub proof fn law_unchanged_means_same_contract(a: CanonicalEndpoint, b: CanonicalEndpoint)
    requires
        eq_contract(a, b),
    ensures
        a.method == b.method,
        a.path@ == b.path@,
        text_view(a.operation_id) == text_view(b.operation_id),
        text_view(a.summary) == text_view(b.summary),
        text_view(a.description) == text_view(b.description),
        texts_view(a.tags@) == texts_view(b.tags@),
        a.parameters@.len() == b.parameters@.len(),
        forall|i: int|
            0 <= i < a.parameters@.len() ==> {
                let p = #[trigger] a.parameters@[i];
                let q = b.parameters@[i];
                &&& p.name@ == q.name@
                &&& p.location == q.location
                &&& text_view(p.description) == text_view(q.description)
                &&& p.required == q.required
                &&& eq_schema(p.schema, q.schema)
            },
        a.request_body is Some <==> b.request_body is Some,
        a.request_body matches Some(x) ==> (b.request_body matches Some(y) && x.content_type@ == y.content_type@
            && x.required == y.required),
        a.responses@.len() == b.responses@.len(),
        forall|i: int|
            0 <= i < a.responses@.len() ==> {
                let r = #[trigger] a.responses@[i];
                let t = b.responses@[i];
                &&& r.status_code@ == t.status_code@
                &&& r.content_type@ == t.content_type@
                &&& text_view(r.description) == text_view(t.description)
            },
        a.auth is Some <==> b.auth is Some,
{
    assert forall|i: int| 0 <= i < a.parameters@.len() implies {
        let p = #[trigger] a.parameters@[i];
        let q = b.parameters@[i];
        &&& p.name@ == q.name@
        &&& p.location == q.location
        &&& text_view(p.description) == text_view(q.description)
        &&& p.required == q.required
        &&& eq_schema(p.schema, q.schema)
    } by {
        assert(eq_param(a.parameters@[i], b.parameters@[i]));
    }
    assert forall|i: int| 0 <= i < a.responses@.len() implies {
        let r = #[trigger] a.responses@[i];
        let t = b.responses@[i];
        &&& r.status_code@ == t.status_code@
        &&& r.content_type@ == t.content_type@
        &&& text_view(r.description) == text_view(t.description)
    } by {
        assert(eq_response(a.responses@[i], b.responses@[i]));
    }
}

/// The diff of a previous endpoint against a next one with the same
/// method and path: when their contracts differ (for one, a parameter's
/// required flag changed) it is reported changed and not counted
/// unchanged; otherwise it is counted unchanged.
pub proof fn law_single_endpoint_diff(a: CanonicalEndpoint, b: CanonicalEndpoint)
    requires
        a.method == b.method,
        a.path@ == b.path@,
    ensures
        ({
            let prev = seq![a];
            let next = seq![b];
            let pm = keyed(endpoint_keys(prev), 1);
            let nm = keyed(endpoint_keys(next), 1);
            &&& !eq_contract(a, b) ==> diff_changed(prev, next, pm, nm, nm.len() as int).len() == 1
                && diff_unchanged(prev, next, pm, nm, nm.len() as int) == 0
            &&& eq_contract(a, b) ==> diff_changed(prev, next, pm, nm, nm.len() as int).len() == 0
                && diff_unchanged(prev, next, pm, nm, nm.len() as int) == 1
        }),
{
    let prev = seq![a];
    let next = seq![b];
    let kp = endpoint_keys(prev);
    let kn = endpoint_keys(next);
    assert(keyed(kp, 0) =~= Seq::<usize>::empty());
    assert(keyed(kn, 0) =~= Seq::<usize>::empty());
    assert(kpos(Seq::<usize>::empty(), kp, kp[0]) == 0);
    assert(kpos(Seq::<usize>::empty(), kn, kn[0]) == 0);
    let pm = keyed(kp, 1);
    let nm = keyed(kn, 1);
    assert(pm =~= seq![0usize]);
    assert(nm =~= seq![0usize]);
    assert(kn[0] == kp[0]);
    assert(kfind(pm, kp, kn[nm[0] as int]) == Some(0int)) by {
        assert(kp[pm[0] as int] == kn[0]);
    }
    assert(prev[pm[0] as int] == a);
    assert(next[nm[0] as int] == b);
    assert(diff_changed(prev, next, pm, nm, 0).len() == 0);
    assert(diff_unchanged(prev, next, pm, nm, 0) == 0);
    if eq_contract(a, b) {
        assert(diff_changed(prev, next, pm, nm, 1) =~= diff_changed(prev, next, pm, nm, 0));
    } else {
        assert(diff_changed(prev, next, pm, nm, 1).len() == 1);
    }
}

/// Endpoints that differ only in their mock examples make the same
/// contract, so a diff between them reports nothing.
pub proof fn law_examples_do_not_count(a: CanonicalEndpoint, b: CanonicalEndpoint)
    requires
        b == (CanonicalEndpoint { examples: b.examples, ..a }),
    ensures
        eq_contract(a, b),
{
    lemma_eq_contract_refl(a);
}

pub open spec fn prev_map(prev: Seq<CanonicalEndpoint>) -> Seq<usize> {
    keyed(endpoint_keys(prev), prev.len() as int)
}

// ---------------------------------------------------------------------
// Executable side.

fn push_text(out: &mut Vec<String>, m: &Vec<char>)
    ensures
        strings(final(out)@) == strings(old(out)@).push(m@),
{
    out.push(string_of(m));
    assert(strings(out@) =~= strings(old(out)@).push(m@));
}

fn push_if(out: &mut Vec<String>, c: bool, m: &Vec<char>)
    ensures
        strings(final(out)@) == strings(old(out)@) + one_if(c, m@),
{
    if c {
        push_text(out, m);
    }
    assert(strings(out@) =~= strings(old(out)@) + one_if(c, m@));
}

fn location_label_of(l: ParameterLocation) -> (r: &'static str)
    ensures
        r@ == location_label(l),
{
    match l {
        ParameterLocation::Path => "path",
        ParameterLocation::Query => "query",
        ParameterLocation::Header => "header",
        ParameterLocation::Cookie => "cookie",
    }
}

fn endpoint_keys_of(es: &Vec<CanonicalEndpoint>) -> (r: Vec<(Vec<char>, Vec<char>)>)
    ensures
        kviews(r@) == endpoint_keys(es@),
{
    let mut out: Vec<(Vec<char>, Vec<char>)> = Vec::new();
    let mut i: usize = 0;
    while i < es.len()
        invariant
            i <= es@.len(),
            out@.len() == i,
            forall|k: int| 0 <= k < i ==> ((#[trigger] out@[k]).0@, out@[k].1@) == (method_text(es@[k].method), es@[k].path@),
        decreases es.len() - i,
    {
        out.push((chars_of(es[i].method.as_str()), chars_of(es[i].path.as_str())));
        i += 1;
    }
    assert(kviews(out@) =~= endpoint_keys(es@));
    out
}

fn param_keys_of(ps: &Vec<CanonicalParameter>) -> (r: Vec<(Vec<char>, Vec<char>)>)
    ensures
        kviews(r@) == param_keys(ps@),
{
    let mut out: Vec<(Vec<char>, Vec<char>)> = Vec::new();
    let mut i: usize = 0;
    while i < ps.len()
        invariant
            i <= ps@.len(),
            out@.len() == i,
            forall|k: int| 0 <= k < i ==> ((#[trigger] out@[k]).0@, out@[k].1@) == (location_label(ps@[k].location), ps@[k].name@),
        decreases ps.len() - i,
    {
        out.push((chars_of(location_label_of(ps[i].location)), chars_of(ps[i].name.as_str())));
        i += 1;
    }
    assert(kviews(out@) =~= param_keys(ps@));
    out
}

fn status_keys_of(rs: &Vec<CanonicalResponse>) -> (r: Vec<(Vec<char>, Vec<char>)>)
    ensures
        kviews(r@) == status_keys(rs@),
{
    let mut out: Vec<(Vec<char>, Vec<char>)> = Vec::new();
    let mut i: usize = 0;
    while i < rs.len()
        invariant
            i <= rs@.len(),
            out@.len() == i,
            forall|k: int| 0 <= k < i ==> ((#[trigger] out@[k]).0@, out@[k].1@) == (rs@[k].status_code@, Seq::<char>::empty()),
        decreases rs.len() - i,
    {
        out.push((chars_of(rs[i].status_code.as_str()), Vec::new()));
        i += 1;
    }
    assert(kviews(out@) =~= status_keys(rs@));
    out
}

fn param_label_of(p: &CanonicalParameter) -> (r: Vec<char>)
    ensures
        r@ == param_label(*p),
{
    let mut m = chars_of(location_label_of(p.location));
    append_str(&mut m, " ");
    append_str(&mut m, p.name.as_str());
    m
}

fn response_label_of(r: &CanonicalResponse) -> (m: Vec<char>)
    ensures
        m@ == response_label(*r),
{
    let mut m = chars_of(r.status_code.as_str());
    append_str(&mut m, " ");
    append_str(&mut m, r.content_type.as_str());
    m
}

#[verifier::spinoff_prover]
fn param_details_of(prev: &Vec<CanonicalParameter>, next: &Vec<CanonicalParameter>, out: &mut Vec<String>)
    ensures
        strings(final(out)@) == strings(old(out)@) + param_details(prev@, next@),
{
    let ghost start = strings(out@);
    let pk = param_keys_of(prev);
    let nk = param_keys_of(next);
    let pm = keyed_of(&pk);
    let nm = keyed_of(&nk);
    proof {
        assert(kviews(pk@).len() == pk@.len());
        assert(kviews(nk@).len() == nk@.len());
        assert(param_keys(prev@).len() == prev@.len());
        assert(param_keys(next@).len() == next@.len());
    }
    let mut j: usize = 0;
    assert(strings(out@) =~= start + params_next(prev@, next@, pm@, nm@, 0));
    while j < nm.len()
        invariant
            j <= nm@.len(),
            kviews(pk@) == param_keys(prev@),
            kviews(nk@) == param_keys(next@),
            pm@ == keyed(param_keys(prev@), prev@.len() as int),
            nm@ == keyed(param_keys(next@), next@.len() as int),
            indices_below(pm@, prev@.len() as int),
            indices_below(nm@, next@.len() as int),
            pk@.len() == prev@.len(),
            nk@.len() == next@.len(),
            strings(out@) == start + params_next(prev@, next@, pm@, nm@, j as int),
        decreases nm.len() - j,
    {
        let ni = nm[j];
        assert(ni < next@.len());
        assert((nk@[ni as int].0@, nk@[ni as int].1@) == param_keys(next@)[ni as int]);
        let n = &next[ni];
        match find_in(&pm, &pk, &nk[ni]) {
            None => {
                let mut m = chars_of("parameter added: ");
                append(&mut m, &param_label_of(n));
                push_text(out, &m);
            },
            Some(q) => {
                let o = &prev[pm[q]];
                let mut m = chars_of("parameter changed: ");
                append(&mut m, &param_label_of(n));
                push_if(out, !param_equal(o, n), &m);
            },
        }
        assert(strings(out@) =~= start + params_next(prev@, next@, pm@, nm@, j + 1));
        j += 1;
    }
    let ghost mid = strings(out@);
    let mut j: usize = 0;
    assert(strings(out@) =~= mid + params_gone(prev@, next@, pm@, nm@, 0));
    while j < pm.len()
        invariant
            j <= pm@.len(),
            kviews(pk@) == param_keys(prev@),
            kviews(nk@) == param_keys(next@),
            indices_below(pm@, prev@.len() as int),
            indices_below(nm@, next@.len() as int),
            pk@.len() == prev@.len(),
            nk@.len() == next@.len(),
            strings(out@) == mid + params_gone(prev@, next@, pm@, nm@, j as int),
        decreases pm.len() - j,
    {
        let pi = pm[j];
        assert(pi < prev@.len());
        assert((pk@[pi as int].0@, pk@[pi as int].1@) == param_keys(prev@)[pi as int]);
        let gone = find_in(&nm, &nk, &pk[pi]).is_none();
        let mut m = chars_of("parameter removed: ");
        append(&mut m, &param_label_of(&prev[pi]));
        push_if(out, gone, &m);
        assert(strings(out@) =~= mid + params_gone(prev@, next@, pm@, nm@, j + 1));
        j += 1;
    }
    assert(strings(out@) =~= start + param_details(prev@, next@));
}

fn body_label_of(b: &CanonicalRequestBody) -> (r: Vec<char>)
    ensures
        r@ == body_label(*b),
{
    let mut m = chars_of(b.content_type.as_str());
    append_str(&mut m, " (");
    append_str(&mut m, if b.required { "required" } else { "optional" });
    append_str(&mut m, ")");
    m
}

fn bool_text_of(b: bool) -> (r: &'static str)
    ensures
        r@ == bool_text(b),
{
    if b {
        "true"
    } else {
        "false"
    }
}

fn body_details_of(a: &Option<CanonicalRequestBody>, b: &Option<CanonicalRequestBody>, out: &mut Vec<String>)
    ensures
        strings(final(out)@) == strings(old(out)@) + body_details(*a, *b),
{
    let ghost start = strings(out@);
    match (a, b) {
        (None, None) => {},
        (None, Some(y)) => {
            let mut m = chars_of("request body added: ");
            append(&mut m, &body_label_of(y));
            push_text(out, &m);
        },
        (Some(x), None) => {
            let mut m = chars_of("request body removed: ");
            append(&mut m, &body_label_of(x));
            push_text(out, &m);
        },
        (Some(x), Some(y)) => {
            let mut m = chars_of("request body content type changed: ");
            append_str(&mut m, x.content_type.as_str());
            append_str(&mut m, " -> ");
            append_str(&mut m, y.content_type.as_str());
            push_if(out, x.content_type != y.content_type, &m);
            let mut m = chars_of("request body required changed: ");
            append_str(&mut m, bool_text_of(x.required));
            append_str(&mut m, " -> ");
            append_str(&mut m, bool_text_of(y.required));
            push_if(out, x.required != y.required, &m);
            let m = chars_of("request body schema changed");
            push_if(out, !schema_equal(&x.schema, &y.schema), &m);
        },
    }
    assert(strings(out@) =~= start + body_details(*a, *b));
}

fn response_parts_of(a: &CanonicalResponse, b: &CanonicalResponse) -> (r: Vec<String>)
    ensures
        strings(r@) == response_parts(*a, *b),
{
    let mut out: Vec<String> = Vec::new();
    assert(strings(out@) =~= Seq::<Seq<char>>::empty());
    let mut m = chars_of("content type ");
    append_str(&mut m, a.content_type.as_str());
    append_str(&mut m, " -> ");
    append_str(&mut m, b.content_type.as_str());
    push_if(&mut out, a.content_type != b.content_type, &m);
    push_if(&mut out, !text_opt_equal(&a.description, &b.description), &chars_of("description"));
    push_if(&mut out, !schema_opt_equal(&a.schema, &b.schema), &chars_of("schema"));
    assert(strings(out@) =~= response_parts(*a, *b));
    out
}

fn joined_texts(parts: &Vec<String>, sep: &str) -> (r: Vec<char>)
    ensures
        r@ == join(strings(parts@), sep@),
{
    let mut vs: Vec<Vec<char>> = Vec::new();
    let mut i: usize = 0;
    while i < parts.len()
        invariant
            i <= parts@.len(),
            vs@.len() == i,
            forall|k: int| 0 <= k < i ==> (#[trigger] vs@[k])@ == parts@[k]@,
        decreases parts.len() - i,
    {
        vs.push(chars_of(parts[i].as_str()));
        i += 1;
    }
    assert(views(vs@) =~= strings(parts@));
    crate::openai::generate::join_of(&vs, sep)
}

#[verifier::spinoff_prover]
#[verifier::rlimit(40)]
fn response_details_of(prev: &Vec<CanonicalResponse>, next: &Vec<CanonicalResponse>, out: &mut Vec<String>)
    ensures
        strings(final(out)@) == strings(old(out)@) + response_details(prev@, next@),
{
    let ghost start = strings(out@);
    let pk = status_keys_of(prev);
    let nk = status_keys_of(next);
    let pm = keyed_of(&pk);
    let nm = keyed_of(&nk);
    proof {
        assert(kviews(pk@).len() == pk@.len());
        assert(kviews(nk@).len() == nk@.len());
        assert(status_keys(prev@).len() == prev@.len());
        assert(status_keys(next@).len() == next@.len());
    }
    let mut j: usize = 0;
    assert(strings(out@) =~= start + responses_next(prev@, next@, pm@, nm@, 0));
    while j < nm.len()
        invariant
            j <= nm@.len(),
            kviews(pk@) == status_keys(prev@),
            kviews(nk@) == status_keys(next@),
            pm@ == keyed(status_keys(prev@), prev@.len() as int),
            nm@ == keyed(status_keys(next@), next@.len() as int),
            indices_below(pm@, prev@.len() as int),
            indices_below(nm@, next@.len() as int),
            pk@.len() == prev@.len(),
            nk@.len() == next@.len(),
            strings(out@) == start + responses_next(prev@, next@, pm@, nm@, j as int),
        decreases nm.len() - j,
    {
        let ni = nm[j];
        assert(ni < next@.len());
        assert((nk@[ni as int].0@, nk@[ni as int].1@) == status_keys(next@)[ni as int]);
        let n = &next[ni];
        match find_in(&pm, &pk, &nk[ni]) {
            None => {
                let mut m = chars_of("response added: ");
                append(&mut m, &response_label_of(n));
                push_text(out, &m);
            },
            Some(q) => {
                let o = &prev[pm[q]];
                let parts = response_parts_of(o, n);
                let joined = joined_texts(&parts, ", ");
                let mut m = chars_of("response changed: ");
                append_str(&mut m, n.status_code.as_str());
                append_str(&mut m, " (");
                append(&mut m, &joined);
                append_str(&mut m, ")");
                assert(m@ == "response changed: "@ + n.status_code@ + " ("@ + join(response_parts(*o, *n), ", "@) + ")"@);
                push_if(out, !response_equal(o, n), &m);
            },
        }
        assert(strings(out@) =~= start + responses_next(prev@, next@, pm@, nm@, j + 1));
        j += 1;
    }
    let ghost mid = strings(out@);
    let mut j: usize = 0;
    assert(strings(out@) =~= mid + responses_gone(prev@, next@, pm@, nm@, 0));
    while j < pm.len()
        invariant
            j <= pm@.len(),
            kviews(pk@) == status_keys(prev@),
            kviews(nk@) == status_keys(next@),
            indices_below(pm@, prev@.len() as int),
            indices_below(nm@, next@.len() as int),
            pk@.len() == prev@.len(),
            nk@.len() == next@.len(),
            strings(out@) == mid + responses_gone(prev@, next@, pm@, nm@, j as int),
        decreases pm.len() - j,
    {
        let pi = pm[j];
        assert(pi < prev@.len());
        assert((pk@[pi as int].0@, pk@[pi as int].1@) == status_keys(prev@)[pi as int]);
        let gone = find_in(&nm, &nk, &pk[pi]).is_none();
        let mut m = chars_of("response removed: ");
        append(&mut m, &response_label_of(&prev[pi]));
        push_if(out, gone, &m);
        assert(strings(out@) =~= mid + responses_gone(prev@, next@, pm@, nm@, j + 1));
        j += 1;
    }
    assert(strings(out@) =~= start + response_details(prev@, next@));
}

/// Why an endpoint's contract changed (see `change_reasons`).
fn endpoint_change_reasons(a: &CanonicalEndpoint, b: &CanonicalEndpoint) -> (r: Vec<String>)
    ensures
        strings(r@) == change_reasons(*a, *b),
{
    let mut out: Vec<String> = Vec::new();
    assert(strings(out@) =~= Seq::<Seq<char>>::empty());
    push_if(&mut out, !meta_equal(a, b), &chars_of("metadata changed"));
    push_if(&mut out, !params_equal(&a.parameters, &b.parameters), &chars_of("parameters changed"));
    push_if(&mut out, !body_equal(&a.request_body, &b.request_body), &chars_of("request body changed"));
    push_if(&mut out, !responses_equal(&a.responses, &b.responses), &chars_of("responses changed"));
    push_if(&mut out, !auth_equal(&a.auth, &b.auth), &chars_of("auth changed"));
    if out.len() == 0 {
        push_text(&mut out, &chars_of("endpoint contract changed"));
    }
    out
}

fn opt_or_dash_of(o: &Option<String>) -> (r: Vec<char>)
    ensures
        r@ == opt_or_dash(*o),
{
    match o {
        Some(t) => chars_of(t.as_str()),
        None => chars_of("-"),
    }
}

fn label_change_of(label: &str, a: &Option<String>, b: &Option<String>) -> (r: Vec<char>)
    ensures
        r@ == label_change(label@, *a, *b),
{
    let mut m = chars_of(label);
    append_str(&mut m, " changed: ");
    append(&mut m, &opt_or_dash_of(a));
    append_str(&mut m, " -> ");
    append(&mut m, &opt_or_dash_of(b));
    m
}

fn list_or_dash_of(v: &Vec<String>) -> (r: Vec<char>)
    ensures
        r@ == list_or_dash(v@),
{
    if v.len() == 0 {
        chars_of("-")
    } else {
        joined_texts(v, ", ")
    }
}

/// What changed in an endpoint (see `change_details`).
fn endpoint_change_details(a: &CanonicalEndpoint, b: &CanonicalEndpoint) -> (r: Vec<String>)
    ensures
        strings(r@) == change_details(*a, *b),
{
    let mut out: Vec<String> = Vec::new();
    assert(strings(out@) =~= Seq::<Seq<char>>::empty());
    push_if(&mut out, !text_opt_equal(&a.operation_id, &b.operation_id), &label_change_of("operationId", &a.operation_id, &b.operation_id));
    push_if(&mut out, !text_opt_equal(&a.summary, &b.summary), &label_change_of("summary", &a.summary, &b.summary));
    push_if(&mut out, !text_opt_equal(&a.description, &b.description), &chars_of("description changed"));
    let mut m = chars_of("tags changed: ");
    append(&mut m, &list_or_dash_of(&a.tags));
    append_str(&mut m, " -> ");
    append(&mut m, &list_or_dash_of(&b.tags));
    push_if(&mut out, !texts_equal(&a.tags, &b.tags), &m);
    let ghost g = strings(out@);
    param_details_of(&a.parameters, &b.parameters, &mut out);
    body_details_of(&a.request_body, &b.request_body, &mut out);
    response_details_of(&a.responses, &b.responses, &mut out);
    push_if(&mut out, !auth_equal(&a.auth, &b.auth), &chars_of("auth requirement changed"));
    assert(strings(out@) =~= change_details(*a, *b));
    out
}

fn entry_for(e: &CanonicalEndpoint, reasons: Vec<String>, details: Vec<String>) -> (r: ImportEndpointChange)
    ensures
        change_view(r) == entry_of(*e, strings(reasons@), strings(details@)),
{
    ImportEndpointChange {
        method: e.method.as_str().to_string(),
        path: e.path.clone(),
        summary: match &e.summary {
            Some(s) => Some(s.clone()),
            None => None,
        },
        reasons,
        details,
    }
}

fn empty_texts() -> (r: Vec<String>)
    ensures
        strings(r@) == Seq::<Seq<char>>::empty(),
{
    let r: Vec<String> = Vec::new();
    assert(strings(r@) =~= Seq::<Seq<char>>::empty());
    r
}

fn push_change(out: &mut Vec<ImportEndpointChange>, c: ImportEndpointChange)
    ensures
        changes_view(final(out)@) == changes_view(old(out)@).push(change_view(c)),
{
    out.push(c);
    assert(changes_view(out@) =~= changes_view(old(out)@).push(change_view(c)));
}

/// The drift from `previous` to `next` (see `diff_added`, `diff_removed`,
/// `diff_changed` and `diff_unchanged`), walked in key order.
#[verifier::spinoff_prover]
#[verifier::rlimit(40)]
pub fn diff_collections(previous: &CanonicalApiCollection, next: &CanonicalApiCollection) -> (r: ImportDiffSummary)
    ensures
        ({
            let pe = previous.endpoints@;
            let ne = next.endpoints@;
            let pm = keyed(endpoint_keys(pe), pe.len() as int);
            let nm = keyed(endpoint_keys(ne), ne.len() as int);
            &&& changes_view(r.added@) == diff_added(pe, ne, pm, nm, nm.len() as int)
            &&& changes_view(r.changed@) == diff_changed(pe, ne, pm, nm, nm.len() as int)
            &&& r.unchanged == diff_unchanged(pe, ne, pm, nm, nm.len() as int)
            &&& changes_view(r.removed@) == diff_removed(pe, ne, pm, nm, pm.len() as int)
        }),
{
    let pe = &previous.endpoints;
    let ne = &next.endpoints;
    let pk = endpoint_keys_of(pe);
    let nk = endpoint_keys_of(ne);
    let pm = keyed_of(&pk);
    let nm = keyed_of(&nk);
    proof {
        assert(kviews(pk@).len() == pk@.len());
        assert(kviews(nk@).len() == nk@.len());
        assert(endpoint_keys(pe@).len() == pe@.len());
        assert(endpoint_keys(ne@).len() == ne@.len());
    }
    let mut added: Vec<ImportEndpointChange> = Vec::new();
    let mut changed: Vec<ImportEndpointChange> = Vec::new();
    let mut unchanged: usize = 0;
    assert(changes_view(added@) =~= Seq::<ChangeView>::empty());
    assert(changes_view(changed@) =~= Seq::<ChangeView>::empty());
    let mut j: usize = 0;
    while j < nm.len()
        invariant
            j <= nm@.len(),
            kviews(pk@) == endpoint_keys(pe@),
            kviews(nk@) == endpoint_keys(ne@),
            pm@ == keyed(endpoint_keys(pe@), pe@.len() as int),
            nm@ == keyed(endpoint_keys(ne@), ne@.len() as int),
            indices_below(pm@, pe@.len() as int),
            indices_below(nm@, ne@.len() as int),
            pk@.len() == pe@.len(),
            nk@.len() == ne@.len(),
            changes_view(added@) == diff_added(pe@, ne@, pm@, nm@, j as int),
            changes_view(changed@) == diff_changed(pe@, ne@, pm@, nm@, j as int),
            unchanged == diff_unchanged(pe@, ne@, pm@, nm@, j as int),
            unchanged <= j,
        decreases nm.len() - j,
    {
        let ni = nm[j];
        assert(ni < ne@.len());
        assert((nk@[ni as int].0@, nk@[ni as int].1@) == endpoint_keys(ne@)[ni as int]);
        let n = &ne[ni];
        match find_in(&pm, &pk, &nk[ni]) {
            None => {
                push_change(&mut added, entry_for(n, empty_texts(), empty_texts()));
            },
            Some(q) => {
                let o = &pe[pm[q]];
                if contract_equal(o, n) {
                    unchanged += 1;
                } else {
                    let reasons = endpoint_change_reasons(o, n);
                    let details = endpoint_change_details(o, n);
                    push_change(&mut changed, entry_for(n, reasons, details));
                }
            },
        }
        assert(changes_view(added@) =~= diff_added(pe@, ne@, pm@, nm@, j + 1));
        assert(changes_view(changed@) =~= diff_changed(pe@, ne@, pm@, nm@, j + 1));
        j += 1;
    }
    let mut removed: Vec<ImportEndpointChange> = Vec::new();
    assert(changes_view(removed@) =~= Seq::<ChangeView>::empty());
    let mut j: usize = 0;
    while j < pm.len()
        invariant
            j <= pm@.len(),
            kviews(pk@) == endpoint_keys(pe@),
            kviews(nk@) == endpoint_keys(ne@),
            indices_below(pm@, pe@.len() as int),
            indices_below(nm@, ne@.len() as int),
            pk@.len() == pe@.len(),
            nk@.len() == ne@.len(),
            changes_view(removed@) == diff_removed(pe@, ne@, pm@, nm@, j as int),
        decreases pm.len() - j,
    {
        let pi = pm[j];
        assert(pi < pe@.len());
        assert((pk@[pi as int].0@, pk@[pi as int].1@) == endpoint_keys(pe@)[pi as int]);
        if find_in(&nm, &nk, &pk[pi]).is_none() {
            push_change(&mut removed, entry_for(&pe[pi], empty_texts(), empty_texts()));
        }
        assert(changes_view(removed@) =~= diff_removed(pe@, ne@, pm@, nm@, j + 1));
        j += 1;
    }
    ImportDiffSummary { added, removed, changed, unchanged }
}

impl ImportDiffSummary {
    /// The diff of a first import: every endpoint added, in order.
    pub fn for_new_import(collection: &CanonicalApiCollection) -> (r: ImportDiffSummary)
        ensures
            changes_view(r.added@) == collection.endpoints@.map_values(
                |e: CanonicalEndpoint| entry_of(e, Seq::empty(), Seq::empty()),
            ),
            r.removed@.len() == 0,
            r.changed@.len() == 0,
            r.unchanged == 0,
    {
        let mut added: Vec<ImportEndpointChange> = Vec::new();
        let mut i: usize = 0;
        while i < collection.endpoints.len()
            invariant
                i <= collection.endpoints@.len(),
                added@.len() == i,
                forall|k: int|
                    0 <= k < i ==> change_view(#[trigger] added@[k]) == entry_of(
                        collection.endpoints@[k],
                        Seq::empty(),
                        Seq::empty(),
                    ),
            decreases collection.endpoints.len() - i,
        {
            added.push(entry_for(&collection.endpoints[i], empty_texts(), empty_texts()));
            i += 1;
        }
        assert(changes_view(added@) =~= collection.endpoints@.map_values(
            |e: CanonicalEndpoint| entry_of(e, Seq::empty(), Seq::empty()),
        ));
        ImportDiffSummary { added, removed: Vec::new(), changed: Vec::new(), unchanged: 0 }
    }
}

} // verus!
