//! The OpenAPI importer: an OpenAPI 3 document (JSON or YAML) becomes a
//! canonical collection with one endpoint per operation.
//!
//! The `openapiv3` crate decides whether a text is an OpenAPI document and
//! what kind each schema is; the endpoints are read from the document in
//! its own order, and the schema keywords that crate does not model are
//! read from the document as parsed JSON.
use vstd::prelude::*;
use crate::assoc::{vinsert, entries_insert};
use crate::canonical::{CanonicalApiCollection, CanonicalEndpoint, CanonicalParameter, CanonicalRequestBody, CanonicalResponse, SchemaNode, text_view};
use crate::json::{JsonSpec, JsonValue, view_json, view_entries, view_items, lemma_view_entries, lemma_view_items};
use crate::model::{AuthRequirement, AuthScheme, HttpMethod, InputSourceKind, ParameterLocation, SchemaNodeType};
use crate::parser::detect::{ApiParser, ParseError, ParseSource, inferred_view};
use crate::parser::oajson::{entry_get, jget, jstr, jbool, jarr, jobj, resolve_ref, ref_view, get_field, get_str, get_bool, resolve_ref_of};
use crate::parser::oaraw::{ext, strings_of};
use crate::parser::oaschema::{typed_ref, ref_text, list_of};
use crate::schema_view::{SchemaView, blank_view, schema_view};
use crate::text::{chars_of, starts_with, lower, is_ascii_digit, upper_char};

verus! {

pub struct ParamView {
    pub name: Seq<char>,
    pub location: ParameterLocation,
    pub description: Option<Seq<char>>,
    pub required: bool,
    pub schema: SchemaView,
}

pub struct BodyView {
    pub content_type: Seq<char>,
    pub required: bool,
    pub schema: SchemaView,
}

pub struct ResponseView {
    pub status_code: Seq<char>,
    pub description: Option<Seq<char>>,
    pub content_type: Seq<char>,
    pub schema: Option<SchemaView>,
}

pub struct AuthView {
    pub scheme: AuthScheme,
    pub header_name: Seq<char>,
    pub value_prefix: Option<Seq<char>>,
    pub description: Option<Seq<char>>,
}

/// An endpoint without its synthesized examples.
pub struct EndpointView {
    pub operation_id: Option<Seq<char>>,
    pub method: HttpMethod,
    pub path: Seq<char>,
    pub summary: Option<Seq<char>>,
    pub description: Option<Seq<char>>,
    pub tags: Seq<Seq<char>>,
    pub parameters: Seq<ParamView>,
    pub request_body: Option<BodyView>,
    pub responses: Seq<ResponseView>,
    pub auth: Option<AuthView>,
}

pub open spec fn param_view(p: CanonicalParameter) -> ParamView {
    ParamView { name: p.name@, location: p.location, description: text_view(p.description), required: p.required, schema: p.schema@ }
}

pub open spec fn body_view(b: CanonicalRequestBody) -> BodyView {
    BodyView { content_type: b.content_type@, required: b.required, schema: b.schema@ }
}

pub open spec fn response_view(r: CanonicalResponse) -> ResponseView {
    ResponseView {
        status_code: r.status_code@,
        description: text_view(r.description),
        content_type: r.content_type@,
        schema: match r.schema {
            Some(s) => Some(s@),
            None => None,
        },
    }
}

pub open spec fn auth_view(a: AuthRequirement) -> AuthView {
    AuthView { scheme: a.scheme, header_name: a.header_name@, value_prefix: text_view(a.value_prefix), description: text_view(a.description) }
}

pub open spec fn params_views(v: Seq<CanonicalParameter>) -> Seq<ParamView> {
    v.map_values(|p: CanonicalParameter| param_view(p))
}

pub open spec fn responses_views(v: Seq<CanonicalResponse>) -> Seq<ResponseView> {
    v.map_values(|r: CanonicalResponse| response_view(r))
}

pub open spec fn endpoint_view(e: CanonicalEndpoint) -> EndpointView {
    EndpointView {
        operation_id: text_view(e.operation_id),
        method: e.method,
        path: e.path@,
        summary: text_view(e.summary),
        description: text_view(e.description),
        tags: crate::schema_view::names_view(e.tags@),
        parameters: params_views(e.parameters@),
        request_body: match e.request_body {
            Some(b) => Some(body_view(b)),
            None => None,
        },
        responses: responses_views(e.responses@),
        auth: match e.auth {
            Some(a) => Some(auth_view(a)),
            None => None,
        },
    }
}

// ---------------------------------------------------------------------
// Media types

pub open spec fn content_of(x: JsonSpec) -> Seq<(Seq<char>, JsonSpec)> {
    match jobj(x, "content"@) {
        Some(m) => m,
        None => Seq::empty(),
    }
}

/// The media type an importer reads: `application/json` when listed, else
/// the first one; with none listed, `application/json` and no media.
#[verifier::opaque]
pub open spec fn select_media(c: Seq<(Seq<char>, JsonSpec)>) -> (Seq<char>, Option<JsonSpec>) {
    match entry_get(c, "application/json"@) {
        Some(m) => ("application/json"@, Some(m)),
        None => if c.len() > 0 {
            (c[0].0, Some(c[0].1))
        } else {
            ("application/json"@, None)
        },
    }
}

/// A media type's schema, or the schema its example implies.
#[verifier::opaque]
pub open spec fn media_schema(m: JsonSpec, comps: Option<JsonSpec>) -> Option<SchemaView> {
    match jget(m, "schema"@) {
        Some(s) => Some(typed_ref(s, comps, crate::parser::oajson::walk_fuel(s, comps))),
        None => match jget(m, "example"@) {
            Some(x) => Some(inferred_view(x, false)),
            None => None,
        },
    }
}

/// The schema value of a content map in the parsed document, for the given
/// media type (else `application/json`, else the first), reference followed.
#[verifier::opaque]
pub open spec fn raw_media(container: JsonSpec, ct: Seq<char>, root: JsonSpec) -> Option<JsonSpec> {
    match jget(container, "content"@) {
        Some(content) => {
            let media = match jget(content, ct) {
                Some(m) => Some(m),
                None => match jget(content, "application/json"@) {
                    Some(m) => Some(m),
                    None => match content {
                        JsonSpec::Object(es) => if es.len() > 0 {
                            Some(es[0].1)
                        } else {
                            None
                        },
                        _ => None,
                    },
                },
            };
            match media {
                Some(m) => match jget(m, "schema"@) {
                    Some(s) => Some(resolve_ref(s, root)),
                    None => None,
                },
                None => None,
            }
        },
        None => None,
    }
}

// ---------------------------------------------------------------------
// Components

/// A value of the document, or the component of `section` that its
/// `#/components/<section>/NAME` reference names.
#[verifier::opaque]
pub open spec fn resolve_component(v: JsonSpec, comps: Option<JsonSpec>, section: Seq<char>, what: Seq<char>) -> Result<JsonSpec, Seq<char>> {
    match ref_text(v) {
        None => Ok(v),
        Some(r) => {
            let prefix = "#/components/"@ + section + "/"@;
            if !starts_with(r, prefix) {
                Err("unsupported OpenAPI "@ + what + " reference: "@ + r)
            } else {
                match comps {
                    None => Err("OpenAPI "@ + what + " reference requires components: "@ + r),
                    Some(c) => match jobj(c, section) {
                        Some(m) => match entry_get(m, r.subrange(prefix.len() as int, r.len() as int)) {
                            Some(t) => if ref_text(t) is Some {
                                Err("unresolved OpenAPI "@ + what + " reference: "@ + r)
                            } else {
                                Ok(t)
                            },
                            None => Err("unresolved OpenAPI "@ + what + " reference: "@ + r),
                        },
                        None => Err("unresolved OpenAPI "@ + what + " reference: "@ + r),
                    },
                }
            }
        },
    }
}

// ---------------------------------------------------------------------
// Parameters

pub open spec fn location_of(q: JsonSpec) -> ParameterLocation {
    let t = jstr(q, "in"@);
    if t == Some("path"@) {
        ParameterLocation::Path
    } else if t == Some("header"@) {
        ParameterLocation::Header
    } else if t == Some("cookie"@) {
        ParameterLocation::Cookie
    } else {
        ParameterLocation::Query
    }
}

pub open spec fn location_word(l: ParameterLocation) -> Seq<char> {
    match l {
        ParameterLocation::Path => "path"@,
        ParameterLocation::Query => "query"@,
        ParameterLocation::Header => "header"@,
        ParameterLocation::Cookie => "cookie"@,
    }
}

pub open spec fn or_empty(o: Option<Seq<char>>) -> Seq<char> {
    match o {
        Some(s) => s,
        None => Seq::empty(),
    }
}

/// A parameter's schema: its `schema`, else the schema of its content's
/// media type, else a plain string.
#[verifier::opaque]
pub open spec fn param_schema(q: JsonSpec, comps: Option<JsonSpec>) -> SchemaView {
    match jget(q, "schema"@) {
        Some(s) => typed_ref(s, comps, crate::parser::oajson::walk_fuel(s, comps)),
        None => match select_media(content_of(q)).1 {
            Some(m) => match media_schema(m, comps) {
                Some(v) => v,
                None => blank_view(SchemaNodeType::String),
            },
            None => blank_view(SchemaNodeType::String),
        },
    }
}

/// A parameter (or the component one it references); path parameters are
/// always required.
#[verifier::opaque]
pub open spec fn param_spec(p: JsonSpec, comps: Option<JsonSpec>) -> Result<ParamView, Seq<char>> {
    match resolve_component(p, comps, "parameters"@, "parameter"@) {
        Err(e) => Err(e),
        Ok(q) => {
            let loc = location_of(q);
            let req = loc == ParameterLocation::Path || jbool(q, "required"@) == Some(true);
            Ok(ParamView {
                name: or_empty(jstr(q, "name"@)),
                location: loc,
                description: jstr(q, "description"@),
                required: req,
                schema: SchemaView { required: req, ..param_schema(q, comps) },
            })
        },
    }
}

pub open spec fn param_key(pv: ParamView) -> Seq<char> {
    location_word(pv.location) + ":"@ + pv.name
}

/// Parameters keyed by location and name, later ones replacing earlier
/// ones; the first parameter that cannot be read stops the import.
pub open spec fn params_fold(ps: Seq<JsonSpec>, acc: Seq<(Seq<char>, ParamView)>, comps: Option<JsonSpec>) -> Result<Seq<(Seq<char>, ParamView)>, Seq<char>>
    decreases ps.len(),
{
    if ps.len() == 0 {
        Ok(acc)
    } else {
        match params_fold(ps.drop_last(), acc, comps) {
            Err(e) => Err(e),
            Ok(prev) => match param_spec(ps.last(), comps) {
                Err(e) => Err(e),
                Ok(pv) => Ok(vinsert(prev, param_key(pv), pv)),
            },
        }
    }
}

// ---------------------------------------------------------------------
// Request bodies and responses

#[verifier::opaque]
pub open spec fn body_spec(b: JsonSpec, comps: Option<JsonSpec>, raw_body: Option<JsonSpec>, root: JsonSpec) -> Result<BodyView, Seq<char>> {
    match resolve_component(b, comps, "requestBodies"@, "request body"@) {
        Err(e) => Err(e),
        Ok(q) => {
            let (ct, m) = select_media(content_of(q));
            let rb = match raw_body {
                Some(x) => resolve_ref(x, root),
                None => JsonSpec::Null,
            };
            let base = match m {
                Some(mm) => match media_schema(mm, comps) {
                    Some(v) => v,
                    None => blank_view(SchemaNodeType::Object),
                },
                None => blank_view(SchemaNodeType::Object),
            };
            Ok(BodyView {
                content_type: ct,
                required: jbool(q, "required"@) == Some(true),
                schema: match raw_media(rb, ct, root) {
                    Some(x) => ext(base, x, root, crate::parser::oajson::walk_fuel(x, Some(root))),
                    None => base,
                },
            })
        },
    }
}

/// A response key read as a status code: three digits from `100` to `999`,
/// or a digit followed by `XX` (in either case).
pub open spec fn status_key(k: Seq<char>) -> Option<Seq<char>> {
    if k.len() == 3 && is_ascii_digit(k[0]) && is_ascii_digit(k[1]) && is_ascii_digit(k[2]) {
        if k[0] != '0' {
            Some(k)
        } else {
            None
        }
    } else if k.len() == 3 && is_ascii_digit(k[0]) && upper_char(k[1]) == 'X' && upper_char(k[2]) == 'X' {
        Some(seq![k[0], 'X', 'X'])
    } else {
        None
    }
}

/// Puts an entry in an insertion-ordered map: a key already there keeps its
/// place and takes the new value.
pub open spec fn index_put(m: Seq<(Seq<char>, JsonSpec)>, k: Seq<char>, v: JsonSpec) -> Seq<(Seq<char>, JsonSpec)> {
    if exists|i: int| 0 <= i < m.len() && m[i].0 == k {
        let i = choose|i: int| 0 <= i < m.len() && m[i].0 == k && forall|j: int| 0 <= j < i ==> m[j].0 != k;
        m.update(i, (k, v))
    } else {
        m.push((k, v))
    }
}

/// The responses of an operation keyed by status code.
pub open spec fn status_entries(es: Seq<(Seq<char>, JsonSpec)>) -> Seq<(Seq<char>, JsonSpec)>
    decreases es.len(),
{
    if es.len() == 0 {
        Seq::empty()
    } else {
        let prev = status_entries(es.drop_last());
        match status_key(es.last().0) {
            Some(c) => index_put(prev, c, es.last().1),
            None => prev,
        }
    }
}

#[verifier::opaque]
pub open spec fn response_spec(code: Seq<char>, resp: JsonSpec, comps: Option<JsonSpec>, raw_responses: JsonSpec, root: JsonSpec) -> Result<ResponseView, Seq<char>> {
    match resolve_component(resp, comps, "responses"@, "response"@) {
        Err(e) => Err(e),
        Ok(q) => {
            let (ct, m) = select_media(content_of(q));
            let raw_entry = match jget(raw_responses, code) {
                Some(x) => Some(x),
                None => jget(raw_responses, "default"@),
            };
            let raw_schema = match raw_entry {
                Some(x) => raw_media(resolve_ref(x, root), ct, root),
                None => None,
            };
            Ok(ResponseView {
                status_code: code,
                description: Some(or_empty(jstr(q, "description"@))),
                content_type: ct,
                schema: match m {
                    Some(mm) => match media_schema(mm, comps) {
                        Some(v) => Some(match raw_schema {
                            Some(x) => ext(v, x, root, crate::parser::oajson::walk_fuel(x, Some(root))),
                            None => v,
                        }),
                        None => None,
                    },
                    None => None,
                },
            })
        },
    }
}

pub open spec fn responses_fold(es: Seq<(Seq<char>, JsonSpec)>, comps: Option<JsonSpec>, raw_responses: JsonSpec, root: JsonSpec) -> Result<Seq<ResponseView>, Seq<char>>
    decreases es.len(),
{
    if es.len() == 0 {
        Ok(Seq::empty())
    } else {
        match responses_fold(es.drop_last(), comps, raw_responses, root) {
            Err(e) => Err(e),
            Ok(prev) => match response_spec(es.last().0, es.last().1, comps, raw_responses, root) {
                Err(e) => Err(e),
                Ok(r) => Ok(prev.push(r)),
            },
        }
    }
}

pub open spec fn placeholder_response() -> ResponseView {
    ResponseView {
        status_code: "200"@,
        description: Some("Default response placeholder"@),
        content_type: "application/json"@,
        schema: None,
    }
}

/// The responses of an operation, or the placeholder when it has none.
pub open spec fn responses_spec(op: JsonSpec, comps: Option<JsonSpec>, raw_responses: JsonSpec, root: JsonSpec) -> Result<Seq<ResponseView>, Seq<char>> {
    let es = match jget(op, "responses"@) {
        Some(JsonSpec::Object(m)) => m,
        _ => Seq::empty(),
    };
    match responses_fold(status_entries(es), comps, raw_responses, root) {
        Err(e) => Err(e),
        Ok(rs) => if rs.len() == 0 {
            Ok(seq![placeholder_response()])
        } else {
            Ok(rs)
        },
    }
}

// ---------------------------------------------------------------------
// Security

/// The first scheme named by a requirement that names any.
pub open spec fn first_scheme(reqs: Seq<JsonSpec>) -> Option<Seq<char>>
    decreases reqs.len(),
{
    if reqs.len() == 0 {
        None
    } else {
        match reqs[0] {
            JsonSpec::Object(m) => if m.len() > 0 {
                Some(m[0].0)
            } else {
                first_scheme(reqs.subrange(1, reqs.len() as int))
            },
            _ => first_scheme(reqs.subrange(1, reqs.len() as int)),
        }
    }
}

/// What a security scheme asks of a request, as a header gate.
#[verifier::opaque]
pub open spec fn scheme_hint(s: JsonSpec) -> AuthView {
    let t = jstr(s, "type"@);
    let d = jstr(s, "description"@);
    if t == Some("http"@) {
        let sch = or_empty(jstr(s, "scheme"@));
        if lower(sch) == "bearer"@ {
            AuthView { scheme: AuthScheme::HttpBearer, header_name: "Authorization"@, value_prefix: Some("Bearer "@), description: d }
        } else if lower(sch) == "basic"@ {
            AuthView { scheme: AuthScheme::HttpBasic, header_name: "Authorization"@, value_prefix: Some("Basic "@), description: d }
        } else {
            AuthView { scheme: AuthScheme::Other, header_name: "Authorization"@, value_prefix: None, description: Some("HTTP "@ + sch + " auth"@) }
        }
    } else if t == Some("apiKey"@) {
        let name = or_empty(jstr(s, "name"@));
        let loc = jstr(s, "in"@);
        if loc == Some("header"@) {
            AuthView { scheme: AuthScheme::ApiKeyHeader, header_name: name, value_prefix: None, description: d }
        } else {
            AuthView {
                scheme: AuthScheme::Other,
                header_name: name,
                value_prefix: None,
                description: Some("API key in "@ + if loc == Some("query"@) { "Query"@ } else { "Cookie"@ }),
            }
        }
    } else if t == Some("oauth2"@) {
        AuthView { scheme: AuthScheme::OAuth2, header_name: "Authorization"@, value_prefix: Some("Bearer "@), description: d }
    } else {
        AuthView {
            scheme: AuthScheme::Other,
            header_name: "Authorization"@,
            value_prefix: Some("Bearer "@),
            description: if d is Some { d } else { Some("OpenID Connect"@) },
        }
    }
}

/// The auth hint of a requirement list: the first scheme named, when the
/// components define it in place.
#[verifier::opaque]
pub open spec fn auth_spec(reqs: Seq<JsonSpec>, comps: Option<JsonSpec>) -> Option<AuthView> {
    match comps {
        None => None,
        Some(c) => match first_scheme(reqs) {
            None => None,
            Some(name) => match jobj(c, "securitySchemes"@) {
                Some(m) => match entry_get(m, name) {
                    Some(s) => if ref_text(s) is Some {
                        None
                    } else {
                        Some(scheme_hint(s))
                    },
                    None => None,
                },
                None => None,
            },
        },
    }
}

// ---------------------------------------------------------------------
// Operations

pub open spec fn method_of(m: Seq<char>) -> Option<HttpMethod> {
    let l = lower(m);
    if l == "get"@ {
        Some(HttpMethod::Get)
    } else if l == "post"@ {
        Some(HttpMethod::Post)
    } else if l == "put"@ {
        Some(HttpMethod::Put)
    } else if l == "patch"@ {
        Some(HttpMethod::Patch)
    } else if l == "delete"@ {
        Some(HttpMethod::Delete)
    } else if l == "options"@ {
        Some(HttpMethod::Options)
    } else if l == "head"@ {
        Some(HttpMethod::Head)
    } else {
        None
    }
}

/// The operation's entry in the parsed document.
pub open spec fn raw_operation(root: JsonSpec, path: Seq<char>, method: Seq<char>) -> Option<JsonSpec> {
    match jget(root, "paths"@) {
        Some(ps) => match jget(ps, path) {
            Some(item) => jget(item, method),
            None => None,
        },
        None => None,
    }
}

pub open spec fn first_text(a: Option<Seq<char>>, b: Option<Seq<char>>) -> Option<Seq<char>> {
    if a is Some {
        a
    } else {
        b
    }
}

pub open spec fn param_values(m: Seq<(Seq<char>, ParamView)>) -> Seq<ParamView> {
    m.map_values(|e: (Seq<char>, ParamView)| e.1)
}

/// The endpoint of one operation of a path item.
#[verifier::opaque]
pub open spec fn endpoint_spec(doc: JsonSpec, root: JsonSpec, path: Seq<char>, item: JsonSpec, method: Seq<char>, op: JsonSpec) -> Result<EndpointView, Seq<char>> {
    let comps = jget(doc, "components"@);
    match params_fold(list_of(item, "parameters"@), Seq::empty(), comps) {
        Err(e) => Err(e),
        Ok(p1) => match params_fold(list_of(op, "parameters"@), p1, comps) {
            Err(e) => Err(e),
            Ok(params) => {
                let raw_op = raw_operation(root, path, method);
                let body = match jget(op, "requestBody"@) {
                    Some(b) => match body_spec(b, comps, match raw_op { Some(o) => jget(o, "requestBody"@), None => None }, root) {
                        Err(e) => Err(e),
                        Ok(bv) => Ok(Some(bv)),
                    },
                    None => Ok(None),
                };
                match body {
                    Err(e) => Err(e),
                    Ok(request_body) => {
                        let raw_responses = match raw_op {
                            Some(o) => match jget(o, "responses"@) {
                                Some(x) => resolve_ref(x, root),
                                None => JsonSpec::Null,
                            },
                            None => JsonSpec::Null,
                        };
                        match responses_spec(op, comps, raw_responses, root) {
                            Err(e) => Err(e),
                            Ok(responses) => match method_of(method) {
                                None => Err("unsupported HTTP method in OpenAPI document: "@ + lower(method)),
                                Some(m) => {
                                    let security = match jarr(op, "security"@) {
                                        Some(l) => Some(l),
                                        None => jarr(doc, "security"@),
                                    };
                                    Ok(EndpointView {
                                        operation_id: jstr(op, "operationId"@),
                                        method: m,
                                        path,
                                        summary: first_text(jstr(op, "summary"@), jstr(item, "summary"@)),
                                        description: first_text(jstr(op, "description"@), jstr(item, "description"@)),
                                        tags: strings_of(list_of(op, "tags"@)),
                                        parameters: param_values(params),
                                        request_body,
                                        responses,
                                        auth: match security {
                                            Some(l) => auth_spec(l, comps),
                                            None => None,
                                        },
                                    })
                                },
                            },
                        }
                    },
                }
            },
        },
    }
}

/// The endpoints so far and the one of `method`, when the path item has
/// that operation.
pub open spec fn add_method(acc: Result<Seq<EndpointView>, Seq<char>>, doc: JsonSpec, root: JsonSpec, path: Seq<char>, item: JsonSpec, method: Seq<char>) -> Result<Seq<EndpointView>, Seq<char>> {
    match acc {
        Err(e) => Err(e),
        Ok(prev) => match jget(item, method) {
            Some(op) => match endpoint_spec(doc, root, path, item, method, op) {
                Err(e) => Err(e),
                Ok(ev) => Ok(prev.push(ev)),
            },
            None => Ok(prev),
        },
    }
}

/// The operations of a path item, in the order get, put, post, delete,
/// options, head, patch, trace.
pub open spec fn item_endpoints(doc: JsonSpec, root: JsonSpec, path: Seq<char>, item: JsonSpec) -> Result<Seq<EndpointView>, Seq<char>> {
    let a = add_method(Ok(Seq::empty()), doc, root, path, item, "get"@);
    let b = add_method(a, doc, root, path, item, "put"@);
    let c = add_method(b, doc, root, path, item, "post"@);
    let d = add_method(c, doc, root, path, item, "delete"@);
    let e = add_method(d, doc, root, path, item, "options"@);
    let f = add_method(e, doc, root, path, item, "head"@);
    let g = add_method(f, doc, root, path, item, "patch"@);
    add_method(g, doc, root, path, item, "trace"@)
}

/// The endpoints of every path (keys starting with `/`) whose item is not
/// a reference, in document order.
pub open spec fn paths_fold(doc: JsonSpec, root: JsonSpec, es: Seq<(Seq<char>, JsonSpec)>) -> Result<Seq<EndpointView>, Seq<char>>
    decreases es.len(),
{
    if es.len() == 0 {
        Ok(Seq::empty())
    } else {
        match paths_fold(doc, root, es.drop_last()) {
            Err(e) => Err(e),
            Ok(prev) => {
                let (p, item) = es.last();
                if !starts_with(p, "/"@) || ref_text(item) is Some {
                    Ok(prev)
                } else {
                    match item_endpoints(doc, root, p, item) {
                        Err(e) => Err(e),
                        Ok(evs) => Ok(prev + evs),
                    }
                }
            },
        }
    }
}

pub open spec fn doc_paths(doc: JsonSpec) -> Seq<(Seq<char>, JsonSpec)> {
    match jget(doc, "paths"@) {
        Some(JsonSpec::Object(m)) => m,
        _ => Seq::empty(),
    }
}


// ---------------------------------------------------------------------
// Executable side

/// `a + b + c` as a string.
fn text3(a: &str, b: &str, c: &str) -> (r: String)
    ensures
        r@ == a@ + b@ + c@,
{
    let mut v = chars_of(a);
    crate::text::append_str(&mut v, b);
    crate::text::append_str(&mut v, c);
    crate::text::string_of(&v)
}

/// `a + b` as a string.
fn text2(a: &str, b: &str) -> (r: String)
    ensures
        r@ == a@ + b@,
{
    let mut v = chars_of(a);
    crate::text::append_str(&mut v, b);
    crate::text::string_of(&v)
}

/// The media type chosen from `x`'s `content`, and its entry.
fn select_media_in<'a>(x: &'a JsonValue) -> (r: (String, Option<&'a JsonValue>))
    ensures
        (r.0@, ref_view(r.1)) == select_media(content_of(x@)),
{
    reveal(select_media);
    match get_field(x, "content") {
        Some(JsonValue::Object(c)) => {
            proof {
                lemma_view_entries(c@);
                crate::parser::oajson::lemma_entry_get(c@, "application/json"@);
                crate::json::lemma_entry_index(c@, "application/json"@);
            }
            let k = chars_of("application/json");
            match crate::json::find_entry(c, &k) {
                Some(i) => ("application/json".to_string(), Some(&c[i].1)),
                None => if c.len() > 0 {
                    (c[0].0.clone(), Some(&c[0].1))
                } else {
                    ("application/json".to_string(), None)
                },
            }
        },
        _ => ("application/json".to_string(), None),
    }
}

fn media_schema_of(m: &JsonValue, comps: Option<&JsonValue>) -> (r: Option<SchemaNode>)
    ensures
        match r {
            Some(n) => media_schema(m@, ref_view(comps)) == Some(n@),
            None => media_schema(m@, ref_view(comps)) is None,
        },
{
    reveal(media_schema);
    match get_field(m, "schema") {
        Some(sc) => Some(crate::parser::oaschema::typed_ref_of(sc, comps, crate::parser::oajson::walk_fuel_of(sc, comps))),
        None => match get_field(m, "example") {
            Some(x) => {
                let n = crate::parser::detect::schema_from_json_value(x);
                proof {
                    crate::parser::detect::lemma_inferred_view(*x, n, false);
                }
                Some(n)
            },
            None => None,
        },
    }
}

fn raw_media_of<'a>(container: &'a JsonValue, ct: &String, root: &'a JsonValue) -> (r: Option<&'a JsonValue>)
    ensures
        ref_view(r) == raw_media(container@, ct@, root@),
{
    reveal(raw_media);
    match get_field(container, "content") {
        Some(content) => {
            let media = match get_field(content, ct.as_str()) {
                Some(m) => Some(m),
                None => match get_field(content, "application/json") {
                    Some(m) => Some(m),
                    None => match content {
                        JsonValue::Object(es) => {
                            proof {
                                lemma_view_entries(es@);
                            }
                            if es.len() > 0 {
                                Some(&es[0].1)
                            } else {
                                None
                            }
                        },
                        _ => None,
                    },
                },
            };
            match media {
                Some(m) => match get_field(m, "schema") {
                    Some(sc) => Some(resolve_ref_of(sc, root)),
                    None => None,
                },
                None => None,
            }
        },
        None => None,
    }
}

fn resolve_component_of<'a>(v: &'a JsonValue, comps: Option<&'a JsonValue>, section: &str, what: &str) -> (r: Result<&'a JsonValue, String>)
    ensures
        match r {
            Ok(t) => resolve_component(v@, ref_view(comps), section@, what@) == Ok::<JsonSpec, Seq<char>>(t@),
            Err(e) => resolve_component(v@, ref_view(comps), section@, what@) == Err::<JsonSpec, Seq<char>>(e@),
        },
{
    reveal(resolve_component);
    let r = match get_str(v, "$ref") {
        None => return Ok(v),
        Some(r) => r,
    };
    let rc = chars_of(r.as_str());
    let mut prefix = chars_of("#/components/");
    crate::text::append_str(&mut prefix, section);
    crate::text::append_str(&mut prefix, "/");
    let lead = text3("unsupported OpenAPI ", what, " reference: ");
    if !crate::text::starts_with_of(&rc, &prefix) {
        return Err(text2(lead.as_str(), r.as_str()));
    }
    let c = match comps {
        None => {
            let lead = text3("OpenAPI ", what, " reference requires components: ");
            return Err(text2(lead.as_str(), r.as_str()));
        },
        Some(c) => c,
    };
    let unresolved = text3("unresolved OpenAPI ", what, " reference: ");
    match get_field(c, section) {
        Some(JsonValue::Object(m)) => {
            let name = crate::text::slice(&rc, prefix.len(), rc.len());
            proof {
                crate::parser::oajson::lemma_entry_get(m@, name@);
                crate::json::lemma_entry_index(m@, name@);
            }
            match crate::json::find_entry(m, &name) {
                Some(i) => {
                    let t = &m[i].1;
                    if get_str(t, "$ref").is_some() {
                        Err(text2(unresolved.as_str(), r.as_str()))
                    } else {
                        Ok(t)
                    }
                },
                None => Err(text2(unresolved.as_str(), r.as_str())),
            }
        },
        _ => Err(text2(unresolved.as_str(), r.as_str())),
    }
}


fn location_in(q: &JsonValue) -> (l: ParameterLocation)
    ensures
        l == location_of(q@),
{
    let t = get_str(q, "in");
    if crate::parser::oaraw::is_text(&t, "path") {
        ParameterLocation::Path
    } else if crate::parser::oaraw::is_text(&t, "header") {
        ParameterLocation::Header
    } else if crate::parser::oaraw::is_text(&t, "cookie") {
        ParameterLocation::Cookie
    } else {
        ParameterLocation::Query
    }
}

fn param_schema_of(q: &JsonValue, comps: Option<&JsonValue>) -> (n: SchemaNode)
    ensures
        n@ == param_schema(q@, ref_view(comps)),
{
    reveal(param_schema);
    match get_field(q, "schema") {
        Some(sc) => crate::parser::oaschema::typed_ref_of(sc, comps, crate::parser::oajson::walk_fuel_of(sc, comps)),
        None => {
            let (_, m) = select_media_in(q);
            match m {
                Some(mm) => match media_schema_of(mm, comps) {
                    Some(v) => v,
                    None => crate::parser::oaraw::blank_node(SchemaNodeType::String),
                },
                None => crate::parser::oaraw::blank_node(SchemaNodeType::String),
            }
        },
    }
}

fn text_or_empty(o: Option<String>) -> (r: String)
    ensures
        r@ == or_empty(text_view(o)),
{
    match o {
        Some(s) => s,
        None => {
            let v: Vec<char> = Vec::new();
            crate::text::string_of(&v)
        },
    }
}

/// One parameter (or the component parameter it references).
fn param_of(p: &JsonValue, comps: Option<&JsonValue>) -> (r: Result<CanonicalParameter, String>)
    ensures
        match r {
            Ok(cp) => param_spec(p@, ref_view(comps)) == Ok::<ParamView, Seq<char>>(param_view(cp)),
            Err(e) => param_spec(p@, ref_view(comps)) == Err::<ParamView, Seq<char>>(e@),
        },
{
    reveal(param_spec);
    let q = match resolve_component_of(p, comps, "parameters", "parameter") {
        Err(e) => return Err(e),
        Ok(q) => q,
    };
    let loc = location_in(q);
    let req = loc == ParameterLocation::Path || match get_bool(q, "required") {
        Some(b) => b,
        None => false,
    };
    let mut schema = param_schema_of(q, comps);
    schema.required = req;
    Ok(CanonicalParameter {
        name: text_or_empty(get_str(q, "name")),
        location: loc,
        description: get_str(q, "description"),
        required: req,
        schema,
    })
}

pub open spec fn param_view_fn() -> spec_fn(CanonicalParameter) -> ParamView {
    |p: CanonicalParameter| param_view(p)
}

pub open spec fn pkeyed(m: Seq<(String, CanonicalParameter)>) -> Seq<(Seq<char>, ParamView)> {
    crate::assoc::keyed_view(m, param_view_fn())
}

fn param_key_of(cp: &CanonicalParameter) -> (k: String)
    ensures
        k@ == param_key(param_view(*cp)),
{
    let word = match cp.location {
        ParameterLocation::Path => "path",
        ParameterLocation::Query => "query",
        ParameterLocation::Header => "header",
        ParameterLocation::Cookie => "cookie",
    };
    text3(word, ":", cp.name.as_str())
}

proof fn lemma_params_fold_err(ps: Seq<JsonSpec>, acc: Seq<(Seq<char>, ParamView)>, comps: Option<JsonSpec>, k: int)
    requires
        0 <= k <= ps.len(),
        params_fold(ps.subrange(0, k), acc, comps) is Err,
    ensures
        params_fold(ps, acc, comps) == params_fold(ps.subrange(0, k), acc, comps),
    decreases ps.len() - k,
{
    if k < ps.len() {
        assert(ps.subrange(0, k + 1).drop_last() =~= ps.subrange(0, k));
        lemma_params_fold_err(ps, acc, comps, k + 1);
    } else {
        assert(ps.subrange(0, k) =~= ps);
    }
}

fn params_fold_of(ps: &Vec<JsonValue>, acc: Vec<(String, CanonicalParameter)>, comps: Option<&JsonValue>) -> (r: Result<Vec<(String, CanonicalParameter)>, String>)
    ensures
        match r {
            Ok(m) => params_fold(view_items(ps@), pkeyed(acc@), ref_view(comps)) == Ok::<Seq<(Seq<char>, ParamView)>, Seq<char>>(pkeyed(m@)),
            Err(e) => params_fold(view_items(ps@), pkeyed(acc@), ref_view(comps)) == Err::<Seq<(Seq<char>, ParamView)>, Seq<char>>(e@),
        },
{
    proof {
        lemma_view_items(ps@);
    }
    let ghost start = pkeyed(acc@);
    let mut out = acc;
    let mut i: usize = 0;
    while i < ps.len()
        invariant
            i <= ps.len(),
            view_items(ps@).len() == ps@.len(),
            forall|j: int| 0 <= j < ps@.len() ==> #[trigger] view_items(ps@)[j] == view_json(ps@[j]),
            start == pkeyed(acc@),
            params_fold(view_items(ps@).subrange(0, i as int), start, ref_view(comps)) == Ok::<Seq<(Seq<char>, ParamView)>, Seq<char>>(pkeyed(out@)),
        decreases ps.len() - i,
    {
        proof {
            assert(view_items(ps@).subrange(0, i + 1).drop_last() =~= view_items(ps@).subrange(0, i as int));
        }
        match param_of(&ps[i], comps) {
            Err(e) => {
                proof {
                    let sub = view_items(ps@).subrange(0, i + 1);
                    assert(sub.last() == view_json(ps@[i as int]));
                    assert(params_fold(sub, start, ref_view(comps)) == Err::<Seq<(Seq<char>, ParamView)>, Seq<char>>(e@));
                    lemma_params_fold_err(view_items(ps@), start, ref_view(comps), i + 1);
                }
                return Err(e);
            },
            Ok(cp) => {
                proof {
                    let sub = view_items(ps@).subrange(0, i + 1);
                    assert(sub.last() == view_json(ps@[i as int]));
                }
                let key = param_key_of(&cp);
                let ghost before = out@;
                proof {
                    crate::assoc::lemma_map_insert_view(before, key, cp, param_view_fn());
                }
                entries_insert(&mut out, key, cp);
            },
        }
        i += 1;
    }
    proof {
        assert(view_items(ps@).subrange(0, ps@.len() as int) =~= view_items(ps@));
    }
    Ok(out)
}

fn list_in<'a>(x: &'a JsonValue, key: &str, empty: &'a Vec<JsonValue>) -> (r: &'a Vec<JsonValue>)
    requires
        empty@.len() == 0,
    ensures
        view_items(r@) == list_of(x@, key@),
{
    proof {
        assert(view_items(empty@) =~= Seq::<JsonSpec>::empty());
    }
    match get_field(x, key) {
        Some(JsonValue::Array(a)) => a,
        _ => empty,
    }
}

/// The parameters of an operation: those of its path item, then its own,
/// keyed by location and name.
fn params_of(item: &JsonValue, op: &JsonValue, comps: Option<&JsonValue>) -> (r: Result<Vec<CanonicalParameter>, String>)
    ensures
        match params_fold(list_of(item@, "parameters"@), Seq::empty(), ref_view(comps)) {
            Err(e) => r matches Err(x) && x@ == e,
            Ok(p1) => match params_fold(list_of(op@, "parameters"@), p1, ref_view(comps)) {
                Err(e) => r matches Err(x) && x@ == e,
                Ok(params) => r matches Ok(v) && params_views(v@) == param_values(params),
            },
        },
{
    let empty: Vec<JsonValue> = Vec::new();
    let start: Vec<(String, CanonicalParameter)> = Vec::new();
    proof {
        assert(pkeyed(start@) =~= Seq::<(Seq<char>, ParamView)>::empty());
    }
    let p1 = match params_fold_of(list_in(item, "parameters", &empty), start, comps) {
        Err(e) => return Err(e),
        Ok(m) => m,
    };
    let all = match params_fold_of(list_in(op, "parameters", &empty), p1, comps) {
        Err(e) => return Err(e),
        Ok(m) => m,
    };
    let mut out: Vec<CanonicalParameter> = Vec::new();
    let ghost entries = all@;
    let mut rest = all;
    let n = rest.len();
    let mut i: usize = 0;
    while i < n
        invariant
            i <= n == entries.len(),
            rest@ == entries.subrange(i as int, n as int),
            out@.len() == i,
            forall|j: int| 0 <= j < i ==> param_view(#[trigger] out@[j]) == param_view(entries[j].1),
        decreases n - i,
    {
        proof {
            assert(rest@[0] == entries[i as int]);
        }
        let (_, cp) = rest.remove(0);
        out.push(cp);
        proof {
            assert(rest@ =~= entries.subrange(i + 1, n as int));
        }
        i += 1;
    }
    proof {
        assert(params_views(out@) =~= param_values(pkeyed(entries)));
    }
    Ok(out)
}


fn body_of(b: &JsonValue, comps: Option<&JsonValue>, raw_body: Option<&JsonValue>, root: &JsonValue) -> (r: Result<CanonicalRequestBody, String>)
    ensures
        match r {
            Ok(cb) => body_spec(b@, ref_view(comps), ref_view(raw_body), root@) == Ok::<BodyView, Seq<char>>(body_view(cb)),
            Err(e) => body_spec(b@, ref_view(comps), ref_view(raw_body), root@) == Err::<BodyView, Seq<char>>(e@),
        },
{
    reveal(body_spec);
    let q = match resolve_component_of(b, comps, "requestBodies", "request body") {
        Err(e) => return Err(e),
        Ok(q) => q,
    };
    let (ct, m) = select_media_in(q);
    let null = JsonValue::Null;
    let rb: &JsonValue = match raw_body {
        Some(x) => resolve_ref_of(x, root),
        None => &null,
    };
    let base = match m {
        Some(mm) => match media_schema_of(mm, comps) {
            Some(v) => v,
            None => crate::parser::oaraw::blank_node(SchemaNodeType::Object),
        },
        None => crate::parser::oaraw::blank_node(SchemaNodeType::Object),
    };
    let schema = match raw_media_of(rb, &ct, root) {
        Some(x) => crate::parser::oaraw::ext_of(base, x, root, crate::parser::oajson::walk_fuel_of(x, Some(root))),
        None => base,
    };
    Ok(CanonicalRequestBody {
        content_type: ct,
        required: match get_bool(q, "required") {
            Some(v) => v,
            None => false,
        },
        schema,
    })
}

fn digit_of_char(c: char) -> (b: bool)
    ensures
        b == is_ascii_digit(c),
{
    '0' <= c && c <= '9'
}

fn status_key_of(k: &String) -> (r: Option<String>)
    ensures
        text_view(r) == status_key(k@),
{
    let c = chars_of(k.as_str());
    if c.len() != 3 {
        return None;
    }
    if digit_of_char(c[0]) && digit_of_char(c[1]) && digit_of_char(c[2]) {
        if c[0] != '0' {
            return Some(k.clone());
        } else {
            return None;
        }
    }
    if digit_of_char(c[0]) && crate::text::upper_of(c[1]) == 'X' && crate::text::upper_of(c[2]) == 'X' {
        let mut v: Vec<char> = Vec::new();
        v.push(c[0]);
        v.push('X');
        v.push('X');
        proof {
            assert(v@ =~= seq![c@[0], 'X', 'X']);
        }
        return Some(crate::text::string_of(&v));
    }
    None
}

pub open spec fn ref_entries(m: Seq<(String, &JsonValue)>) -> Seq<(Seq<char>, JsonSpec)> {
    m.map_values(|e: (String, &JsonValue)| (e.0@, view_json(*e.1)))
}

proof fn lemma_index_put(m: Seq<(String, &JsonValue)>, k: String, v: &JsonValue, found: Option<int>)
    requires
        found == crate::assoc::key_index(m, k@),
    ensures
        match found {
            Some(i) => index_put(ref_entries(m), k@, view_json(*v)) == ref_entries(m.update(i, (k, v))),
            None => index_put(ref_entries(m), k@, view_json(*v)) == ref_entries(m.push((k, v))),
        },
{
    crate::assoc::lemma_key_index(m, k@);
    let rm = ref_entries(m);
    match found {
        Some(i) => {
            assert(rm[i].0 == k@);
            let c = choose|c: int| 0 <= c < rm.len() && rm[c].0 == k@ && forall|j: int| 0 <= j < c ==> rm[j].0 != k@;
            assert(0 <= c < rm.len() && rm[c].0 == k@ && forall|j: int| 0 <= j < c ==> rm[j].0 != k@);
            if c < i {
                assert(m[c].0@ == rm[c].0);
            }
            if i < c {
                assert(rm[i].0 != k@);
            }
            assert(c == i);
            assert(rm.update(i, (k@, view_json(*v))) =~= ref_entries(m.update(i, (k, v))));
        },
        None => {
            assert forall|j: int| 0 <= j < rm.len() implies rm[j].0 != k@ by {
                assert(rm[j].0 == m[j].0@);
            }
            assert(rm.push((k@, view_json(*v))) =~= ref_entries(m.push((k, v))));
        },
    }
}

/// The responses of an operation keyed by status code, in document order.
fn status_entries_of<'a>(es: &'a Vec<(String, JsonValue)>) -> (r: Vec<(String, &'a JsonValue)>)
    ensures
        ref_entries(r@) == status_entries(view_entries(es@)),
{
    proof {
        lemma_view_entries(es@);
    }
    let mut out: Vec<(String, &'a JsonValue)> = Vec::new();
    let mut i: usize = 0;
    proof {
        assert(ref_entries(out@) =~= Seq::<(Seq<char>, JsonSpec)>::empty());
    }
    while i < es.len()
        invariant
            i <= es.len(),
            view_entries(es@).len() == es@.len(),
            forall|j: int| 0 <= j < es@.len() ==> #[trigger] view_entries(es@)[j] == (es@[j].0@, view_json(es@[j].1)),
            ref_entries(out@) == status_entries(view_entries(es@).subrange(0, i as int)),
        decreases es.len() - i,
    {
        proof {
            assert(view_entries(es@).subrange(0, i + 1).drop_last() =~= view_entries(es@).subrange(0, i as int));
        }
        match status_key_of(&es[i].0) {
            Some(code) => {
                let v: &'a JsonValue = &es[i].1;
                let found = crate::assoc::find_key_str(&out, code.as_str());
                let ghost before = out@;
                proof {
                    let f = match found {
                        Some(j) => Some(j as int),
                        None => None,
                    };
                    lemma_index_put(before, code, v, f);
                }
                proof {
                    crate::assoc::lemma_key_index(before, code@);
                }
                match found {
                    Some(j) => {
                        out.set(j, (code, v));
                    },
                    None => {
                        out.push((code, v));
                    },
                }
            },
            None => {},
        }
        i += 1;
    }
    proof {
        assert(view_entries(es@).subrange(0, es@.len() as int) =~= view_entries(es@));
    }
    out
}


fn response_of(code: &String, resp: &JsonValue, comps: Option<&JsonValue>, raw_responses: &JsonValue, root: &JsonValue) -> (r: Result<CanonicalResponse, String>)
    ensures
        match r {
            Ok(cr) => response_spec(code@, resp@, ref_view(comps), raw_responses@, root@) == Ok::<ResponseView, Seq<char>>(response_view(cr)),
            Err(e) => response_spec(code@, resp@, ref_view(comps), raw_responses@, root@) == Err::<ResponseView, Seq<char>>(e@),
        },
{
    reveal(response_spec);
    let q = match resolve_component_of(resp, comps, "responses", "response") {
        Err(e) => return Err(e),
        Ok(q) => q,
    };
    let (ct, m) = select_media_in(q);
    let raw_entry = match get_field(raw_responses, code.as_str()) {
        Some(x) => Some(x),
        None => get_field(raw_responses, "default"),
    };
    let raw_schema = match raw_entry {
        Some(x) => raw_media_of(resolve_ref_of(x, root), &ct, root),
        None => None,
    };
    let schema = match m {
        Some(mm) => match media_schema_of(mm, comps) {
            Some(v) => Some(match raw_schema {
                Some(x) => crate::parser::oaraw::ext_of(v, x, root, crate::parser::oajson::walk_fuel_of(x, Some(root))),
                None => v,
            }),
            None => None,
        },
        None => None,
    };
    Ok(CanonicalResponse {
        status_code: code.clone(),
        description: Some(text_or_empty(get_str(q, "description"))),
        content_type: ct,
        schema,
    })
}

proof fn lemma_responses_fold_err(es: Seq<(Seq<char>, JsonSpec)>, comps: Option<JsonSpec>, raw: JsonSpec, root: JsonSpec, k: int)
    requires
        0 <= k <= es.len(),
        responses_fold(es.subrange(0, k), comps, raw, root) is Err,
    ensures
        responses_fold(es, comps, raw, root) == responses_fold(es.subrange(0, k), comps, raw, root),
    decreases es.len() - k,
{
    if k < es.len() {
        assert(es.subrange(0, k + 1).drop_last() =~= es.subrange(0, k));
        lemma_responses_fold_err(es, comps, raw, root, k + 1);
    } else {
        assert(es.subrange(0, k) =~= es);
    }
}

/// The responses of an operation, or the placeholder when it has none.
fn responses_of(op: &JsonValue, comps: Option<&JsonValue>, raw_responses: &JsonValue, root: &JsonValue) -> (r: Result<Vec<CanonicalResponse>, String>)
    ensures
        match r {
            Ok(v) => responses_spec(op@, ref_view(comps), raw_responses@, root@) == Ok::<Seq<ResponseView>, Seq<char>>(responses_views(v@)),
            Err(e) => responses_spec(op@, ref_view(comps), raw_responses@, root@) == Err::<Seq<ResponseView>, Seq<char>>(e@),
        },
{
    let none: Vec<(String, JsonValue)> = Vec::new();
    proof {
        assert(view_entries(none@) =~= Seq::<(Seq<char>, JsonSpec)>::empty());
    }
    let es: &Vec<(String, JsonValue)> = match get_field(op, "responses") {
        Some(JsonValue::Object(m)) => m,
        _ => &none,
    };
    let entries = status_entries_of(es);
    let ghost all = ref_entries(entries@);
    let mut out: Vec<CanonicalResponse> = Vec::new();
    let mut i: usize = 0;
    proof {
        assert(responses_views(out@) =~= Seq::<ResponseView>::empty());
    }
    while i < entries.len()
        invariant
            i <= entries.len(),
            all == ref_entries(entries@),
            all == status_entries(view_entries(es@)),
            view_entries(es@) == (match jget(op@, "responses"@) {
                Some(JsonSpec::Object(m)) => m,
                _ => Seq::empty(),
            }),
            responses_fold(all.subrange(0, i as int), ref_view(comps), raw_responses@, root@) == Ok::<Seq<ResponseView>, Seq<char>>(responses_views(out@)),
        decreases entries.len() - i,
    {
        proof {
            assert(all.subrange(0, i + 1).drop_last() =~= all.subrange(0, i as int));
            assert(all.subrange(0, i + 1).last() == (entries@[i as int].0@, view_json(*entries@[i as int].1)));
        }
        match response_of(&entries[i].0, entries[i].1, comps, raw_responses, root) {
            Err(e) => {
                proof {
                    assert(responses_fold(all.subrange(0, i + 1), ref_view(comps), raw_responses@, root@) == Err::<Seq<ResponseView>, Seq<char>>(e@));
                    lemma_responses_fold_err(all, ref_view(comps), raw_responses@, root@, i + 1);
                    assert(responses_fold(all, ref_view(comps), raw_responses@, root@) == Err::<Seq<ResponseView>, Seq<char>>(e@));
                }
                return Err(e);
            },
            Ok(cr) => {
                let ghost before = out@;
                out.push(cr);
                proof {
                    assert(responses_views(out@) =~= responses_views(before).push(response_view(cr)));
                }
            },
        }
        i += 1;
    }
    proof {
        assert(all.subrange(0, entries@.len() as int) =~= all);
    }
    if out.len() == 0 {
        let mut v: Vec<CanonicalResponse> = Vec::new();
        v.push(CanonicalResponse {
            status_code: "200".to_string(),
            description: Some("Default response placeholder".to_string()),
            content_type: "application/json".to_string(),
            schema: None,
        });
        proof {
            assert(responses_views(v@) =~= seq![placeholder_response()]);
        }
        return Ok(v);
    }
    Ok(out)
}

fn first_scheme_of(reqs: &Vec<JsonValue>) -> (r: Option<String>)
    ensures
        text_view(r) == first_scheme(view_items(reqs@)),
{
    proof {
        lemma_view_items(reqs@);
    }
    let mut i: usize = 0;
    proof {
        assert(view_items(reqs@).subrange(0, view_items(reqs@).len() as int) =~= view_items(reqs@));
    }
    while i < reqs.len()
        invariant
            i <= reqs.len(),
            view_items(reqs@).len() == reqs@.len(),
            forall|j: int| 0 <= j < reqs@.len() ==> #[trigger] view_items(reqs@)[j] == view_json(reqs@[j]),
            first_scheme(view_items(reqs@)) == first_scheme(view_items(reqs@).subrange(i as int, reqs@.len() as int)),
        decreases reqs.len() - i,
    {
        let ghost rest = view_items(reqs@).subrange(i as int, reqs@.len() as int);
        proof {
            assert(rest[0] == view_json(reqs@[i as int]));
            assert(rest.subrange(1, rest.len() as int) =~= view_items(reqs@).subrange(i + 1, reqs@.len() as int));
        }
        match &reqs[i] {
            JsonValue::Object(m) => {
                proof {
                    lemma_view_entries(m@);
                }
                if m.len() > 0 {
                    return Some(m[0].0.clone());
                }
            },
            _ => {},
        }
        i += 1;
    }
    None
}

fn scheme_hint_of(s: &JsonValue) -> (a: AuthRequirement)
    ensures
        auth_view(a) == scheme_hint(s@),
{
    reveal(scheme_hint);
    let t = get_str(s, "type");
    let d = get_str(s, "description");
    if crate::parser::oaraw::is_text(&t, "http") {
        let sch = text_or_empty(get_str(s, "scheme"));
        let low = crate::text::to_lower(&chars_of(sch.as_str()));
        if crate::text::eq_str(&low, "bearer") {
            AuthRequirement { scheme: AuthScheme::HttpBearer, header_name: "Authorization".to_string(), value_prefix: Some("Bearer ".to_string()), description: d }
        } else if crate::text::eq_str(&low, "basic") {
            AuthRequirement { scheme: AuthScheme::HttpBasic, header_name: "Authorization".to_string(), value_prefix: Some("Basic ".to_string()), description: d }
        } else {
            AuthRequirement { scheme: AuthScheme::Other, header_name: "Authorization".to_string(), value_prefix: None, description: Some(text3("HTTP ", sch.as_str(), " auth")) }
        }
    } else if crate::parser::oaraw::is_text(&t, "apiKey") {
        let name = text_or_empty(get_str(s, "name"));
        let loc = get_str(s, "in");
        if crate::parser::oaraw::is_text(&loc, "header") {
            AuthRequirement { scheme: AuthScheme::ApiKeyHeader, header_name: name, value_prefix: None, description: d }
        } else {
            let place = if crate::parser::oaraw::is_text(&loc, "query") { "Query" } else { "Cookie" };
            AuthRequirement { scheme: AuthScheme::Other, header_name: name, value_prefix: None, description: Some(text2("API key in ", place)) }
        }
    } else if crate::parser::oaraw::is_text(&t, "oauth2") {
        AuthRequirement { scheme: AuthScheme::OAuth2, header_name: "Authorization".to_string(), value_prefix: Some("Bearer ".to_string()), description: d }
    } else {
        AuthRequirement {
            scheme: AuthScheme::Other,
            header_name: "Authorization".to_string(),
            value_prefix: Some("Bearer ".to_string()),
            description: match d {
                Some(x) => Some(x),
                None => Some("OpenID Connect".to_string()),
            },
        }
    }
}

fn auth_of(reqs: &Vec<JsonValue>, comps: Option<&JsonValue>) -> (r: Option<AuthRequirement>)
    ensures
        match r {
            Some(a) => auth_spec(view_items(reqs@), ref_view(comps)) == Some(auth_view(a)),
            None => auth_spec(view_items(reqs@), ref_view(comps)) is None,
        },
{
    reveal(auth_spec);
    let c = match comps {
        None => return None,
        Some(c) => c,
    };
    let name = match first_scheme_of(reqs) {
        None => return None,
        Some(n) => n,
    };
    match get_field(c, "securitySchemes") {
        Some(JsonValue::Object(m)) => {
            let k = chars_of(name.as_str());
            proof {
                crate::parser::oajson::lemma_entry_get(m@, name@);
                crate::json::lemma_entry_index(m@, name@);
            }
            match crate::json::find_entry(m, &k) {
                Some(i) => {
                    let sc = &m[i].1;
                    if get_str(sc, "$ref").is_some() {
                        None
                    } else {
                        Some(scheme_hint_of(sc))
                    }
                },
                None => None,
            }
        },
        _ => None,
    }
}

fn method_of_text(m: &str) -> (r: Option<HttpMethod>)
    ensures
        r == method_of(m@),
{
    let l = crate::text::to_lower(&chars_of(m));
    if crate::text::eq_str(&l, "get") {
        Some(HttpMethod::Get)
    } else if crate::text::eq_str(&l, "post") {
        Some(HttpMethod::Post)
    } else if crate::text::eq_str(&l, "put") {
        Some(HttpMethod::Put)
    } else if crate::text::eq_str(&l, "patch") {
        Some(HttpMethod::Patch)
    } else if crate::text::eq_str(&l, "delete") {
        Some(HttpMethod::Delete)
    } else if crate::text::eq_str(&l, "options") {
        Some(HttpMethod::Options)
    } else if crate::text::eq_str(&l, "head") {
        Some(HttpMethod::Head)
    } else {
        None
    }
}


fn raw_operation_of<'a>(root: &'a JsonValue, path: &String, method: &str) -> (r: Option<&'a JsonValue>)
    ensures
        ref_view(r) == raw_operation(root@, path@, method@),
{
    match get_field(root, "paths") {
        Some(ps) => match get_field(ps, path.as_str()) {
            Some(item) => get_field(item, method),
            None => None,
        },
        None => None,
    }
}

pub open spec fn endpoints_views(v: Seq<CanonicalEndpoint>) -> Seq<EndpointView> {
    v.map_values(|e: CanonicalEndpoint| endpoint_view(e))
}

/// Every endpoint carries the examples synthesized from its responses.
pub open spec fn endpoints_synthesized(v: Seq<CanonicalEndpoint>) -> bool {
    forall|i: int| 0 <= i < v.len() ==> crate::synth::synthesized(#[trigger] v[i].responses@, v[i].examples@)
}

fn endpoint_of(doc: &JsonValue, root: &JsonValue, path: &String, item: &JsonValue, method: &str, op: &JsonValue) -> (r: Result<CanonicalEndpoint, String>)
    ensures
        match r {
            Ok(e) => endpoint_spec(doc@, root@, path@, item@, method@, op@) == Ok::<EndpointView, Seq<char>>(endpoint_view(e))
                && crate::synth::synthesized(e.responses@, e.examples@),
            Err(x) => endpoint_spec(doc@, root@, path@, item@, method@, op@) == Err::<EndpointView, Seq<char>>(x@),
        },
{
    reveal(endpoint_spec);
    let comps = get_field(doc, "components");
    let parameters = match params_of(item, op, comps) {
        Err(e) => return Err(e),
        Ok(p) => p,
    };
    let raw_op = raw_operation_of(root, path, method);
    let request_body = match get_field(op, "requestBody") {
        Some(b) => {
            let rb = match raw_op {
                Some(o) => get_field(o, "requestBody"),
                None => None,
            };
            match body_of(b, comps, rb, root) {
                Err(e) => return Err(e),
                Ok(cb) => Some(cb),
            }
        },
        None => None,
    };
    let null = JsonValue::Null;
    let raw_responses: &JsonValue = match raw_op {
        Some(o) => match get_field(o, "responses") {
            Some(x) => resolve_ref_of(x, root),
            None => &null,
        },
        None => &null,
    };
    let responses = match responses_of(op, comps, raw_responses, root) {
        Err(e) => return Err(e),
        Ok(v) => v,
    };
    let m = match method_of_text(method) {
        None => {
            let low = crate::text::string_of(&crate::text::to_lower(&chars_of(method)));
            return Err(text2("unsupported HTTP method in OpenAPI document: ", low.as_str()));
        },
        Some(m) => m,
    };
    let auth = match get_field(op, "security") {
        Some(JsonValue::Array(l)) => auth_of(l, comps),
        _ => match get_field(doc, "security") {
            Some(JsonValue::Array(l)) => auth_of(l, comps),
            _ => None,
        },
    };
    let empty: Vec<JsonValue> = Vec::new();
    let tags = crate::parser::oaraw::strings_in(list_in(op, "tags", &empty));
    let mut endpoint = CanonicalEndpoint {
        operation_id: get_str(op, "operationId"),
        method: m,
        path: path.clone(),
        summary: match get_str(op, "summary") {
            Some(x) => Some(x),
            None => get_str(item, "summary"),
        },
        description: match get_str(op, "description") {
            Some(x) => Some(x),
            None => get_str(item, "description"),
        },
        tags,
        parameters,
        request_body,
        responses,
        examples: Vec::new(),
        auth,
    };
    endpoint.examples = crate::synth::synthesize_examples(&endpoint);
    Ok(endpoint)
}

fn add_method_of(acc: Vec<CanonicalEndpoint>, doc: &JsonValue, root: &JsonValue, path: &String, item: &JsonValue, method: &str) -> (r: Result<Vec<CanonicalEndpoint>, String>)
    requires
        endpoints_synthesized(acc@),
    ensures
        match r {
            Ok(v) => add_method(Ok(endpoints_views(acc@)), doc@, root@, path@, item@, method@) == Ok::<Seq<EndpointView>, Seq<char>>(endpoints_views(v@))
                && endpoints_synthesized(v@),
            Err(x) => add_method(Ok(endpoints_views(acc@)), doc@, root@, path@, item@, method@) == Err::<Seq<EndpointView>, Seq<char>>(x@),
        },
{
    match get_field(item, method) {
        Some(op) => match endpoint_of(doc, root, path, item, method, op) {
            Err(e) => Err(e),
            Ok(e) => {
                let ghost before = acc@;
                let mut acc = acc;
                acc.push(e);
                proof {
                    assert(endpoints_views(acc@) =~= endpoints_views(before).push(endpoint_view(e)));
                }
                Ok(acc)
            },
        },
        None => Ok(acc),
    }
}

/// The endpoints of one path item.
fn item_endpoints_of(doc: &JsonValue, root: &JsonValue, path: &String, item: &JsonValue) -> (r: Result<Vec<CanonicalEndpoint>, String>)
    ensures
        match r {
            Ok(v) => item_endpoints(doc@, root@, path@, item@) == Ok::<Seq<EndpointView>, Seq<char>>(endpoints_views(v@)) && endpoints_synthesized(v@),
            Err(x) => item_endpoints(doc@, root@, path@, item@) == Err::<Seq<EndpointView>, Seq<char>>(x@),
        },
{
    let v: Vec<CanonicalEndpoint> = Vec::new();
    proof {
        assert(endpoints_views(v@) =~= Seq::<EndpointView>::empty());
    }
    let v = add_method_of(v, doc, root, path, item, "get")?;
    let v = add_method_of(v, doc, root, path, item, "put")?;
    let v = add_method_of(v, doc, root, path, item, "post")?;
    let v = add_method_of(v, doc, root, path, item, "delete")?;
    let v = add_method_of(v, doc, root, path, item, "options")?;
    let v = add_method_of(v, doc, root, path, item, "head")?;
    let v = add_method_of(v, doc, root, path, item, "patch")?;
    add_method_of(v, doc, root, path, item, "trace")
}

proof fn lemma_paths_fold_err(doc: JsonSpec, root: JsonSpec, es: Seq<(Seq<char>, JsonSpec)>, k: int)
    requires
        0 <= k <= es.len(),
        paths_fold(doc, root, es.subrange(0, k)) is Err,
    ensures
        paths_fold(doc, root, es) == paths_fold(doc, root, es.subrange(0, k)),
    decreases es.len() - k,
{
    if k < es.len() {
        assert(es.subrange(0, k + 1).drop_last() =~= es.subrange(0, k));
        lemma_paths_fold_err(doc, root, es, k + 1);
    } else {
        assert(es.subrange(0, k) =~= es);
    }
}

/// The endpoints of every path of the document.
fn paths_of(doc: &JsonValue, root: &JsonValue) -> (r: Result<Vec<CanonicalEndpoint>, String>)
    ensures
        match r {
            Ok(v) => paths_fold(doc@, root@, doc_paths(doc@)) == Ok::<Seq<EndpointView>, Seq<char>>(endpoints_views(v@)) && endpoints_synthesized(v@),
            Err(x) => paths_fold(doc@, root@, doc_paths(doc@)) == Err::<Seq<EndpointView>, Seq<char>>(x@),
        },
{
    let none: Vec<(String, JsonValue)> = Vec::new();
    proof {
        assert(view_entries(none@) =~= Seq::<(Seq<char>, JsonSpec)>::empty());
    }
    let es: &Vec<(String, JsonValue)> = match get_field(doc, "paths") {
        Some(JsonValue::Object(m)) => m,
        _ => &none,
    };
    proof {
        lemma_view_entries(es@);
    }
    let ghost all = view_entries(es@);
    let mut out: Vec<CanonicalEndpoint> = Vec::new();
    proof {
        assert(endpoints_views(out@) =~= Seq::<EndpointView>::empty());
    }
    let mut i: usize = 0;
    while i < es.len()
        invariant
            i <= es.len(),
            all == view_entries(es@),
            all == doc_paths(doc@),
            all.len() == es@.len(),
            forall|j: int| 0 <= j < es@.len() ==> #[trigger] all[j] == (es@[j].0@, view_json(es@[j].1)),
            paths_fold(doc@, root@, all.subrange(0, i as int)) == Ok::<Seq<EndpointView>, Seq<char>>(endpoints_views(out@)),
            endpoints_synthesized(out@),
        decreases es.len() - i,
    {
        proof {
            assert(all.subrange(0, i + 1).drop_last() =~= all.subrange(0, i as int));
            assert(all.subrange(0, i + 1).last() == all[i as int]);
        }
        let p = &es[i].0;
        let item = &es[i].1;
        let pc = chars_of(p.as_str());
        let slash = chars_of("/");
        if crate::text::starts_with_of(&pc, &slash) && get_str(item, "$ref").is_none() {
            match item_endpoints_of(doc, root, p, item) {
                Err(e) => {
                    proof {
                        assert(paths_fold(doc@, root@, all.subrange(0, i + 1)) == Err::<Seq<EndpointView>, Seq<char>>(e@));
                        lemma_paths_fold_err(doc@, root@, all, i + 1);
                    }
                    return Err(e);
                },
                Ok(mut evs) => {
                    let ghost before = out@;
                    let ghost added = evs@;
                    out.append(&mut evs);
                    proof {
                        assert(out@ =~= before + added);
                        assert(endpoints_views(out@) =~= endpoints_views(before) + endpoints_views(added));
                        assert forall|j: int| 0 <= j < out@.len() implies crate::synth::synthesized(#[trigger] out@[j].responses@, out@[j].examples@) by {
                            if j < before.len() {
                                assert(out@[j] == before[j]);
                            } else {
                                assert(out@[j] == added[j - before.len()]);
                            }
                        }
                    }
                },
            }
        }
        i += 1;
    }
    proof {
        assert(all.subrange(0, es@.len() as int) =~= all);
    }
    Ok(out)
}

/// The collection's name: the one given, else the document's title.
pub open spec fn collection_name(name: Option<Seq<char>>, doc: JsonSpec) -> Seq<char> {
    match name {
        Some(n) => n,
        None => or_empty(match jget(doc, "info"@) {
            Some(info) => jstr(info, "title"@),
            None => None,
        }),
    }
}

pub open spec fn doc_description(doc: JsonSpec) -> Option<Seq<char>> {
    match jget(doc, "info"@) {
        Some(info) => jstr(info, "description"@),
        None => None,
    }
}

/// The collection an OpenAPI document gives: `doc` is the document as its
/// OpenAPI reading orders it, `root` the document as parsed JSON.
pub open spec fn collection_ok(name: Option<Seq<char>>, doc: JsonSpec, root: JsonSpec, r: Result<CanonicalApiCollection, ParseError>) -> bool {
    match paths_fold(doc, root, doc_paths(doc)) {
        Err(e) => r matches Err(ParseError::ParseFailed(x)) && x@ == e,
        Ok(evs) => r matches Ok(c) && c.name@ == collection_name(name, doc)
            && c.id@ == crate::parser::curl::canonical_id_spec(c.name@) && c.source == InputSourceKind::OpenApi
            && text_view(c.description) == doc_description(doc) && endpoints_views(c.endpoints@) == evs
            && endpoints_synthesized(c.endpoints@),
    }
}

/// The collection an OpenAPI document describes: `doc` is the document as
/// its OpenAPI reading orders it, `root` the document as parsed JSON.
pub fn openapi_collection(name: Option<String>, doc: &JsonValue, root: &JsonValue) -> (r: Result<CanonicalApiCollection, ParseError>)
    ensures
        collection_ok(text_view(name), doc@, root@, r),
{
    let endpoints = match paths_of(doc, root) {
        Err(e) => return Err(ParseError::ParseFailed(e)),
        Ok(v) => v,
    };
    let info = get_field(doc, "info");
    let collection_name = match name {
        Some(n) => n,
        None => text_or_empty(match info {
            Some(i) => get_str(i, "title"),
            None => None,
        }),
    };
    let description = match info {
        Some(i) => get_str(i, "description"),
        None => None,
    };
    Ok(CanonicalApiCollection {
        id: crate::parser::curl::canonical_id(collection_name.as_str()),
        name: collection_name,
        source: InputSourceKind::OpenApi,
        description,
        endpoints,
    })
}


// ---------------------------------------------------------------------
// Reading the text

/// Whether `serde_json::from_str::<openapiv3::OpenAPI>` accepts the text.
pub uninterp spec fn openapi_reads_json(text: Seq<char>) -> bool;

/// Whether `serde_yaml::from_str::<openapiv3::OpenAPI>` accepts the text.
pub uninterp spec fn openapi_reads_yaml(text: Seq<char>) -> bool;

/// The message of the error `serde_json::from_value::<openapiv3::OpenAPI>`
/// gives for a value, or nothing when it accepts the value.
pub uninterp spec fn openapi_value_error(v: JsonSpec) -> Option<Seq<char>>;

/// What `serde_yaml::from_str::<serde_json::Value>` makes of a text: the
/// value, or the error's message.
pub uninterp spec fn yaml_parse(text: Seq<char>) -> Result<JsonSpec, Seq<char>>;

/// What `serde_yaml::from_str::<serde_yaml::Value>` makes of a text, its
/// mappings in document order.
pub uninterp spec fn yaml_document(text: Seq<char>) -> Option<JsonSpec>;

#[verifier::external_type_specification]
#[verifier::external_body]
pub struct ExYamlValue(serde_yaml::Value);

/// `serde_json::from_str::<openapiv3::OpenAPI>(text).is_ok()`. Claimed: the
/// answer is a function of the text.
#[verifier::external_body]
fn reads_as_openapi_json(text: &str) -> (b: bool)
    ensures
        b == openapi_reads_json(text@),
{
    serde_json::from_str::<openapiv3::OpenAPI>(text).is_ok()
}

/// `serde_yaml::from_str::<openapiv3::OpenAPI>(text).is_ok()`. Claimed: the
/// answer is a function of the text.
#[verifier::external_body]
fn reads_as_openapi_yaml(text: &str) -> (b: bool)
    ensures
        b == openapi_reads_yaml(text@),
{
    serde_yaml::from_str::<openapiv3::OpenAPI>(text).is_ok()
}

/// `serde_json::from_value::<openapiv3::OpenAPI>` on the value carried over
/// into a `serde_json::Value`, read back as its error's `to_string()`.
/// Claimed: the result is a function of the value.
#[verifier::external_body]
fn openapi_value_check(v: &JsonValue) -> (r: Option<String>)
    ensures
        text_view(r) == openapi_value_error(v@),
{
    serde_json::from_value::<openapiv3::OpenAPI>(crate::parser::oaschema::to_serde(v)).err().map(|e| e.to_string())
}

/// `serde_yaml::from_str::<serde_json::Value>`, carried over into the
/// library's JSON value (or the error's `to_string()`). Claimed: the result
/// is a function of the text.
#[verifier::external_body]
fn parse_yaml(text: &str) -> (r: Result<JsonValue, String>)
    ensures
        match r {
            Ok(v) => yaml_parse(text@) == Ok::<JsonSpec, Seq<char>>(v@),
            Err(e) => yaml_parse(text@) == Err::<JsonSpec, Seq<char>>(e@),
        },
{
    match serde_yaml::from_str::<serde_json::Value>(text) {
        Ok(v) => Ok(crate::parser::curl::from_serde(&v)),
        Err(e) => Err(e.to_string()),
    }
}

/// `serde_yaml::from_str::<serde_yaml::Value>`, carried over into the
/// library's JSON value with mappings in document order. Claimed: the
/// result is a function of the text.
#[verifier::external_body]
fn yaml_tree(text: &str) -> (r: Option<JsonValue>)
    ensures
        match r {
            Some(v) => yaml_document(text@) == Some(v@),
            None => yaml_document(text@) is None,
        },
{
    serde_yaml::from_str::<serde_yaml::Value>(text).ok().map(|v| from_yaml(&v))
}

/// Carries a `serde_yaml::Value` over into the library's JSON value, one
/// variant for another: a number as `serde_json::to_value` gives it, a
/// mapping key as its text, a tagged value as its inner value.
#[verifier::external_body]
fn from_yaml(v: &serde_yaml::Value) -> JsonValue {
    match v {
        serde_yaml::Value::Null => JsonValue::Null,
        serde_yaml::Value::Bool(b) => JsonValue::Bool(*b),
        serde_yaml::Value::Number(n) => serde_json::to_value(n).map(|x| crate::parser::curl::from_serde(&x)).unwrap_or(JsonValue::Null),
        serde_yaml::Value::String(s) => JsonValue::String(s.clone()),
        serde_yaml::Value::Sequence(a) => JsonValue::Array(a.iter().map(from_yaml).collect()),
        serde_yaml::Value::Mapping(m) => JsonValue::Object(m.iter().map(|(k, x)| (yaml_key(k), from_yaml(x))).collect()),
        serde_yaml::Value::Tagged(t) => from_yaml(&t.value),
    }
}

/// A mapping key's text: a string as it is, a number or a boolean as its
/// `Display` writes it, any other key as `serde_yaml::to_string` writes it.
#[verifier::external_body]
fn yaml_key(k: &serde_yaml::Value) -> String {
    match k {
        serde_yaml::Value::String(s) => s.clone(),
        serde_yaml::Value::Number(n) => n.to_string(),
        serde_yaml::Value::Bool(b) => b.to_string(),
        other => serde_yaml::to_string(other).unwrap_or_default(),
    }
}

pub open spec fn deserialize_failed(e: Seq<char>) -> Seq<char> {
    "failed to deserialize OpenAPI: "@ + e
}

/// The document as parsed JSON (or YAML when it is not JSON).
pub open spec fn raw_document(text: Seq<char>) -> Result<JsonSpec, Seq<char>> {
    match crate::parser::curl::json_parse(text) {
        Ok(v) => Ok(v),
        Err(_) => match yaml_parse(text) {
            Ok(v) => Ok(v),
            Err(e) => Err(deserialize_failed(e)),
        },
    }
}

/// The document as its OpenAPI reading sees it: in document order when the
/// text reads as OpenAPI; else, with boolean schemas rewritten, when that
/// reads as OpenAPI.
pub open spec fn typed_document(text: Seq<char>) -> Result<JsonSpec, Seq<char>> {
    if openapi_reads_json(text) || openapi_reads_yaml(text) {
        match yaml_document(text) {
            Some(t) => Ok(t),
            None => raw_document(text),
        }
    } else {
        match raw_document(text) {
            Err(e) => Err(e),
            Ok(v) => {
                let s = crate::parser::sanitize::sanitize_document(v);
                match openapi_value_error(s) {
                    Some(e) => Err(deserialize_failed(e)),
                    None => Ok(s),
                }
            },
        }
    }
}

/// What the OpenAPI importer gives for a source.
pub open spec fn openapi_parsed(source: ParseSource, r: Result<CanonicalApiCollection, ParseError>) -> bool {
    if crate::text::trim(source.body@).len() == 0 {
        r matches Err(ParseError::InvalidSource(m)) && m@ == "OpenAPI content cannot be empty"@
    } else {
        match typed_document(source.body@) {
            Err(e) => r matches Err(ParseError::ParseFailed(m)) && m@ == e,
            Ok(doc) => match raw_document(source.body@) {
                Err(e) => r matches Err(ParseError::ParseFailed(m)) && m@ == e,
                Ok(root) => collection_ok(text_view(source.name), doc, root, r),
            },
        }
    }
}

fn raw_document_of(text: &str) -> (r: Result<JsonValue, String>)
    ensures
        match r {
            Ok(v) => raw_document(text@) == Ok::<JsonSpec, Seq<char>>(v@),
            Err(e) => raw_document(text@) == Err::<JsonSpec, Seq<char>>(e@),
        },
{
    match crate::parser::curl::parse_json(text) {
        Ok(v) => Ok(v),
        Err(_) => match parse_yaml(text) {
            Ok(v) => Ok(v),
            Err(e) => Err(text2("failed to deserialize OpenAPI: ", e.as_str())),
        },
    }
}

fn typed_document_of(text: &str) -> (r: Result<JsonValue, String>)
    ensures
        match r {
            Ok(v) => typed_document(text@) == Ok::<JsonSpec, Seq<char>>(v@),
            Err(e) => typed_document(text@) == Err::<JsonSpec, Seq<char>>(e@),
        },
{
    if reads_as_openapi_json(text) || reads_as_openapi_yaml(text) {
        match yaml_tree(text) {
            Some(t) => Ok(t),
            None => raw_document_of(text),
        }
    } else {
        let raw = raw_document_of(text)?;
        let s = crate::parser::sanitize::sanitize_document_of(&raw);
        match openapi_value_check(&s) {
            Some(e) => Err(text2("failed to deserialize OpenAPI: ", e.as_str())),
            None => Ok(s),
        }
    }
}

/// The OpenAPI parser.
#[derive(Debug, Default)]
pub struct OpenApiParser;

impl ApiParser for OpenApiParser {
    fn kind(&self) -> (k: InputSourceKind)
        ensures
            k == InputSourceKind::OpenApi,
    {
        InputSourceKind::OpenApi
    }

    /// Reads the document (JSON, else YAML), and turns each operation of
    /// each path into an endpoint.
    fn parse(&self, source: ParseSource) -> (r: Result<CanonicalApiCollection, ParseError>)
        ensures
            openapi_parsed(source, r),
    {
        let body = chars_of(source.body.as_str());
        if crate::text::trimmed(&body).len() == 0 {
            return Err(ParseError::InvalidSource("OpenAPI content cannot be empty".to_string()));
        }
        let doc = match typed_document_of(source.body.as_str()) {
            Err(e) => return Err(ParseError::ParseFailed(e)),
            Ok(d) => d,
        };
        let root = match raw_document_of(source.body.as_str()) {
            Err(e) => return Err(ParseError::ParseFailed(e)),
            Ok(r) => r,
        };
        openapi_collection(source.name, &doc, &root)
    }
}

/// Detects the kind of the source and parses it with the matching parser.
pub fn parse_source(source: ParseSource) -> (r: Result<CanonicalApiCollection, ParseError>)
    ensures
        match crate::parser::detect::detected_kind(source.body@) {
            None => r matches Err(ParseError::UnsupportedInput),
            Some(InputSourceKind::OpenApi) => openapi_parsed(source, r),
            Some(InputSourceKind::Curl) => crate::parser::curl::curl_parsed(source, r),
        },
{
    match crate::parser::detect::detect_parser(source.body.as_str()) {
        Err(e) => Err(e),
        Ok(InputSourceKind::OpenApi) => OpenApiParser.parse(source),
        Ok(InputSourceKind::Curl) => crate::parser::curl::CurlParser.parse(source),
    }
}


// ---------------------------------------------------------------------
// Laws

/// Path parameters are always required, whatever they declare.
pub proof fn law_path_parameters_required(p: JsonSpec, comps: Option<JsonSpec>)
    ensures
        match param_spec(p, comps) {
            Ok(pv) => pv.location == ParameterLocation::Path ==> pv.required && pv.schema.required,
            Err(_) => true,
        },
{
    reveal(param_spec);
}

/// An operation's own `security` list decides its auth hint, an empty list
/// included; only an operation without one takes the document's default.
pub proof fn law_operation_security(doc: JsonSpec, root: JsonSpec, path: Seq<char>, item: JsonSpec, method: Seq<char>, op: JsonSpec)
    ensures
        match endpoint_spec(doc, root, path, item, method, op) {
            Ok(ev) => ev.auth == match jarr(op, "security"@) {
                Some(l) => auth_spec(l, jget(doc, "components"@)),
                None => match jarr(doc, "security"@) {
                    Some(l) => auth_spec(l, jget(doc, "components"@)),
                    None => None,
                },
            },
            Err(_) => true,
        },
{
    reveal(endpoint_spec);
}

/// An empty requirement list asks for no auth.
pub proof fn law_empty_security_no_auth(comps: Option<JsonSpec>)
    ensures
        auth_spec(Seq::empty(), comps) is None,
{
    reveal(auth_spec);
}

/// Every imported operation has at least one response: the placeholder
/// stands in when it declares none.
pub proof fn law_responses_never_empty(op: JsonSpec, comps: Option<JsonSpec>, raw: JsonSpec, root: JsonSpec)
    ensures
        responses_spec(op, comps, raw, root) matches Ok(rs) ==> rs.len() > 0,
{
}

} // verus!
