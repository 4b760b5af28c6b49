//! Request snapshots in a comparable form, and the fingerprint that keys
//! the request cache: credential headers are redacted, header names are
//! lower-cased, and the method, path and snapshot are hashed together.
use vstd::prelude::*;
use crate::json::{JsonSpec, JsonValue, json_clone, lemma_view_entries, lemma_view_items, view_entries, view_items, view_json};
use crate::json_text::{json_text, to_json_text};
use crate::model::{RequestFingerprintError, fnv1a64, fnv1a64_spec, has_marker, is_sensitive_header_name, sensitive_header_markers};
use crate::openai::hint::{jinsert, jinsert_pos, object_insert};
use crate::text::{
    chars_of, eq_ignore_case, eq_ignore_case_of, hex_fixed, hex_fixed_of, lemma_seq_lt_total, lemma_seq_lt_trans, lower, lower_char,
    seq_lt, string_of, to_lower, to_upper, trim, trimmed, upper, upper_char,
};

verus! {

/// A header value as stored: `<redacted>` under a credential-like name,
/// else normalized as any other field.
pub open spec fn header_value(name: Seq<char>, v: JsonValue) -> JsonSpec
    decreases v, 3int,
{
    if has_marker(upper(name), sensitive_header_markers()) {
        JsonSpec::String("<redacted>"@)
    } else {
        normalized_field(name, v)
    }
}

/// A field of a snapshot: an object under a `headers` key (any case) gets
/// lower-cased names and redacted credentials; other objects and arrays are
/// normalized member by member; anything else is kept.
pub open spec fn normalized_field(key: Seq<char>, v: JsonValue) -> JsonSpec
    decreases v, 2int,
{
    match v {
        JsonValue::Object(m) => if eq_ignore_case(key, "headers"@) {
            JsonSpec::Object(header_entries(m@))
        } else {
            JsonSpec::Object(field_entries(m@))
        },
        JsonValue::Array(items) => JsonSpec::Array(field_items(key, items@)),
        _ => view_json(v),
    }
}

/// Header members keyed by lower-cased name; of two names that lower-case
/// alike, the later one stays.
pub open spec fn header_entries(m: Seq<(String, JsonValue)>) -> Seq<(Seq<char>, JsonSpec)>
    decreases m, 1int,
{
    if m.len() == 0 {
        Seq::empty()
    } else {
        jinsert(header_entries(m.drop_last()), lower(m.last().0@), header_value(m.last().0@, m.last().1))
    }
}

pub open spec fn field_entries(m: Seq<(String, JsonValue)>) -> Seq<(Seq<char>, JsonSpec)>
    decreases m, 1int,
{
    if m.len() == 0 {
        Seq::empty()
    } else {
        jinsert(field_entries(m.drop_last()), m.last().0@, normalized_field(m.last().0@, m.last().1))
    }
}

pub open spec fn field_items(key: Seq<char>, items: Seq<JsonValue>) -> Seq<JsonSpec>
    decreases items, 1int,
{
    if items.len() == 0 {
        Seq::empty()
    } else {
        field_items(key, items.drop_last()).push(normalized_field(key, items.last()))
    }
}

/// A snapshot in comparable form: an object has each field normalized; any
/// other value is kept.
pub open spec fn normalized_snapshot(v: JsonValue) -> JsonSpec {
    match v {
        JsonValue::Object(m) => JsonSpec::Object(field_entries(m@)),
        _ => view_json(v),
    }
}

fn header_value_of(name: &Vec<char>, v: &JsonValue) -> (r: JsonValue)
    ensures
        view_json(r) == header_value(name@, *v),
    decreases *v, 3int,
{
    let n = string_of(name);
    if is_sensitive_header_name(n.as_str()) {
        JsonValue::String("<redacted>".to_string())
    } else {
        normalize_request_field(name, v)
    }
}

fn header_entries_of(m: &Vec<(String, JsonValue)>) -> (r: Vec<(String, JsonValue)>)
    ensures
        view_entries(r@) == header_entries(m@),
    decreases m@, 1int,
{
    let mut out: Vec<(String, JsonValue)> = Vec::new();
    let mut i: usize = 0;
    assert(view_entries(out@) =~= Seq::<(Seq<char>, JsonSpec)>::empty());
    assert(m@.subrange(0, 0) =~= Seq::<(String, JsonValue)>::empty());
    while i < m.len()
        invariant
            i <= m@.len(),
            view_entries(out@) == header_entries(m@.subrange(0, i as int)),
        decreases m.len() - i,
    {
        proof {
            assert(decreases_to!(m@ => m@[i as int]));
            assert(decreases_to!(m@[i as int] => m@[i as int].1));
            assert(m@.subrange(0, i + 1).drop_last() =~= m@.subrange(0, i as int));
        }
        let name = chars_of(m[i].0.as_str());
        let v = header_value_of(&name, &m[i].1);
        object_insert(&mut out, string_of(&to_lower(&name)), v);
        i += 1;
    }
    assert(m@.subrange(0, m@.len() as int) =~= m@);
    out
}

fn field_entries_of(m: &Vec<(String, JsonValue)>) -> (r: Vec<(String, JsonValue)>)
    ensures
        view_entries(r@) == field_entries(m@),
    decreases m@, 1int,
{
    let mut out: Vec<(String, JsonValue)> = Vec::new();
    let mut i: usize = 0;
    assert(view_entries(out@) =~= Seq::<(Seq<char>, JsonSpec)>::empty());
    assert(m@.subrange(0, 0) =~= Seq::<(String, JsonValue)>::empty());
    while i < m.len()
        invariant
            i <= m@.len(),
            view_entries(out@) == field_entries(m@.subrange(0, i as int)),
        decreases m.len() - i,
    {
        proof {
            assert(decreases_to!(m@ => m@[i as int]));
            assert(decreases_to!(m@[i as int] => m@[i as int].1));
            assert(m@.subrange(0, i + 1).drop_last() =~= m@.subrange(0, i as int));
        }
        let name = chars_of(m[i].0.as_str());
        let v = normalize_request_field(&name, &m[i].1);
        object_insert(&mut out, m[i].0.clone(), v);
        i += 1;
    }
    assert(m@.subrange(0, m@.len() as int) =~= m@);
    out
}

fn field_items_of(key: &Vec<char>, items: &Vec<JsonValue>) -> (r: Vec<JsonValue>)
    ensures
        view_items(r@) == field_items(key@, items@),
    decreases items@, 1int,
{
    let mut out: Vec<JsonValue> = Vec::new();
    let mut i: usize = 0;
    proof {
        lemma_view_items(out@);
        assert(view_items(out@) =~= field_items(key@, items@.subrange(0, 0)));
    }
    while i < items.len()
        invariant
            i <= items@.len(),
            view_items(out@) == field_items(key@, items@.subrange(0, i as int)),
        decreases items.len() - i,
    {
        proof {
            assert(decreases_to!(items@ => items@[i as int]));
            assert(items@.subrange(0, i + 1).drop_last() =~= items@.subrange(0, i as int));
        }
        let v = normalize_request_field(key, &items[i]);
        let ghost before = out@;
        out.push(v);
        proof {
            lemma_view_items(before);
            lemma_view_items(out@);
            assert(view_items(out@) =~= view_items(before).push(view_json(v)));
        }
        i += 1;
    }
    assert(items@.subrange(0, items@.len() as int) =~= items@);
    out
}

/// Normalizes one snapshot field (see `normalized_field`).
fn normalize_request_field(key: &Vec<char>, value: &JsonValue) -> (r: JsonValue)
    ensures
        view_json(r) == normalized_field(key@, *value),
    decreases *value, 2int,
{
    match value {
        JsonValue::Object(m) => {
            proof {
                assert(decreases_to!(*value => value->Object_0));
                assert(decreases_to!(value->Object_0 => m@));
                reveal_strlit("headers");
            }
            if eq_ignore_case_of(key, &chars_of("headers")) {
                JsonValue::Object(header_entries_of(m))
            } else {
                JsonValue::Object(field_entries_of(m))
            }
        },
        JsonValue::Array(items) => {
            proof {
                assert(decreases_to!(*value => value->Array_0));
                assert(decreases_to!(value->Array_0 => items@));
            }
            JsonValue::Array(field_items_of(key, items))
        },
        _ => json_clone(value),
    }
}

/// A request snapshot in comparable form (see `normalized_snapshot`).
pub fn normalize_request_snapshot(value: &JsonValue) -> (r: JsonValue)
    ensures
        view_json(r) == normalized_snapshot(*value),
{
    match value {
        JsonValue::Object(m) => JsonValue::Object(field_entries_of(m)),
        _ => json_clone(value),
    }
}

/// The text hashed for a fingerprint: the compact JSON of the upper-cased
/// trimmed method, the trimmed path and the normalized snapshot.
pub open spec fn fingerprint_text(method: Seq<char>, path: Seq<char>, snapshot: JsonValue) -> Seq<char> {
    json_text(
        JsonSpec::Object(
            seq![
                ("method"@, JsonSpec::String(upper(trim(method)))),
                ("path"@, JsonSpec::String(trim(path))),
                ("request"@, normalized_snapshot(snapshot)),
            ],
        ),
    )
}

/// The cache key of a request: 16 lower-case hex digits of the FNV-1a hash
/// of the UTF-8 bytes of `fingerprint_text`.
pub fn request_fingerprint(method: &str, path: &str, request_snapshot: &JsonValue) -> (r: Result<String, RequestFingerprintError>)
    ensures
        r matches Ok(s) && s@ == hex_fixed(
            fnv1a64_spec(vstd::utf8::encode_utf8(fingerprint_text(method@, path@, *request_snapshot))) as nat,
            16,
        ),
{
    let mut entries: Vec<(String, JsonValue)> = Vec::new();
    entries.push(("method".to_string(), JsonValue::String(string_of(&to_upper(&trimmed(&chars_of(method)))))));
    entries.push(("path".to_string(), JsonValue::String(string_of(&trimmed(&chars_of(path))))));
    entries.push(("request".to_string(), normalize_request_snapshot(request_snapshot)));
    let canonical_value = JsonValue::Object(entries);
    proof {
        lemma_view_entries(entries@);
        assert(view_json(canonical_value) == JsonSpec::Object(
            seq![
                ("method"@, JsonSpec::String(upper(trim(method@)))),
                ("path"@, JsonSpec::String(trim(path@))),
                ("request"@, normalized_snapshot(*request_snapshot)),
            ],
        )) by {
            assert(view_entries(entries@) =~= seq![
                ("method"@, JsonSpec::String(upper(trim(method@)))),
                ("path"@, JsonSpec::String(trim(path@))),
                ("request"@, normalized_snapshot(*request_snapshot)),
            ]);
        }
    }
    let canonical = string_of(&to_json_text(&canonical_value));
    let bytes = canonical.as_str().as_bytes();
    let h = fnv1a64(bytes);
    Ok(string_of(&hex_fixed_of(h, 16)))
}


/// The method's case and the blanks around the method and the path do not
/// change what a fingerprint hashes.
pub proof fn law_fingerprint_normalizes_method_and_path(m1: Seq<char>, m2: Seq<char>, p1: Seq<char>, p2: Seq<char>, s: JsonValue)
    requires
        upper(trim(m1)) == upper(trim(m2)),
        trim(p1) == trim(p2),
    ensures
        fingerprint_text(m1, p1, s) == fingerprint_text(m2, p2, s),
{
}

/// A credential-like header's value never reaches the fingerprint: it is
/// stored as `<redacted>` whatever it was.
pub proof fn law_credentials_redacted(name: Seq<char>, v1: JsonValue, v2: JsonValue)
    requires
        has_marker(upper(name), sensitive_header_markers()),
    ensures
        header_value(name, v1) == header_value(name, v2),
        header_value(name, v1) == JsonSpec::String("<redacted>"@),
{
}

/// Every fingerprint is 16 lower-case hexadecimal digits.
pub proof fn law_fingerprint_shape(method: Seq<char>, path: Seq<char>, snapshot: JsonValue)
    ensures
        ({
            let h = hex_fixed(fnv1a64_spec(vstd::utf8::encode_utf8(fingerprint_text(method, path, snapshot))) as nat, 16);
            &&& h.len() == 16
            &&& forall|i: int| 0 <= i < 16 ==> crate::text::is_lower_hex(#[trigger] h[i])
        }),
{
    crate::text::lemma_hex_fixed_shape(fnv1a64_spec(vstd::utf8::encode_utf8(fingerprint_text(method, path, snapshot))) as nat, 16);
}

proof fn lemma_header_entries_redacted(a: Seq<(String, JsonValue)>, b: Seq<(String, JsonValue)>)
    requires
        a.len() == b.len(),
        forall|i: int| 0 <= i < a.len() ==> (#[trigger] a[i]).0 == b[i].0 && header_value(a[i].0@, a[i].1) == header_value(b[i].0@, b[i].1),
    ensures
        header_entries(a) == header_entries(b),
    decreases a.len(),
{
    if a.len() > 0 {
        assert forall|i: int| 0 <= i < a.len() - 1 implies (#[trigger] a.drop_last()[i]).0 == b.drop_last()[i].0
            && header_value(a.drop_last()[i].0@, a.drop_last()[i].1) == header_value(b.drop_last()[i].0@, b.drop_last()[i].1) by {
            assert(a.drop_last()[i] == a[i]);
            assert(b.drop_last()[i] == b[i]);
        }
        lemma_header_entries_redacted(a.drop_last(), b.drop_last());
        assert(a.last() == a[a.len() - 1]);
        assert(b.last() == b[b.len() - 1]);
    }
}

proof fn lemma_field_entries_agree(a: Seq<(String, JsonValue)>, b: Seq<(String, JsonValue)>)
    requires
        a.len() == b.len(),
        forall|i: int| 0 <= i < a.len() ==> (#[trigger] a[i]).0 == b[i].0 && normalized_field(a[i].0@, a[i].1) == normalized_field(b[i].0@, b[i].1),
    ensures
        field_entries(a) == field_entries(b),
    decreases a.len(),
{
    if a.len() > 0 {
        assert forall|i: int| 0 <= i < a.len() - 1 implies (#[trigger] a.drop_last()[i]).0 == b.drop_last()[i].0
            && normalized_field(a.drop_last()[i].0@, a.drop_last()[i].1) == normalized_field(b.drop_last()[i].0@, b.drop_last()[i].1) by {
            assert(a.drop_last()[i] == a[i]);
            assert(b.drop_last()[i] == b[i]);
        }
        lemma_field_entries_agree(a.drop_last(), b.drop_last());
        assert(a.last() == a[a.len() - 1]);
        assert(b.last() == b[b.len() - 1]);
    }
}

/// `s1` and `s2` are objects that agree but in the value of header `j` of
/// the headers object (a `headers` key, any case) at field `i`, and that
/// header's name is credential-like.
pub open spec fn differ_in_credential(s1: JsonValue, s2: JsonValue, i: int, j: int) -> bool {
    &&& s1 is Object
    &&& s2 is Object
    &&& {
        let f1 = s1->Object_0@;
        let f2 = s2->Object_0@;
        &&& f1.len() == f2.len()
        &&& 0 <= i < f1.len()
        &&& forall|k: int| 0 <= k < f1.len() && k != i ==> #[trigger] f1[k] == f2[k]
        &&& f1[i].0 == f2[i].0
        &&& eq_ignore_case(f1[i].0@, "headers"@)
        &&& f1[i].1 is Object
        &&& f2[i].1 is Object
        &&& {
            let h1 = f1[i].1->Object_0@;
            let h2 = f2[i].1->Object_0@;
            &&& h1.len() == h2.len()
            &&& 0 <= j < h1.len()
            &&& forall|k: int| 0 <= k < h1.len() && k != j ==> #[trigger] h1[k] == h2[k]
            &&& h1[j].0 == h2[j].0
            &&& has_marker(upper(h1[j].0@), sensitive_header_markers())
        }
    }
}

/// Two snapshots that differ only in the value of one credential-like
/// header hash alike: a credential can neither change nor leak through a
/// fingerprint.
pub proof fn law_fingerprint_ignores_credentials(method: Seq<char>, path: Seq<char>, s1: JsonValue, s2: JsonValue, i: int, j: int)
    requires
        differ_in_credential(s1, s2, i, j),
    ensures
        fingerprint_text(method, path, s1) == fingerprint_text(method, path, s2),
{
    let f1 = s1->Object_0@;
    let f2 = s2->Object_0@;
    let h1 = f1[i].1->Object_0@;
    let h2 = f2[i].1->Object_0@;
    assert forall|k: int| 0 <= k < h1.len() implies (#[trigger] h1[k]).0 == h2[k].0 && header_value(h1[k].0@, h1[k].1)
        == header_value(h2[k].0@, h2[k].1) by {
        if k == j {
            law_credentials_redacted(h1[k].0@, h1[k].1, h2[k].1);
        }
    }
    lemma_header_entries_redacted(h1, h2);
    assert forall|k: int| 0 <= k < f1.len() implies (#[trigger] f1[k]).0 == f2[k].0 && normalized_field(f1[k].0@, f1[k].1)
        == normalized_field(f2[k].0@, f2[k].1) by {
        if k == i {
            assert(normalized_field(f1[k].0@, f1[k].1) == JsonSpec::Object(header_entries(h1)));
            assert(normalized_field(f2[k].0@, f2[k].1) == JsonSpec::Object(header_entries(h2)));
        }
    }
    lemma_field_entries_agree(f1, f2);
    assert(normalized_snapshot(s1) == normalized_snapshot(s2));
}

// ---------------------------------------------------------------------
// Normalizing twice.

/// Entries in strictly increasing key order.
pub open spec fn jsorted(es: Seq<(Seq<char>, JsonSpec)>) -> bool {
    forall|a: int, b: int| 0 <= a < b < es.len() ==> seq_lt(#[trigger] es[a].0, #[trigger] es[b].0)
}

proof fn lemma_case_chars(c: char)
    ensures
        lower_char(lower_char(c)) == lower_char(c),
        upper_char(lower_char(c)) == upper_char(c),
{
}

proof fn lemma_case(s: Seq<char>)
    ensures
        lower(lower(s)) == lower(s),
        upper(lower(s)) == upper(s),
{
    assert forall|i: int| 0 <= i < s.len() implies #[trigger] lower(lower(s))[i] == lower(s)[i] && upper(lower(s))[i] == upper(s)[i] by {
        lemma_case_chars(s[i]);
    }
    assert(lower(lower(s)) =~= lower(s));
    assert(upper(lower(s)) =~= upper(s));
}

proof fn lemma_jpos(m: Seq<(Seq<char>, JsonSpec)>, k: Seq<char>)
    ensures
        0 <= jinsert_pos(m, k) <= m.len(),
        forall|j: int| 0 <= j < jinsert_pos(m, k) ==> seq_lt(#[trigger] m[j].0, k),
        jinsert_pos(m, k) < m.len() ==> !seq_lt(m[jinsert_pos(m, k)].0, k),
    decreases m.len(),
{
    if m.len() > 0 && seq_lt(m[0].0, k) {
        let t = m.subrange(1, m.len() as int);
        lemma_jpos(t, k);
        assert forall|j: int| 1 <= j < m.len() implies #[trigger] m[j] == t[j - 1] by {}
    }
}

proof fn lemma_jinsert_sorted(m: Seq<(Seq<char>, JsonSpec)>, k: Seq<char>, v: JsonSpec)
    requires
        jsorted(m),
    ensures
        jsorted(jinsert(m, k, v)),
        forall|i: int| 0 <= i < jinsert(m, k, v).len() ==> #[trigger] jinsert(m, k, v)[i] == (k, v) || exists|j: int| 0 <= j < m.len() && jinsert(m, k, v)[i] == m[j],
{
    let p = jinsert_pos(m, k);
    lemma_jpos(m, k);
    let r = jinsert(m, k, v);
    if p < m.len() && m[p].0 == k {
        assert forall|a: int, b: int| 0 <= a < b < r.len() implies seq_lt(#[trigger] r[a].0, #[trigger] r[b].0) by {
            assert(r[a].0 == m[a].0);
            assert(r[b].0 == m[b].0);
        }
        assert forall|i: int| 0 <= i < r.len() implies #[trigger] r[i] == (k, v) || exists|j: int| 0 <= j < m.len() && r[i] == m[j] by {
            if i != p {
                assert(r[i] == m[i]);
            }
        }
    } else {
        if p < m.len() {
            lemma_seq_lt_total(m[p].0, k);
        }
        assert forall|x: int| p <= x < m.len() implies seq_lt(k, #[trigger] m[x].0) by {
            lemma_seq_lt_total(m[p].0, k);
            if x > p {
                lemma_seq_lt_trans(k, m[p].0, m[x].0);
            }
        }
        assert forall|a: int, b: int| 0 <= a < b < r.len() implies seq_lt(#[trigger] r[a].0, #[trigger] r[b].0) by {
            if a < p && b > p {
                assert(r[a] == m[a]);
                assert(r[b] == m[b - 1]);
                lemma_seq_lt_trans(m[a].0, k, m[b - 1].0);
            } else if a > p {
                assert(r[a] == m[a - 1]);
                assert(r[b] == m[b - 1]);
            } else if a < p {
                assert(r[a] == m[a]);
                if b < p {
                    assert(r[b] == m[b]);
                }
            } else {
                assert(r[b] == m[b - 1]);
            }
        }
        assert forall|i: int| 0 <= i < r.len() implies #[trigger] r[i] == (k, v) || exists|j: int| 0 <= j < m.len() && r[i] == m[j] by {
            if i < p {
                assert(r[i] == m[i]);
            } else if i > p {
                assert(r[i] == m[i - 1]);
            }
        }
    }
}

proof fn lemma_jinsert_last(m: Seq<(Seq<char>, JsonSpec)>, k: Seq<char>, v: JsonSpec)
    requires
        forall|j: int| 0 <= j < m.len() ==> seq_lt(#[trigger] m[j].0, k),
    ensures
        jinsert(m, k, v) == m.push((k, v)),
{
    lemma_jpos(m, k);
    let p = jinsert_pos(m, k);
    if p < m.len() {
        assert(seq_lt(m[p].0, k));
    }
    assert(m.insert(m.len() as int, (k, v)) =~= m.push((k, v)));
}

proof fn lemma_header_entries_shape(m: Seq<(String, JsonValue)>)
    ensures
        jsorted(header_entries(m)),
        forall|i: int| 0 <= i < header_entries(m).len() ==> exists|j: int| 0 <= j < m.len() && #[trigger] header_entries(m)[i] == (lower(m[j].0@), header_value(m[j].0@, m[j].1)),
    decreases m.len(),
{
    if m.len() > 0 {
        let t = m.drop_last();
        lemma_header_entries_shape(t);
        let e = header_entries(t);
        lemma_jinsert_sorted(e, lower(m.last().0@), header_value(m.last().0@, m.last().1));
        let r = header_entries(m);
        assert forall|i: int| 0 <= i < r.len() implies exists|j: int| 0 <= j < m.len() && #[trigger] r[i] == (lower(m[j].0@), header_value(m[j].0@, m[j].1)) by {
            if r[i] == (lower(m.last().0@), header_value(m.last().0@, m.last().1)) {
                assert(r[i] == (lower(m[m.len() - 1].0@), header_value(m[m.len() - 1].0@, m[m.len() - 1].1)));
            } else {
                let j = choose|j: int| 0 <= j < e.len() && r[i] == e[j];
                let q = choose|q: int| 0 <= q < t.len() && #[trigger] e[j] == (lower(t[q].0@), header_value(t[q].0@, t[q].1));
                assert(t[q] == m[q]);
            }
        }
    }
}

proof fn lemma_field_entries_shape(m: Seq<(String, JsonValue)>)
    ensures
        jsorted(field_entries(m)),
        forall|i: int| 0 <= i < field_entries(m).len() ==> exists|j: int| 0 <= j < m.len() && #[trigger] field_entries(m)[i] == (m[j].0@, normalized_field(m[j].0@, m[j].1)),
    decreases m.len(),
{
    if m.len() > 0 {
        let t = m.drop_last();
        lemma_field_entries_shape(t);
        let e = field_entries(t);
        lemma_jinsert_sorted(e, m.last().0@, normalized_field(m.last().0@, m.last().1));
        let r = field_entries(m);
        assert forall|i: int| 0 <= i < r.len() implies exists|j: int| 0 <= j < m.len() && #[trigger] r[i] == (m[j].0@, normalized_field(m[j].0@, m[j].1)) by {
            if r[i] == (m.last().0@, normalized_field(m.last().0@, m.last().1)) {
                assert(r[i] == (m[m.len() - 1].0@, normalized_field(m[m.len() - 1].0@, m[m.len() - 1].1)));
            } else {
                let j = choose|j: int| 0 <= j < e.len() && r[i] == e[j];
                let q = choose|q: int| 0 <= q < t.len() && #[trigger] e[j] == (t[q].0@, normalized_field(t[q].0@, t[q].1));
                assert(t[q] == m[q]);
            }
        }
    }
}

proof fn lemma_refold(m2: Seq<(String, JsonValue)>, headers: bool)
    requires
        jsorted(view_entries(m2)),
        forall|i: int| 0 <= i < m2.len() ==> if headers {
            lower((#[trigger] m2[i]).0@) == m2[i].0@ && header_value(m2[i].0@, m2[i].1) == view_json(m2[i].1)
        } else {
            normalized_field(m2[i].0@, m2[i].1) == view_json(m2[i].1)
        },
    ensures
        headers ==> header_entries(m2) == view_entries(m2),
        !headers ==> field_entries(m2) == view_entries(m2),
    decreases m2.len(),
{
    lemma_view_entries(m2);
    if m2.len() > 0 {
        let t = m2.drop_last();
        lemma_view_entries(t);
        assert(view_entries(t) =~= view_entries(m2).drop_last());
        assert forall|i: int| 0 <= i < t.len() implies if headers {
            lower((#[trigger] t[i]).0@) == t[i].0@ && header_value(t[i].0@, t[i].1) == view_json(t[i].1)
        } else {
            normalized_field(t[i].0@, t[i].1) == view_json(t[i].1)
        } by {
            assert(t[i] == m2[i]);
        }
        lemma_refold(t, headers);
        let n = m2.len() - 1;
        assert(m2.last() == m2[n]);
        assert forall|j: int| 0 <= j < view_entries(t).len() implies seq_lt(#[trigger] view_entries(t)[j].0, m2.last().0@) by {
            assert(view_entries(m2)[j] == view_entries(t)[j]);
            assert(view_entries(m2)[n].0 == m2[n].0@);
        }
        lemma_jinsert_last(view_entries(t), m2.last().0@, view_json(m2.last().1));
        assert(view_entries(t).push((m2.last().0@, view_json(m2.last().1))) =~= view_entries(m2));
    } else {
        assert(view_entries(m2) =~= Seq::<(Seq<char>, JsonSpec)>::empty());
    }
}

proof fn lemma_field_items_index(key: Seq<char>, items: Seq<JsonValue>)
    ensures
        field_items(key, items).len() == items.len(),
        forall|i: int| 0 <= i < items.len() ==> #[trigger] field_items(key, items)[i] == normalized_field(key, items[i]),
    decreases items.len(),
{
    if items.len() > 0 {
        lemma_field_items_index(key, items.drop_last());
        assert forall|i: int| 0 <= i < items.len() implies #[trigger] field_items(key, items)[i] == normalized_field(key, items[i]) by {
            if i < items.len() - 1 {
                assert(items.drop_last()[i] == items[i]);
            }
        }
    }
}

/// A value whose view is a normalized field normalizes to itself, under any
/// key that is a `headers` key exactly when the first was.
proof fn lemma_renormalize(k: Seq<char>, v: JsonValue, k2: Seq<char>, x: JsonValue)
    requires
        view_json(x) == normalized_field(k, v),
        eq_ignore_case(k2, "headers"@) == eq_ignore_case(k, "headers"@),
    ensures
        normalized_field(k2, x) == view_json(x),
    decreases v,
{
    match v {
        JsonValue::Object(m) => {
            let m2 = x->Object_0@;
            lemma_view_entries(m2);
            if eq_ignore_case(k, "headers"@) {
                lemma_header_entries_shape(m@);
                assert forall|i: int| 0 <= i < m2.len() implies lower((#[trigger] m2[i]).0@) == m2[i].0@ && header_value(m2[i].0@, m2[i].1) == view_json(m2[i].1) by {
                    let j = choose|j: int| 0 <= j < m@.len() && #[trigger] header_entries(m@)[i] == (lower(m@[j].0@), header_value(m@[j].0@, m@[j].1));
                    let orig = m@[j].0@;
                    lemma_case(orig);
                    assert(m2[i].0@ == lower(orig));
                    assert(view_json(m2[i].1) == header_value(orig, m@[j].1));
                    if !has_marker(upper(orig), sensitive_header_markers()) {
                        assert(decreases_to!(v => v->Object_0));
                        assert(decreases_to!(v->Object_0 => m@));
                        assert(decreases_to!(m@ => m@[j]));
                        assert(decreases_to!(m@[j] => m@[j].1));
                        lemma_renormalize(orig, m@[j].1, lower(orig), m2[i].1);
                    }
                }
                lemma_refold(m2, true);
            } else {
                lemma_field_entries_shape(m@);
                assert forall|i: int| 0 <= i < m2.len() implies normalized_field((#[trigger] m2[i]).0@, m2[i].1) == view_json(m2[i].1) by {
                    let j = choose|j: int| 0 <= j < m@.len() && #[trigger] field_entries(m@)[i] == (m@[j].0@, normalized_field(m@[j].0@, m@[j].1));
                    assert(decreases_to!(v => v->Object_0));
                    assert(decreases_to!(v->Object_0 => m@));
                    assert(decreases_to!(m@ => m@[j]));
                    assert(decreases_to!(m@[j] => m@[j].1));
                    lemma_renormalize(m@[j].0@, m@[j].1, m2[i].0@, m2[i].1);
                }
                lemma_refold(m2, false);
            }
        },
        JsonValue::Array(items) => {
            let items2 = x->Array_0@;
            crate::json::lemma_view_items(items2);
            lemma_field_items_index(k, items@);
            lemma_field_items_index(k2, items2);
            assert(view_items(items2) == field_items(k, items@));
            assert forall|i: int| 0 <= i < items2.len() implies #[trigger] field_items(k2, items2)[i] == view_items(items2)[i] by {
                assert(view_items(items2)[i] == field_items(k, items@)[i]);
                assert(decreases_to!(v => v->Array_0));
                assert(decreases_to!(v->Array_0 => items@));
                assert(decreases_to!(items@ => items@[i]));
                lemma_renormalize(k, items@[i], k2, items2[i]);
            }
            assert(field_items(k2, items2) =~= view_items(items2));
        },
        _ => {
            match x {
                JsonValue::Object(_) => {},
                JsonValue::Array(_) => {},
                _ => {},
            }
        },
    }
}

/// Normalizing a normalized snapshot again changes nothing.
pub proof fn law_normalize_idempotent(v: JsonValue, r: JsonValue)
    requires
        view_json(r) == normalized_snapshot(v),
    ensures
        normalized_snapshot(r) == view_json(r),
{
    match v {
        JsonValue::Object(m) => {
            reveal_strlit("headers");
            assert(lower(Seq::<char>::empty()).len() == 0);
            assert(lower("headers"@).len() == 7);
            assert(!eq_ignore_case(Seq::empty(), "headers"@));
            assert(normalized_field(Seq::empty(), v) == normalized_snapshot(v));
            lemma_renormalize(Seq::empty(), v, Seq::empty(), r);
            assert(normalized_field(Seq::empty(), r) == normalized_snapshot(r));
        },
        _ => {
            match r {
                JsonValue::Object(_) => {},
                _ => {},
            }
        },
    }
}

/// Fingerprinting an already normalized snapshot, with the method already
/// trimmed and upper-cased and the path trimmed, hashes the same text as
/// fingerprinting the original request.
pub proof fn law_fingerprint_of_normalized(method: Seq<char>, path: Seq<char>, s: JsonValue, r: JsonValue)
    requires
        view_json(r) == normalized_snapshot(s),
    ensures
        fingerprint_text(upper(trim(method)), trim(path), r) == fingerprint_text(method, path, s),
{
    law_normalize_idempotent(s, r);
    lemma_trimmed_ends(path);
    lemma_trim_noop(trim(path));
    lemma_trimmed_ends(method);
    let t = trim(method);
    assert forall|i: int| 0 <= i < t.len() implies #[trigger] upper(t)[i] == upper_char(t[i])
        && upper(upper(t))[i] == upper(t)[i] && (crate::text::is_ws(upper(t)[i]) == crate::text::is_ws(t[i])) by {}
    assert(upper(upper(t)) =~= upper(t));
    if t.len() > 0 {
        assert(upper(t)[upper(t).len() - 1] == upper_char(t[t.len() - 1]));
    }
    lemma_trim_noop(upper(t));
}

proof fn lemma_trim_noop(s: Seq<char>)
    requires
        s.len() > 0 ==> !crate::text::is_ws(s[0]) && !crate::text::is_ws(s[s.len() - 1]),
    ensures
        trim(s) == s,
{
    assert(crate::text::trim_start(s) == s);
}

proof fn lemma_trimmed_ends(s: Seq<char>)
    ensures
        trim(s).len() > 0 ==> !crate::text::is_ws(trim(s)[0]) && !crate::text::is_ws(trim(s)[trim(s).len() - 1]),
{
    crate::text::lemma_trim_start(s);
    let a = crate::text::trim_start(s);
    crate::text::lemma_trim_end(a);
    let b = crate::text::trim_end(a);
    if b.len() > 0 {
        assert(b[0] == a[0]);
    }
}

} // verus!
