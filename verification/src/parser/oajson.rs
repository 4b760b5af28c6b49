//! Reading fields of parsed JSON documents: lookups by key, typed reads,
//! JSON pointers and `$ref` resolution.
use vstd::prelude::*;
use crate::json::{JsonNumber, JsonSpec, JsonValue, NumberSpec, view_json, view_entries, view_items, view_number, entry_index, lemma_entry_index, lemma_view_entries, lemma_view_items, find_entry};
use crate::text::{chars_of, find_char, find_char_of, slice, parse_u64, parse_u64_of};

verus! {

/// The value stored under `k` in object entries (the first one when
/// several share the key).
pub open spec fn entry_get(m: Seq<(Seq<char>, JsonSpec)>, k: Seq<char>) -> Option<JsonSpec>
    decreases m.len(),
{
    if m.len() == 0 {
        None
    } else if m[0].0 == k {
        Some(m[0].1)
    } else {
        entry_get(m.subrange(1, m.len() as int), k)
    }
}

/// `value.get(k)`: the member `k` of an object, nothing for other values.
pub open spec fn jget(v: JsonSpec, k: Seq<char>) -> Option<JsonSpec> {
    match v {
        JsonSpec::Object(m) => entry_get(m, k),
        _ => None,
    }
}

pub open spec fn jstr(v: JsonSpec, k: Seq<char>) -> Option<Seq<char>> {
    match jget(v, k) {
        Some(JsonSpec::String(s)) => Some(s),
        _ => None,
    }
}

pub open spec fn jbool(v: JsonSpec, k: Seq<char>) -> Option<bool> {
    match jget(v, k) {
        Some(JsonSpec::Bool(b)) => Some(b),
        _ => None,
    }
}

pub open spec fn jnum(v: JsonSpec, k: Seq<char>) -> Option<NumberSpec> {
    match jget(v, k) {
        Some(JsonSpec::Number(n)) => Some(n),
        _ => None,
    }
}

/// A number read as an unsigned 64-bit integer, when it is one.
pub open spec fn number_u64(n: NumberSpec) -> Option<u64> {
    match n {
        NumberSpec::PosInt(u) => Some(u),
        NumberSpec::NegInt(i) => if i >= 0 {
            Some(i as u64)
        } else {
            None
        },
        NumberSpec::Float(_) => None,
    }
}

/// `value.get(k).and_then(Value::as_u64).map(|v| v as usize)`.
pub open spec fn jusize(v: JsonSpec, k: Seq<char>) -> Option<usize> {
    match jnum(v, k) {
        Some(n) => match number_u64(n) {
            Some(u) => Some(u as usize),
            None => None,
        },
        None => None,
    }
}

pub open spec fn jarr(v: JsonSpec, k: Seq<char>) -> Option<Seq<JsonSpec>> {
    match jget(v, k) {
        Some(JsonSpec::Array(a)) => Some(a),
        _ => None,
    }
}

pub open spec fn jobj(v: JsonSpec, k: Seq<char>) -> Option<Seq<(Seq<char>, JsonSpec)>> {
    match jget(v, k) {
        Some(JsonSpec::Object(m)) => Some(m),
        _ => None,
    }
}

pub open spec fn ref_view(r: Option<&JsonValue>) -> Option<JsonSpec> {
    match r {
        Some(x) => Some(view_json(*x)),
        None => None,
    }
}

pub proof fn lemma_entry_get(m: Seq<(String, JsonValue)>, k: Seq<char>)
    ensures
        entry_get(view_entries(m), k) == match entry_index(m, k) {
            Some(i) => Some(view_json(m[i].1)),
            None => None,
        },
    decreases m.len(),
{
    lemma_view_entries(m);
    lemma_entry_index(m, k);
    if m.len() > 0 {
        let t = m.subrange(1, m.len() as int);
        lemma_entry_get(t, k);
        lemma_view_entries(t);
        lemma_entry_index(t, k);
        assert(view_entries(m).subrange(1, m.len() as int) =~= view_entries(t));
        if m[0].0@ != k {
            match entry_index(t, k) {
                Some(j) => {
                    assert(t[j] == m[j + 1]);
                },
                None => {},
            }
        }
    }
}

/// Object member lookup.
pub fn get_field<'a>(v: &'a JsonValue, key: &str) -> (r: Option<&'a JsonValue>)
    ensures
        ref_view(r) == jget(v@, key@),
{
    match v {
        JsonValue::Object(m) => {
            let k = chars_of(key);
            proof {
                lemma_entry_get(m@, key@);
                lemma_entry_index(m@, key@);
            }
            match find_entry(m, &k) {
                Some(i) => Some(&m[i].1),
                None => None,
            }
        },
        _ => None,
    }
}

pub fn get_str(v: &JsonValue, key: &str) -> (r: Option<String>)
    ensures
        crate::canonical::text_view(r) == jstr(v@, key@),
{
    match get_field(v, key) {
        Some(JsonValue::String(s)) => Some(s.clone()),
        _ => None,
    }
}

pub fn get_bool(v: &JsonValue, key: &str) -> (r: Option<bool>)
    ensures
        r == jbool(v@, key@),
{
    match get_field(v, key) {
        Some(JsonValue::Bool(b)) => Some(*b),
        _ => None,
    }
}

pub fn get_number(v: &JsonValue, key: &str) -> (r: Option<JsonNumber>)
    ensures
        crate::schema_view::number_opt_view(r) == jnum(v@, key@),
{
    match get_field(v, key) {
        Some(JsonValue::Number(n)) => Some(crate::json::number_clone(n)),
        _ => None,
    }
}

pub fn number_as_u64(n: &JsonNumber) -> (r: Option<u64>)
    ensures
        r == number_u64(view_number(*n)),
{
    match n {
        JsonNumber::PosInt(u) => Some(*u),
        JsonNumber::NegInt(i) => if *i >= 0 {
            Some(*i as u64)
        } else {
            None
        },
        JsonNumber::Float(_) => None,
    }
}

pub fn get_usize(v: &JsonValue, key: &str) -> (r: Option<usize>)
    ensures
        r == jusize(v@, key@),
{
    match get_field(v, key) {
        Some(JsonValue::Number(n)) => match number_as_u64(n) {
            Some(u) => Some(u as usize),
            None => None,
        },
        _ => None,
    }
}

// ---------------------------------------------------------------------
// JSON pointers

/// `s` with every non-overlapping `a b` pair, read left to right, replaced
/// by `to` (`str::replace` with a two-character pattern).
pub open spec fn replace_pair(s: Seq<char>, a: char, b: char, to: char) -> Seq<char>
    decreases s.len(),
{
    if s.len() < 2 {
        s
    } else if s[0] == a && s[1] == b {
        seq![to] + replace_pair(s.subrange(2, s.len() as int), a, b, to)
    } else {
        seq![s[0]] + replace_pair(s.subrange(1, s.len() as int), a, b, to)
    }
}

/// A reference token with its escapes undone: `~1` is `/`, then `~0` is `~`.
pub open spec fn unescape_token(t: Seq<char>) -> Seq<char> {
    replace_pair(replace_pair(t, '~', '1', '/'), '~', '0', '~')
}

/// An array index token: decimal digits with no sign and no leading zero.
pub open spec fn index_token(t: Seq<char>) -> Option<usize> {
    if t.len() > 0 && t[0] == '+' {
        None
    } else if t.len() > 1 && t[0] == '0' {
        None
    } else {
        match parse_u64(t) {
            Some(u) => if u <= usize::MAX {
                Some(u as usize)
            } else {
                None
            },
            None => None,
        }
    }
}

/// One step of a pointer: an object member, or an array element by index.
pub open spec fn pointer_step(v: JsonSpec, token: Seq<char>) -> Option<JsonSpec> {
    match v {
        JsonSpec::Object(m) => entry_get(m, token),
        JsonSpec::Array(a) => match index_token(token) {
            Some(i) => if i < a.len() {
                Some(a[i as int])
            } else {
                None
            },
            None => None,
        },
        _ => None,
    }
}

/// The target of the tokens in `p` (the text after a `/`), from `v`.
pub open spec fn pointer_from(v: JsonSpec, p: Seq<char>) -> Option<JsonSpec>
    decreases p.len(),
{
    match find_char(p, '/') {
        Some(e) => if 0 <= e < p.len() {
            match pointer_step(v, unescape_token(p.subrange(0, e))) {
                Some(n) => pointer_from(n, p.subrange(e + 1, p.len() as int)),
                None => None,
            }
        } else {
            None
        },
        None => pointer_step(v, unescape_token(p)),
    }
}

/// `Value::pointer`: the empty pointer is the whole document; any other
/// must start with `/`.
pub open spec fn json_pointer(doc: JsonSpec, p: Seq<char>) -> Option<JsonSpec> {
    if p.len() == 0 {
        Some(doc)
    } else if p[0] != '/' {
        None
    } else {
        pointer_from(doc, p.subrange(1, p.len() as int))
    }
}

#[verifier::opaque]
/// A value standing for a reference (`{"$ref": "#..."}`) is replaced by its
/// target in `root` when the pointer after `#` finds one; any other value
/// stays as it is.
pub open spec fn resolve_ref(v: JsonSpec, root: JsonSpec) -> JsonSpec {
    match jstr(v, "$ref"@) {
        Some(r) => if r.len() > 0 && r[0] == '#' {
            match json_pointer(root, r.subrange(1, r.len() as int)) {
                Some(t) => t,
                None => v,
            }
        } else {
            v
        },
        None => v,
    }
}

fn replace_pair_of(s: &[char], a: char, b: char, to: char) -> (r: Vec<char>)
    ensures
        r@ == replace_pair(s@, a, b, to),
{
    let mut out: Vec<char> = Vec::new();
    let mut i: usize = 0;
    proof {
        assert(s@.subrange(0, s.len() as int) =~= s@);
    }
    while i < s.len()
        invariant
            i <= s.len(),
            out@ + replace_pair(s@.subrange(i as int, s.len() as int), a, b, to) == replace_pair(s@, a, b, to),
        decreases s.len() - i,
    {
        let ghost rest = s@.subrange(i as int, s.len() as int);
        if i + 1 < s.len() && s[i] == a && s[i + 1] == b {
            proof {
                assert(rest.subrange(2, rest.len() as int) =~= s@.subrange(i + 2, s.len() as int));
                assert(out@.push(to) + replace_pair(s@.subrange(i + 2, s.len() as int), a, b, to) =~= out@ + (seq![to] + replace_pair(rest.subrange(2, rest.len() as int), a, b, to)));
            }
            out.push(to);
            i += 2;
        } else {
            proof {
                assert(rest.subrange(1, rest.len() as int) =~= s@.subrange(i + 1, s.len() as int));
                if rest.len() < 2 {
                    assert(rest.len() == 1);
                    assert(s@.subrange(i + 1, s.len() as int) =~= Seq::<char>::empty());
                    assert(replace_pair(rest, a, b, to) == rest);
                    assert(out@.push(s@[i as int]) + replace_pair(s@.subrange(i + 1, s.len() as int), a, b, to) =~= out@ + rest);
                } else {
                    assert(out@.push(s@[i as int]) + replace_pair(s@.subrange(i + 1, s.len() as int), a, b, to) =~= out@ + (seq![rest[0]] + replace_pair(rest.subrange(1, rest.len() as int), a, b, to)));
                }
            }
            out.push(s[i]);
            i += 1;
        }
    }
    proof {
        assert(s@.subrange(s.len() as int, s.len() as int) =~= Seq::<char>::empty());
        assert(out@ + Seq::<char>::empty() =~= out@);
    }
    out
}

fn unescape_of(t: &[char]) -> (r: Vec<char>)
    ensures
        r@ == unescape_token(t@),
{
    let first = replace_pair_of(t, '~', '1', '/');
    replace_pair_of(&first, '~', '0', '~')
}

fn index_of_token(t: &[char]) -> (r: Option<usize>)
    ensures
        r == index_token(t@),
{
    if t.len() > 0 && t[0] == '+' {
        return None;
    }
    if t.len() > 1 && t[0] == '0' {
        return None;
    }
    match parse_u64_of(t) {
        Some(u) => if u <= usize::MAX as u64 {
            Some(u as usize)
        } else {
            None
        },
        None => None,
    }
}

fn step_of<'a>(v: &'a JsonValue, token: &[char]) -> (r: Option<&'a JsonValue>)
    ensures
        ref_view(r) == pointer_step(v@, token@),
{
    match v {
        JsonValue::Object(m) => {
            proof {
                lemma_entry_get(m@, token@);
                lemma_entry_index(m@, token@);
            }
            match find_entry(m, token) {
                Some(i) => Some(&m[i].1),
                None => None,
            }
        },
        JsonValue::Array(a) => {
            proof {
                lemma_view_items(a@);
            }
            match index_of_token(token) {
                Some(i) => if i < a.len() {
                    Some(&a[i])
                } else {
                    None
                },
                None => None,
            }
        },
        _ => None,
    }
}

/// Follows a JSON pointer from `doc`.
pub fn pointer_of<'a>(doc: &'a JsonValue, p: &[char]) -> (r: Option<&'a JsonValue>)
    ensures
        ref_view(r) == json_pointer(doc@, p@),
{
    if p.len() == 0 {
        return Some(doc);
    }
    if p[0] != '/' {
        return None;
    }
    let mut rest = slice(p, 1, p.len());
    let mut cur: &'a JsonValue = doc;
    loop
        invariant
            json_pointer(doc@, p@) == pointer_from(cur@, rest@),
        decreases rest.len(),
    {
        match find_char_of(&rest, '/') {
            Some(e) => {
                proof {
                    crate::text::lemma_find_from(rest@, seq!['/'], 0);
                }
                let token = unescape_of(&slice(&rest, 0, e));
                match step_of(cur, &token) {
                    Some(n) => {
                        cur = n;
                        rest = slice(&rest, e + 1, rest.len());
                    },
                    None => {
                        return None;
                    },
                }
            },
            None => {
                let token = unescape_of(&rest);
                return step_of(cur, &token);
            },
        }
    }
}

/// Resolves `v` when it stands for a reference into `root`.
pub fn resolve_ref_of<'a>(v: &'a JsonValue, root: &'a JsonValue) -> (r: &'a JsonValue)
    ensures
        r@ == resolve_ref(v@, root@),
{
    reveal(resolve_ref);
    match get_field(v, "$ref") {
        Some(JsonValue::String(s)) => {
            let c = chars_of(s.as_str());
            if c.len() > 0 && c[0] == '#' {
                let p = slice(&c, 1, c.len());
                match pointer_of(root, &p) {
                    Some(t) => t,
                    None => v,
                }
            } else {
                v
            }
        },
        _ => v,
    }
}

// ---------------------------------------------------------------------
// How far a schema walk may go.

/// The number of values in a JSON tree.
pub open spec fn json_size(v: JsonSpec) -> nat
    decreases v, 1int,
{
    match v {
        JsonSpec::Array(xs) => 1 + items_size(xs),
        JsonSpec::Object(es) => 1 + entries_size(es),
        _ => 1,
    }
}

pub open spec fn items_size(s: Seq<JsonSpec>) -> nat
    decreases s, 0int,
{
    if s.len() == 0 {
        0
    } else {
        items_size(s.drop_last()) + json_size(s.last())
    }
}

pub open spec fn entries_size(s: Seq<(Seq<char>, JsonSpec)>) -> nat
    decreases s, 0int,
{
    if s.len() == 0 {
        0
    } else {
        entries_size(s.drop_last()) + json_size(s.last().1)
    }
}

pub open spec fn capped(n: nat) -> nat {
    if n > u64::MAX {
        u64::MAX as nat
    } else {
        n
    }
}

/// The nesting a schema walk over `v` (with `$ref`s resolved in `w`) may
/// reach: the square of their combined size plus one, capped at
/// `u64::MAX`. The bound grows with the document; a walk that would nest
/// deeper (as one around a reference cycle does) ends there with an
/// `Unknown` node.
pub open spec fn walk_fuel(v: JsonSpec, w: Option<JsonSpec>) -> nat {
    let n = json_size(v) + match w {
        Some(x) => json_size(x),
        None => 0,
    } + 1;
    capped(n * n)
}

fn add_capped(a: u64, b: u64) -> (r: u64)
    ensures
        r == capped((a + b) as nat),
{
    if a > u64::MAX - b {
        u64::MAX
    } else {
        a + b
    }
}

/// The size of a JSON tree, capped at `u64::MAX`.
pub fn size_of(v: &JsonValue) -> (r: u64)
    ensures
        r == capped(json_size(v@)),
    decreases v,
{
    match v {
        JsonValue::Array(items) => {
            let mut acc: u64 = 0;
            let mut i: usize = 0;
            proof {
                lemma_view_items(items@);
            }
            while i < items.len()
                invariant
                    i <= items@.len(),
                    *v == JsonValue::Array(*items),
                    view_items(items@).len() == items@.len(),
                    forall|j: int| 0 <= j < items@.len() ==> #[trigger] view_items(items@)[j] == view_json(items@[j]),
                    acc == capped(items_size(view_items(items@).subrange(0, i as int))),
                decreases items.len() - i,
            {
                proof {
                    assert(decreases_to!(*v => v->Array_0));
                    assert(decreases_to!(v->Array_0 => items@));
                    assert(decreases_to!(items@ => items@[i as int]));
                }
                let c = size_of(&items[i]);
                assert(view_items(items@).subrange(0, i + 1).drop_last() =~= view_items(items@).subrange(0, i as int));
                acc = add_capped(acc, c);
                i += 1;
            }
            assert(view_items(items@).subrange(0, items@.len() as int) =~= view_items(items@));
            add_capped(acc, 1)
        },
        JsonValue::Object(es) => {
            let mut acc: u64 = 0;
            let mut i: usize = 0;
            proof {
                lemma_view_entries(es@);
            }
            while i < es.len()
                invariant
                    i <= es@.len(),
                    *v == JsonValue::Object(*es),
                    view_entries(es@).len() == es@.len(),
                    forall|j: int| 0 <= j < es@.len() ==> #[trigger] view_entries(es@)[j] == (es@[j].0@, view_json(es@[j].1)),
                    acc == capped(entries_size(view_entries(es@).subrange(0, i as int))),
                decreases es.len() - i,
            {
                proof {
                    assert(decreases_to!(*v => v->Object_0));
                    assert(decreases_to!(v->Object_0 => es@));
                    assert(decreases_to!(es@ => es@[i as int]));
                    assert(decreases_to!(es@[i as int] => es@[i as int].1));
                }
                let c = size_of(&es[i].1);
                assert(view_entries(es@).subrange(0, i + 1).drop_last() =~= view_entries(es@).subrange(0, i as int));
                acc = add_capped(acc, c);
                i += 1;
            }
            assert(view_entries(es@).subrange(0, es@.len() as int) =~= view_entries(es@));
            add_capped(acc, 1)
        },
        _ => 1,
    }
}

/// The nesting a schema walk over `v` may reach (see `walk_fuel`).
pub fn walk_fuel_of(v: &JsonValue, w: Option<&JsonValue>) -> (r: u64)
    ensures
        r == walk_fuel(v@, ref_view(w)),
{
    let a = size_of(v);
    let b = match w {
        Some(x) => size_of(x),
        None => 0,
    };
    let n = add_capped(add_capped(a, b), 1);
    proof {
        let big: nat = json_size(v@) + match ref_view(w) {
            Some(x) => json_size(x),
            None => 0,
        } + 1;
        if big > u64::MAX {
            assert(n == u64::MAX);
            assert(big * big > u64::MAX) by (nonlinear_arith)
                requires
                    big > u64::MAX,
            ;
            assert((n as nat) * (n as nat) > u64::MAX) by (nonlinear_arith)
                requires
                    n == u64::MAX,
            ;
        } else {
            assert(n == big);
        }
    }
    match n.checked_mul(n) {
        Some(m) => m,
        None => u64::MAX,
    }
}

} // verus!
