//! Payload checking against a canonical schema: every problem found, each a
//! `$`-rooted path and a message, in the order the schema is walked.
//!
//! Types, nullability, enums, object and array sizes, required and
//! dependent properties, additional and unevaluated members, unique and
//! contained items, string length, pattern and format, numeric bounds and
//! steps, and `if`/`then`/`else` are checked. Numbers compare as exact
//! decimals and print as plain decimal text.
use vstd::prelude::*;
use crate::canonical::SchemaNode;
use crate::gateway::validator::{in_enum, prefix};
use crate::json::{JsonNumber, JsonValue, entry_index, find_entry, json_contains, json_eq, number_is_whole, number_is_whole_of, view_json, view_number};
use crate::json_text::{json_text, to_json_text, utf8_len, utf8_len_exceeds, utf8_width};
use crate::model::SchemaNodeType;
use crate::numbers::{misses_multiple, multiple_miss, num_less, number_display, number_display_of, number_less};
use crate::assoc::{key_index, find_key};
use crate::text::{append, append_str, chars_of, contains_char, decimal, decimal_of, ends_with, find_char, find_char_of, lemma_find_from, slice, starts_with, string_of};

verus! {

/// What `regex::Regex::new(pattern)` then `is_match(text)` give: whether the
/// compiled pattern matches somewhere in the text, or `None` when the
/// pattern does not compile.
pub uninterp spec fn regex_verdict(pattern: Seq<char>, text: Seq<char>) -> Option<bool>;

/// Compiles `pattern` with `regex::Regex::new` and, when it compiles, asks
/// `Regex::is_match` whether it matches `text`. Claimed: the answer is a
/// function of the pattern and the text.
#[verifier::external_body]
fn pattern_verdict(pattern: &str, text: &str) -> (r: Option<bool>)
    ensures
        r == regex_verdict(pattern@, text@),
{
    match regex::Regex::new(pattern) {
        Ok(re) => Some(re.is_match(text)),
        Err(_) => None,
    }
}

pub open spec fn msgs(v: Seq<String>) -> Seq<Seq<char>> {
    v.map_values(|s: String| s@)
}

pub open spec fn type_label(t: SchemaNodeType) -> Seq<char> {
    match t {
        SchemaNodeType::Object => "object"@,
        SchemaNodeType::Array => "array"@,
        SchemaNodeType::String => "string"@,
        SchemaNodeType::Integer => "integer"@,
        SchemaNodeType::Number => "number"@,
        SchemaNodeType::Boolean => "boolean"@,
        SchemaNodeType::Null => "null"@,
        SchemaNodeType::Unknown => "any"@,
    }
}

pub open spec fn json_type_label(v: JsonValue) -> Seq<char> {
    match v {
        JsonValue::Null => "null"@,
        JsonValue::Bool(_) => "boolean"@,
        JsonValue::Number(_) => "number"@,
        JsonValue::String(_) => "string"@,
        JsonValue::Array(_) => "array"@,
        JsonValue::Object(_) => "object"@,
    }
}

pub open spec fn plural_y(n: nat) -> Seq<char> {
    if n == 1 {
        "y"@
    } else {
        "ies"@
    }
}

/// A value's JSON text, cut to 40 characters and `...` when it takes more
/// than 40 bytes.
pub open spec fn compact_json(v: JsonValue) -> Seq<char> {
    let raw = json_text(view_json(v));
    if utf8_len(raw) <= 40 {
        raw
    } else {
        prefix(raw, 40) + "..."@
    }
}

pub open spec fn mismatch(path: Seq<char>, want: Seq<char>, v: JsonValue) -> Seq<Seq<char>> {
    seq![path + ": expected "@ + want + " but got "@ + json_type_label(v)]
}

pub open spec fn msg_when(c: bool, m: Seq<char>) -> Seq<Seq<char>> {
    if c {
        seq![m]
    } else {
        Seq::empty()
    }
}

/// `local@domain` with a non-empty local part and a dotted domain that
/// neither starts nor ends with a dot.
pub open spec fn is_email_like(t: Seq<char>) -> bool {
    match find_char(t, '@') {
        None => false,
        Some(i) => {
            let local = t.subrange(0, i);
            let domain = t.subrange(i + 1, t.len() as int);
            local.len() > 0 && contains_char(domain, '.') && !starts_with(domain, "."@) && !ends_with(domain, "."@)
        },
    }
}

pub open spec fn all_ascii_digits(t: Seq<char>, from: int, to: int) -> bool {
    forall|i: int| from <= i < to ==> crate::text::is_ascii_digit(#[trigger] t[i])
}

/// `YYYY-MM-DD` in shape: ten ASCII characters, digits around two dashes.
pub open spec fn is_date_like(t: Seq<char>) -> bool {
    t.len() == 10 && t[4] == '-' && t[7] == '-' && all_ascii_digits(t, 0, 4) && all_ascii_digits(t, 5, 7)
        && all_ascii_digits(t, 8, 10)
}

/// The index of the character that starts at byte `n` of `t`, searching
/// from `i`; `None` when byte `n` falls inside a character or past the end.
pub open spec fn byte_boundary(t: Seq<char>, n: nat, i: int) -> Option<int>
    decreases t.len() - i,
{
    if i < 0 || i > t.len() {
        None
    } else if utf8_len(t.subrange(0, i)) == n {
        Some(i)
    } else if i == t.len() || utf8_len(t.subrange(0, i)) > n {
        None
    } else {
        byte_boundary(t, n, i + 1)
    }
}

/// At least 20 bytes with a `T`, and a zone: a trailing `Z`, a `+`, or a
/// `-` after the tenth byte.
pub open spec fn is_date_time_like(t: Seq<char>) -> bool {
    utf8_len(t) >= 20 && contains_char(t, 'T') && (ends_with(t, "Z"@) || contains_char(t, '+') || match byte_boundary(
        t,
        10,
        0,
    ) {
        Some(k) => contains_char(t.subrange(k, t.len() as int), '-'),
        None => false,
    })
}

pub open spec fn format_errors(f: Seq<char>, t: Seq<char>, path: Seq<char>) -> Seq<Seq<char>> {
    if f == "email"@ {
        msg_when(!is_email_like(t), path + ": string is not a valid email format"@)
    } else if f == "date"@ {
        msg_when(!is_date_like(t), path + ": string is not a valid date format"@)
    } else if f == "date-time"@ {
        msg_when(!is_date_time_like(t), path + ": string is not a valid date-time format"@)
    } else {
        Seq::empty()
    }
}

pub open spec fn string_errors(s: SchemaNode, t: Seq<char>, path: Seq<char>) -> Seq<Seq<char>> {
    let length = t.len();
    (match s.min_length {
        Some(mn) => msg_when(
            length < mn,
            path + ": expected string length at least "@ + decimal(mn as nat) + " but got "@ + decimal(length),
        ),
        None => Seq::empty(),
    }) + (match s.max_length {
        Some(mx) => msg_when(
            length > mx,
            path + ": expected string length at most "@ + decimal(mx as nat) + " but got "@ + decimal(length),
        ),
        None => Seq::empty(),
    }) + (match s.pattern {
        Some(p) => msg_when(
            regex_verdict(p@, t) == Some(false),
            path + ": string does not match pattern /"@ + p@ + "/"@,
        ),
        None => Seq::empty(),
    }) + (match s.format {
        Some(f) => format_errors(f@, t, path),
        None => Seq::empty(),
    })
}

pub open spec fn number_errors(s: SchemaNode, n: JsonNumber, path: Seq<char>) -> Seq<Seq<char>> {
    let x = view_number(n);
    let shown = number_display(x);
    (match s.multiple_of {
        Some(step) => msg_when(
            multiple_miss(x, view_number(step)),
            path + ": expected number to be a multiple of "@ + number_display(view_number(step)) + " but got "@
                + shown,
        ),
        None => Seq::empty(),
    }) + (match s.minimum {
        Some(mn) => {
            let failed = if s.exclusive_minimum {
                !num_less(view_number(mn), x)
            } else {
                num_less(x, view_number(mn))
            };
            let op = if s.exclusive_minimum {
                ">"@
            } else {
                ">="@
            };
            msg_when(failed, path + ": expected number "@ + op + " "@ + number_display(view_number(mn)) + " but got "@ + shown)
        },
        None => Seq::empty(),
    }) + (match s.maximum {
        Some(mx) => {
            let failed = if s.exclusive_maximum {
                !num_less(x, view_number(mx))
            } else {
                num_less(view_number(mx), x)
            };
            let op = if s.exclusive_maximum {
                "<"@
            } else {
                "<="@
            };
            msg_when(failed, path + ": expected number "@ + op + " "@ + number_display(view_number(mx)) + " but got "@ + shown)
        },
        None => Seq::empty(),
    })
}

pub open spec fn index_path(path: Seq<char>, i: int) -> Seq<char> {
    path + "["@ + decimal(i as nat) + "]"@
}

pub open spec fn member_path(path: Seq<char>, name: Seq<char>) -> Seq<char> {
    path + "."@ + name
}

/// Every problem of `v` against `s` at `path`, in walking order.
pub open spec fn errors_at(s: SchemaNode, v: JsonValue, path: Seq<char>) -> Seq<Seq<char>>
    decreases s, 11int, 0int,
{
    if s.bool_schema == Some(false) {
        seq![path + ": value is not allowed by false schema"@]
    } else if s.bool_schema == Some(true) {
        Seq::empty()
    } else if v is Null {
        if s.nullable || s.node_type == SchemaNodeType::Null || s.node_type == SchemaNodeType::Unknown {
            Seq::empty()
        } else {
            seq![path + ": expected "@ + type_label(s.node_type) + " but got null"@]
        }
    } else if s.enum_values@.len() > 0 && !in_enum(s.enum_values@, v) {
        seq![path + ": value "@ + compact_json(v) + " is not in the declared enum"@]
    } else {
        type_errors(s, v, path) + conditional_errors(s, v, path)
    }
}

pub open spec fn type_errors(s: SchemaNode, v: JsonValue, path: Seq<char>) -> Seq<Seq<char>>
    decreases s, 10int, 0int,
{
    match s.node_type {
        SchemaNodeType::Object => match v {
            JsonValue::Object(m) => object_errors(s, v, m@, path),
            _ => mismatch(path, "object"@, v),
        },
        SchemaNodeType::Array => match v {
            JsonValue::Array(items) => array_errors(s, items@, path),
            _ => mismatch(path, "array"@, v),
        },
        SchemaNodeType::String => match v {
            JsonValue::String(t) => string_errors(s, t@, path),
            _ => mismatch(path, "string"@, v),
        },
        SchemaNodeType::Integer => match v {
            JsonValue::Number(n) => if number_is_whole(view_number(n)) {
                number_errors(s, n, path)
            } else {
                mismatch(path, "integer"@, v)
            },
            _ => mismatch(path, "integer"@, v),
        },
        SchemaNodeType::Number => match v {
            JsonValue::Number(n) => number_errors(s, n, path),
            _ => mismatch(path, "number"@, v),
        },
        SchemaNodeType::Boolean => match v {
            JsonValue::Bool(_) => Seq::empty(),
            _ => mismatch(path, "boolean"@, v),
        },
        SchemaNodeType::Null => mismatch(path, "null"@, v),
        SchemaNodeType::Unknown => Seq::empty(),
    }
}

/// `then` when `if` finds nothing, else `else`.
pub open spec fn conditional_errors(s: SchemaNode, v: JsonValue, path: Seq<char>) -> Seq<Seq<char>>
    decreases s, 10int, 0int,
{
    match s.if_schema {
        None => Seq::empty(),
        Some(i) => if errors_at(*i, v, path).len() == 0 {
            match s.then_schema {
                Some(t) => errors_at(*t, v, path + " then schema"@),
                None => Seq::empty(),
            }
        } else {
            match s.else_schema {
                Some(e) => errors_at(*e, v, path + " else schema"@),
                None => Seq::empty(),
            }
        },
    }
}

pub open spec fn object_errors(s: SchemaNode, v: JsonValue, m: Seq<(String, JsonValue)>, path: Seq<char>) -> Seq<Seq<char>>
    decreases s, 9int, 0int,
{
    prop_count_errors(s, m.len(), path) + props_errors(s.properties@, m, path) + dep_required_errors(
        s.dependent_required@,
        m,
        path,
    ) + dep_schema_errors(s.dependent_schemas@, v, m, path) + extra_errors(s, m, path, m.len() as int)
}

/// The member count held to `minProperties` and `maxProperties`.
pub open spec fn prop_count_errors(s: SchemaNode, n: nat, path: Seq<char>) -> Seq<Seq<char>> {
    (match s.min_properties {
        Some(mn) => msg_when(
            n < mn,
            path + ": expected at least "@ + decimal(mn as nat) + " propert"@ + plural_y(mn as nat) + " but got "@
                + decimal(n),
        ),
        None => Seq::empty(),
    }) + (match s.max_properties {
        Some(mx) => msg_when(
            n > mx,
            path + ": expected at most "@ + decimal(mx as nat) + " propert"@ + plural_y(mx as nat) + " but got "@
                + decimal(n),
        ),
        None => Seq::empty(),
    })
}

/// Each declared property: its value checked, or its absence reported
/// when it is required.
pub open spec fn props_errors(ps: Seq<(String, SchemaNode)>, m: Seq<(String, JsonValue)>, path: Seq<char>) -> Seq<Seq<char>>
    decreases ps, 0int, 0int,
{
    if ps.len() == 0 {
        Seq::empty()
    } else {
        props_errors(ps.drop_last(), m, path) + match entry_index(m, ps.last().0@) {
            Some(i) => errors_at(ps.last().1, m[i].1, member_path(path, ps.last().0@)),
            None => msg_when(
                ps.last().1.required,
                member_path(path, ps.last().0@) + ": required property missing"@,
            ),
        }
    }
}

pub open spec fn missing_dependents(deps: Seq<String>, m: Seq<(String, JsonValue)>, path: Seq<char>, name: Seq<char>) -> Seq<Seq<char>>
    decreases deps.len(),
{
    if deps.len() == 0 {
        Seq::empty()
    } else {
        missing_dependents(deps.drop_last(), m, path, name) + msg_when(
            entry_index(m, deps.last()@) is None,
            member_path(path, deps.last()@) + ": required because "@ + member_path(path, name) + " is present"@,
        )
    }
}

/// For each present name with dependents, each dependent that is absent.
pub open spec fn dep_required_errors(drs: Seq<(String, Vec<String>)>, m: Seq<(String, JsonValue)>, path: Seq<char>) -> Seq<Seq<char>>
    decreases drs.len(),
{
    if drs.len() == 0 {
        Seq::empty()
    } else {
        dep_required_errors(drs.drop_last(), m, path) + if entry_index(m, drs.last().0@) is Some {
            missing_dependents(drs.last().1@, m, path, drs.last().0@)
        } else {
            Seq::empty()
        }
    }
}

/// For each present name with a dependent schema, the whole object checked
/// against that schema.
pub open spec fn dep_schema_errors(ds: Seq<(String, SchemaNode)>, v: JsonValue, m: Seq<(String, JsonValue)>, path: Seq<char>) -> Seq<Seq<char>>
    decreases ds, 0int, 0int,
{
    if ds.len() == 0 {
        Seq::empty()
    } else {
        dep_schema_errors(ds.drop_last(), v, m, path) + if entry_index(m, ds.last().0@) is Some {
            errors_at(ds.last().1, v, path + " dependent schema for "@ + ds.last().0@)
        } else {
            Seq::empty()
        }
    }
}

/// The members `m[..k]` that the schema does not declare: checked against
/// the additional-properties schema, or refused when additional or
/// unevaluated members are not allowed.
pub open spec fn extra_errors(s: SchemaNode, m: Seq<(String, JsonValue)>, path: Seq<char>, k: int) -> Seq<Seq<char>>
    decreases s, 6int, k,
{
    if k <= 0 || k > m.len() {
        Seq::empty()
    } else {
        let name = m[k - 1].0@;
        extra_errors(s, m, path, k - 1) + if key_index(s.properties@, name) is Some {
            Seq::empty()
        } else {
            match s.additional_properties {
                Some(a) => errors_at(*a, m[k - 1].1, member_path(path, name)),
                None => if !s.allow_additional_properties {
                    seq![member_path(path, name) + ": additional property not allowed"@]
                } else {
                    msg_when(
                        !s.allow_unevaluated_properties,
                        member_path(path, name) + ": unevaluated property not allowed"@,
                    )
                },
            }
        }
    }
}

/// Whether some earlier item equals item `i`.
pub open spec fn dup_before(items: Seq<JsonValue>, i: int) -> bool {
    exists|j: int| 0 <= j < i && view_json(#[trigger] items[j]) == view_json(items[i])
}

pub open spec fn unique_errors(items: Seq<JsonValue>, path: Seq<char>, k: int) -> Seq<Seq<char>>
    decreases k,
{
    if k <= 0 || k > items.len() {
        Seq::empty()
    } else {
        unique_errors(items, path, k - 1) + msg_when(
            dup_before(items, k - 1),
            index_path(path, k - 1) + ": array item duplicates an earlier value"@,
        )
    }
}

/// How many of `items[..k]` the `contains` schema accepts.
pub open spec fn contains_count(s: SchemaNode, items: Seq<JsonValue>, path: Seq<char>, k: int) -> nat
    decreases s, 6int, k,
{
    if k <= 0 || k > items.len() {
        0
    } else {
        contains_count(s, items, path, k - 1) + match s.contains {
            Some(c) => if errors_at(*c, items[k - 1], path).len() == 0 {
                1nat
            } else {
                0nat
            },
            None => 0nat,
        }
    }
}

/// Items `[..k]` that have a prefix schema, each checked against it.
pub open spec fn prefix_errors(s: SchemaNode, items: Seq<JsonValue>, path: Seq<char>, k: int) -> Seq<Seq<char>>
    decreases s, 6int, k,
{
    if k <= 0 || k > s.prefix_items@.len() {
        Seq::empty()
    } else {
        prefix_errors(s, items, path, k - 1) + if k - 1 < items.len() {
            errors_at(s.prefix_items@[k - 1], items[k - 1], index_path(path, k - 1))
        } else {
            Seq::empty()
        }
    }
}

/// Items from the end of the prefix to `k`, each checked against `items`.
pub open spec fn item_errors(s: SchemaNode, items: Seq<JsonValue>, path: Seq<char>, k: int) -> Seq<Seq<char>>
    decreases s, 6int, k,
{
    if k <= s.prefix_items@.len() || k > items.len() {
        Seq::empty()
    } else {
        item_errors(s, items, path, k - 1) + match s.items {
            Some(it) => errors_at(*it, items[k - 1], index_path(path, k - 1)),
            None => Seq::empty(),
        }
    }
}

pub open spec fn unevaluated_errors(path: Seq<char>, from: int, k: int) -> Seq<Seq<char>>
    decreases k - from,
{
    if k <= from {
        Seq::empty()
    } else {
        unevaluated_errors(path, from, k - 1) + seq![index_path(path, k - 1) + ": unevaluated item not allowed"@]
    }
}

/// The item count held to `minItems` and `maxItems`.
pub open spec fn item_count_errors(s: SchemaNode, n: nat, path: Seq<char>) -> Seq<Seq<char>> {
    (match s.min_items {
        Some(mn) => msg_when(
            n < mn,
            path + ": expected at least "@ + decimal(mn as nat) + " item(s) but got "@ + decimal(n),
        ),
        None => Seq::empty(),
    }) + (match s.max_items {
        Some(mx) => msg_when(
            n > mx,
            path + ": expected at most "@ + decimal(mx as nat) + " item(s) but got "@ + decimal(n),
        ),
        None => Seq::empty(),
    })
}

pub open spec fn array_errors(s: SchemaNode, items: Seq<JsonValue>, path: Seq<char>) -> Seq<Seq<char>>
    decreases s, 9int, 0int,
{
    let n = items.len();
    let prefix_len = s.prefix_items@.len();
    item_count_errors(s, n, path) + (if s.unique_items {
        unique_errors(items, path, n as int)
    } else {
        Seq::empty()
    }) + contains_errors(s, items, path) + prefix_errors(s, items, path, prefix_len as int) + rest_errors(s, items, path)
}

/// The count of items the `contains` schema accepts, held to its bounds.
pub open spec fn contains_errors(s: SchemaNode, items: Seq<JsonValue>, path: Seq<char>) -> Seq<Seq<char>>
    decreases s, 8int, 0int,
{
    let n = items.len();
    match s.contains {
        Some(c) => {
            let matches = contains_count(s, items, path, n as int);
            let mn: nat = match s.min_contains {
                Some(x) => x as nat,
                None => 1,
            };
            msg_when(
                matches < mn,
                path + ": expected at least "@ + decimal(mn) + " item(s) matching contains schema but got "@
                    + decimal(matches),
            ) + match s.max_contains {
                Some(mx) => msg_when(
                    matches > mx,
                    path + ": expected at most "@ + decimal(mx as nat)
                        + " item(s) matching contains schema but got "@ + decimal(matches),
                ),
                None => Seq::empty(),
            }
        },
        None => Seq::empty(),
    }
}

/// Items past the prefix: checked against `items`, or refused when
/// unevaluated items are not allowed.
pub open spec fn rest_errors(s: SchemaNode, items: Seq<JsonValue>, path: Seq<char>) -> Seq<Seq<char>>
    decreases s, 8int, 0int,
{
    let n = items.len();
    let prefix_len = s.prefix_items@.len();
    match s.items {
        Some(_) => item_errors(s, items, path, n as int),
        None => if !s.allow_unevaluated_items && n > prefix_len {
            unevaluated_errors(path, prefix_len as int, n as int)
        } else {
            Seq::empty()
        },
    }
}

// ---------------------------------------------------------------------
// Every message names where it was found.

/// Every message of `ms` starts with `p`.
pub open spec fn led_by(ms: Seq<Seq<char>>, p: Seq<char>) -> bool {
    forall|i: int| 0 <= i < ms.len() ==> p.is_prefix_of(#[trigger] ms[i])
}

proof fn lemma_led_cat(a: Seq<Seq<char>>, b: Seq<Seq<char>>, p: Seq<char>)
    requires
        led_by(a, p),
        led_by(b, p),
    ensures
        led_by(a + b, p),
{
    assert forall|i: int| 0 <= i < (a + b).len() implies p.is_prefix_of(#[trigger] (a + b)[i]) by {
        if i < a.len() {
            assert((a + b)[i] == a[i]);
        } else {
            assert((a + b)[i] == b[i - a.len()]);
        }
    }
}

proof fn lemma_led_when(c: bool, m: Seq<char>, p: Seq<char>)
    requires
        p.is_prefix_of(m),
    ensures
        led_by(msg_when(c, m), p),
{
}

proof fn lemma_led_narrow(ms: Seq<Seq<char>>, q: Seq<char>, p: Seq<char>)
    requires
        led_by(ms, q),
        p.is_prefix_of(q),
    ensures
        led_by(ms, p),
{
    assert forall|i: int| 0 <= i < ms.len() implies p.is_prefix_of(#[trigger] ms[i]) by {
        assert(q.is_prefix_of(ms[i]));
        assert(ms[i].subrange(0, p.len() as int) =~= q.subrange(0, p.len() as int));
    }
}

proof fn lemma_string_led(s: SchemaNode, t: Seq<char>, path: Seq<char>)
    ensures
        led_by(string_errors(s, t, path), path),
        led_by(format_errors(s.format->0@, t, path), path),
{
    let f = s.format->0@;
    assert(led_by(format_errors(f, t, path), path));
    assert(led_by(string_errors(s, t, path), path)) by {
        let a: Seq<Seq<char>> = match s.min_length {
            Some(mn) => msg_when(t.len() < mn, path + ": expected string length at least "@ + decimal(mn as nat) + " but got "@ + decimal(t.len())),
            None => Seq::empty(),
        };
        let b: Seq<Seq<char>> = match s.max_length {
            Some(mx) => msg_when(t.len() > mx, path + ": expected string length at most "@ + decimal(mx as nat) + " but got "@ + decimal(t.len())),
            None => Seq::empty(),
        };
        let c: Seq<Seq<char>> = match s.pattern {
            Some(p) => msg_when(regex_verdict(p@, t) == Some(false), path + ": string does not match pattern /"@ + p@ + "/"@),
            None => Seq::empty(),
        };
        let d: Seq<Seq<char>> = match s.format {
            Some(f) => format_errors(f@, t, path),
            None => Seq::empty(),
        };
        assert(led_by(a, path));
        assert(led_by(b, path));
        assert(led_by(c, path));
        assert(led_by(d, path));
        lemma_led_cat(a, b, path);
        lemma_led_cat(a + b, c, path);
        lemma_led_cat(a + b + c, d, path);
    }
}

proof fn lemma_number_led(s: SchemaNode, n: JsonNumber, path: Seq<char>)
    ensures
        led_by(number_errors(s, n, path), path),
{
    let x = view_number(n);
    let shown = number_display(x);
    let a: Seq<Seq<char>> = match s.multiple_of {
        Some(step) => msg_when(
            multiple_miss(x, view_number(step)),
            path + ": expected number to be a multiple of "@ + number_display(view_number(step)) + " but got "@ + shown,
        ),
        None => Seq::empty(),
    };
    let b: Seq<Seq<char>> = match s.minimum {
        Some(mn) => {
            let failed = if s.exclusive_minimum { !num_less(view_number(mn), x) } else { num_less(x, view_number(mn)) };
            let op = if s.exclusive_minimum { ">"@ } else { ">="@ };
            msg_when(failed, path + ": expected number "@ + op + " "@ + number_display(view_number(mn)) + " but got "@ + shown)
        },
        None => Seq::empty(),
    };
    let c: Seq<Seq<char>> = match s.maximum {
        Some(mx) => {
            let failed = if s.exclusive_maximum { !num_less(x, view_number(mx)) } else { num_less(view_number(mx), x) };
            let op = if s.exclusive_maximum { "<"@ } else { "<="@ };
            msg_when(failed, path + ": expected number "@ + op + " "@ + number_display(view_number(mx)) + " but got "@ + shown)
        },
        None => Seq::empty(),
    };
    assert(led_by(a, path));
    assert(led_by(b, path));
    assert(led_by(c, path));
    lemma_led_cat(a, b, path);
    lemma_led_cat(a + b, c, path);
    assert(number_errors(s, n, path) == a + b + c);
}

proof fn lemma_prop_count_led(s: SchemaNode, n: nat, path: Seq<char>)
    ensures
        led_by(prop_count_errors(s, n, path), path),
        led_by(item_count_errors(s, n, path), path),
{
    let a: Seq<Seq<char>> = match s.min_properties {
        Some(mn) => msg_when(n < mn, path + ": expected at least "@ + decimal(mn as nat) + " propert"@ + plural_y(mn as nat) + " but got "@ + decimal(n)),
        None => Seq::empty(),
    };
    let b: Seq<Seq<char>> = match s.max_properties {
        Some(mx) => msg_when(n > mx, path + ": expected at most "@ + decimal(mx as nat) + " propert"@ + plural_y(mx as nat) + " but got "@ + decimal(n)),
        None => Seq::empty(),
    };
    assert(led_by(a, path));
    assert(led_by(b, path));
    lemma_led_cat(a, b, path);
    let c: Seq<Seq<char>> = match s.min_items {
        Some(mn) => msg_when(n < mn, path + ": expected at least "@ + decimal(mn as nat) + " item(s) but got "@ + decimal(n)),
        None => Seq::empty(),
    };
    let d: Seq<Seq<char>> = match s.max_items {
        Some(mx) => msg_when(n > mx, path + ": expected at most "@ + decimal(mx as nat) + " item(s) but got "@ + decimal(n)),
        None => Seq::empty(),
    };
    assert(led_by(c, path));
    assert(led_by(d, path));
    lemma_led_cat(c, d, path);
}

proof fn lemma_missing_led(deps: Seq<String>, m: Seq<(String, JsonValue)>, path: Seq<char>, name: Seq<char>)
    ensures
        led_by(missing_dependents(deps, m, path, name), path),
    decreases deps.len(),
{
    if deps.len() > 0 {
        lemma_missing_led(deps.drop_last(), m, path, name);
        let msg = member_path(path, deps.last()@) + ": required because "@ + member_path(path, name) + " is present"@;
        assert(path.is_prefix_of(msg));
        lemma_led_cat(missing_dependents(deps.drop_last(), m, path, name), msg_when(entry_index(m, deps.last()@) is None, msg), path);
    }
}

proof fn lemma_dep_required_led(drs: Seq<(String, Vec<String>)>, m: Seq<(String, JsonValue)>, path: Seq<char>)
    ensures
        led_by(dep_required_errors(drs, m, path), path),
    decreases drs.len(),
{
    if drs.len() > 0 {
        lemma_dep_required_led(drs.drop_last(), m, path);
        lemma_missing_led(drs.last().1@, m, path, drs.last().0@);
        let tail: Seq<Seq<char>> = if entry_index(m, drs.last().0@) is Some {
            missing_dependents(drs.last().1@, m, path, drs.last().0@)
        } else {
            Seq::empty()
        };
        lemma_led_cat(dep_required_errors(drs.drop_last(), m, path), tail, path);
    }
}

proof fn lemma_unique_led(items: Seq<JsonValue>, path: Seq<char>, k: int)
    ensures
        led_by(unique_errors(items, path, k), path),
    decreases k,
{
    if !(k <= 0 || k > items.len()) {
        lemma_unique_led(items, path, k - 1);
        let msg = index_path(path, k - 1) + ": array item duplicates an earlier value"@;
        assert(path.is_prefix_of(msg));
        lemma_led_cat(unique_errors(items, path, k - 1), msg_when(dup_before(items, k - 1), msg), path);
    }
}

proof fn lemma_unevaluated_led(path: Seq<char>, from: int, k: int)
    ensures
        led_by(unevaluated_errors(path, from, k), path),
    decreases k - from,
{
    if k > from {
        lemma_unevaluated_led(path, from, k - 1);
        let msg = index_path(path, k - 1) + ": unevaluated item not allowed"@;
        assert(path.is_prefix_of(msg));
        assert(led_by(seq![msg], path));
        lemma_led_cat(unevaluated_errors(path, from, k - 1), seq![msg], path);
    }
}

proof fn lemma_contains_led(s: SchemaNode, items: Seq<JsonValue>, path: Seq<char>)
    ensures
        led_by(contains_errors(s, items, path), path),
{
    if s.contains is Some {
        let n = items.len();
        let matches = contains_count(s, items, path, n as int);
        let mn: nat = match s.min_contains {
            Some(x) => x as nat,
            None => 1,
        };
        let a = msg_when(matches < mn, path + ": expected at least "@ + decimal(mn) + " item(s) matching contains schema but got "@ + decimal(matches));
        let b: Seq<Seq<char>> = match s.max_contains {
            Some(mx) => msg_when(matches > mx, path + ": expected at most "@ + decimal(mx as nat) + " item(s) matching contains schema but got "@ + decimal(matches)),
            None => Seq::empty(),
        };
        assert(led_by(a, path));
        assert(led_by(b, path));
        lemma_led_cat(a, b, path);
    }
}

proof fn lemma_mismatch_led(path: Seq<char>, want: Seq<char>, v: JsonValue)
    ensures
        led_by(mismatch(path, want, v), path),
{
    assert(path.is_prefix_of(path + ": expected "@ + want + " but got "@ + json_type_label(v)));
}

/// Every message of a walk starts with the path it was found at: a child's
/// path extends its parent's, so nothing a nested check reports escapes
/// the position being checked.
pub proof fn law_messages_start_with_path(s: SchemaNode, v: JsonValue, path: Seq<char>)
    ensures
        led_by(errors_at(s, v, path), path),
    decreases s, 11int, 0int,
{
    if s.bool_schema == Some(false) {
        assert(path.is_prefix_of(path + ": value is not allowed by false schema"@));
    } else if s.bool_schema == Some(true) {
    } else if v is Null {
        assert(path.is_prefix_of(path + ": expected "@ + type_label(s.node_type) + " but got null"@));
    } else if s.enum_values@.len() > 0 && !in_enum(s.enum_values@, v) {
        assert(path.is_prefix_of(path + ": value "@ + compact_json(v) + " is not in the declared enum"@));
    } else {
        lemma_type_led(s, v, path);
        lemma_conditional_led(s, v, path);
        lemma_led_cat(type_errors(s, v, path), conditional_errors(s, v, path), path);
    }
}

proof fn lemma_type_led(s: SchemaNode, v: JsonValue, path: Seq<char>)
    ensures
        led_by(type_errors(s, v, path), path),
    decreases s, 10int, 0int,
{
    lemma_mismatch_led(path, "object"@, v);
    lemma_mismatch_led(path, "array"@, v);
    lemma_mismatch_led(path, "string"@, v);
    lemma_mismatch_led(path, "integer"@, v);
    lemma_mismatch_led(path, "number"@, v);
    lemma_mismatch_led(path, "boolean"@, v);
    lemma_mismatch_led(path, "null"@, v);
    match v {
        JsonValue::Object(m) => lemma_object_led(s, v, m@, path),
        JsonValue::Array(items) => lemma_array_led(s, items@, path),
        JsonValue::String(t) => lemma_string_led(s, t@, path),
        JsonValue::Number(n) => lemma_number_led(s, n, path),
        _ => {},
    }
}

proof fn lemma_conditional_led(s: SchemaNode, v: JsonValue, path: Seq<char>)
    ensures
        led_by(conditional_errors(s, v, path), path),
    decreases s, 10int, 0int,
{
    match s.if_schema {
        None => {},
        Some(i) => {
            if errors_at(*i, v, path).len() == 0 {
                if let Some(t) = s.then_schema {
                    law_messages_start_with_path(*t, v, path + " then schema"@);
                    lemma_led_narrow(errors_at(*t, v, path + " then schema"@), path + " then schema"@, path);
                }
            } else {
                if let Some(e) = s.else_schema {
                    law_messages_start_with_path(*e, v, path + " else schema"@);
                    lemma_led_narrow(errors_at(*e, v, path + " else schema"@), path + " else schema"@, path);
                }
            }
        },
    }
}

proof fn lemma_object_led(s: SchemaNode, v: JsonValue, m: Seq<(String, JsonValue)>, path: Seq<char>)
    ensures
        led_by(object_errors(s, v, m, path), path),
    decreases s, 9int, 0int,
{
    assert(decreases_to!(s => s.properties));
    assert(decreases_to!(s => s.dependent_schemas));
    lemma_prop_count_led(s, m.len(), path);
    lemma_props_led(s.properties@, m, path);
    lemma_dep_required_led(s.dependent_required@, m, path);
    lemma_dep_schema_led(s.dependent_schemas@, v, m, path);
    lemma_extra_led(s, m, path, m.len() as int);
    let a = prop_count_errors(s, m.len(), path);
    let b = props_errors(s.properties@, m, path);
    let c = dep_required_errors(s.dependent_required@, m, path);
    let d = dep_schema_errors(s.dependent_schemas@, v, m, path);
    let e = extra_errors(s, m, path, m.len() as int);
    lemma_led_cat(a, b, path);
    lemma_led_cat(a + b, c, path);
    lemma_led_cat(a + b + c, d, path);
    lemma_led_cat(a + b + c + d, e, path);
}

proof fn lemma_props_led(ps: Seq<(String, SchemaNode)>, m: Seq<(String, JsonValue)>, path: Seq<char>)
    ensures
        led_by(props_errors(ps, m, path), path),
    decreases ps, 0int, 0int,
{
    if ps.len() > 0 {
        lemma_props_led(ps.drop_last(), m, path);
        let child = member_path(path, ps.last().0@);
        assert(path.is_prefix_of(child));
        let tail: Seq<Seq<char>> = match entry_index(m, ps.last().0@) {
            Some(i) => errors_at(ps.last().1, m[i].1, child),
            None => msg_when(ps.last().1.required, child + ": required property missing"@),
        };
        match entry_index(m, ps.last().0@) {
            Some(i) => {
                law_messages_start_with_path(ps.last().1, m[i].1, child);
                lemma_led_narrow(errors_at(ps.last().1, m[i].1, child), child, path);
            },
            None => {
                assert(path.is_prefix_of(child + ": required property missing"@));
            },
        }
        lemma_led_cat(props_errors(ps.drop_last(), m, path), tail, path);
    }
}

proof fn lemma_dep_schema_led(ds: Seq<(String, SchemaNode)>, v: JsonValue, m: Seq<(String, JsonValue)>, path: Seq<char>)
    ensures
        led_by(dep_schema_errors(ds, v, m, path), path),
    decreases ds, 0int, 0int,
{
    if ds.len() > 0 {
        lemma_dep_schema_led(ds.drop_last(), v, m, path);
        let child = path + " dependent schema for "@ + ds.last().0@;
        law_messages_start_with_path(ds.last().1, v, child);
        lemma_led_narrow(errors_at(ds.last().1, v, child), child, path);
        let tail: Seq<Seq<char>> = if entry_index(m, ds.last().0@) is Some {
            errors_at(ds.last().1, v, child)
        } else {
            Seq::empty()
        };
        lemma_led_cat(dep_schema_errors(ds.drop_last(), v, m, path), tail, path);
    }
}

proof fn lemma_extra_led(s: SchemaNode, m: Seq<(String, JsonValue)>, path: Seq<char>, k: int)
    ensures
        led_by(extra_errors(s, m, path, k), path),
    decreases s, 6int, k,
{
    if !(k <= 0 || k > m.len()) {
        lemma_extra_led(s, m, path, k - 1);
        let name = m[k - 1].0@;
        let child = member_path(path, name);
        assert(path.is_prefix_of(child));
        assert(path.is_prefix_of(child + ": additional property not allowed"@));
        assert(path.is_prefix_of(child + ": unevaluated property not allowed"@));
        if let Some(a) = s.additional_properties {
            law_messages_start_with_path(*a, m[k - 1].1, child);
            lemma_led_narrow(errors_at(*a, m[k - 1].1, child), child, path);
        }
        let tail: Seq<Seq<char>> = if key_index(s.properties@, name) is Some {
            Seq::empty()
        } else {
            match s.additional_properties {
                Some(a) => errors_at(*a, m[k - 1].1, child),
                None => if !s.allow_additional_properties {
                    seq![child + ": additional property not allowed"@]
                } else {
                    msg_when(!s.allow_unevaluated_properties, child + ": unevaluated property not allowed"@)
                },
            }
        };
        assert(led_by(tail, path));
        lemma_led_cat(extra_errors(s, m, path, k - 1), tail, path);
    }
}

proof fn lemma_prefix_items_led(s: SchemaNode, items: Seq<JsonValue>, path: Seq<char>, k: int)
    ensures
        led_by(prefix_errors(s, items, path, k), path),
    decreases s, 6int, k,
{
    if !(k <= 0 || k > s.prefix_items@.len()) {
        lemma_prefix_items_led(s, items, path, k - 1);
        if k - 1 < items.len() {
            let child = index_path(path, k - 1);
            assert(path.is_prefix_of(child));
            assert(decreases_to!(s => s.prefix_items));
            assert(decreases_to!(s.prefix_items => s.prefix_items@));
            assert(decreases_to!(s.prefix_items@ => s.prefix_items@[k - 1]));
            law_messages_start_with_path(s.prefix_items@[k - 1], items[k - 1], child);
            lemma_led_narrow(errors_at(s.prefix_items@[k - 1], items[k - 1], child), child, path);
            lemma_led_cat(prefix_errors(s, items, path, k - 1), errors_at(s.prefix_items@[k - 1], items[k - 1], child), path);
        } else {
            assert(prefix_errors(s, items, path, k) =~= prefix_errors(s, items, path, k - 1));
        }
    }
}

proof fn lemma_items_led(s: SchemaNode, items: Seq<JsonValue>, path: Seq<char>, k: int)
    ensures
        led_by(item_errors(s, items, path, k), path),
    decreases s, 6int, k,
{
    if !(k <= s.prefix_items@.len() || k > items.len()) {
        lemma_items_led(s, items, path, k - 1);
        let child = index_path(path, k - 1);
        assert(path.is_prefix_of(child));
        match s.items {
            Some(it) => {
                law_messages_start_with_path(*it, items[k - 1], child);
                lemma_led_narrow(errors_at(*it, items[k - 1], child), child, path);
                lemma_led_cat(item_errors(s, items, path, k - 1), errors_at(*it, items[k - 1], child), path);
            },
            None => {
                assert(item_errors(s, items, path, k) =~= item_errors(s, items, path, k - 1));
            },
        }
    }
}

proof fn lemma_array_led(s: SchemaNode, items: Seq<JsonValue>, path: Seq<char>)
    ensures
        led_by(array_errors(s, items, path), path),
    decreases s, 9int, 0int,
{
    let n = items.len();
    let prefix_len = s.prefix_items@.len();
    lemma_prop_count_led(s, n, path);
    lemma_unique_led(items, path, n as int);
    lemma_contains_led(s, items, path);
    lemma_prefix_items_led(s, items, path, prefix_len as int);
    lemma_rest_led(s, items, path);
    let a = item_count_errors(s, n, path);
    let b: Seq<Seq<char>> = if s.unique_items { unique_errors(items, path, n as int) } else { Seq::empty() };
    let c = contains_errors(s, items, path);
    let d = prefix_errors(s, items, path, prefix_len as int);
    let e = rest_errors(s, items, path);
    lemma_led_cat(a, b, path);
    lemma_led_cat(a + b, c, path);
    lemma_led_cat(a + b + c, d, path);
    lemma_led_cat(a + b + c + d, e, path);
}

proof fn lemma_rest_led(s: SchemaNode, items: Seq<JsonValue>, path: Seq<char>)
    ensures
        led_by(rest_errors(s, items, path), path),
    decreases s, 8int, 0int,
{
    let n = items.len();
    let prefix_len = s.prefix_items@.len();
    match s.items {
        Some(_) => lemma_items_led(s, items, path, n as int),
        None => lemma_unevaluated_led(path, prefix_len as int, n as int),
    }
}

// ---------------------------------------------------------------------
// What a passing number satisfies.

/// A number that passes its schema's checks lies within the schema's
/// bounds: below an exclusive maximum, at most an inclusive one, above an
/// exclusive minimum and at least an inclusive one. So a number at or
/// past an exclusive bound is always reported.
pub proof fn law_number_within_bounds(s: SchemaNode, n: JsonNumber, path: Seq<char>)
    ensures
        number_errors(s, n, path).len() == 0 ==> match s.maximum {
            Some(m) => if s.exclusive_maximum {
                num_less(view_number(n), view_number(m))
            } else {
                !num_less(view_number(m), view_number(n))
            },
            None => true,
        },
        number_errors(s, n, path).len() == 0 ==> match s.minimum {
            Some(m) => if s.exclusive_minimum {
                num_less(view_number(m), view_number(n))
            } else {
                !num_less(view_number(n), view_number(m))
            },
            None => true,
        },
{
}

/// Conversely, a number within the schema's bounds, under a schema with no
/// `multipleOf`, draws no error from the number checks.
pub proof fn law_number_inside_bounds_passes(s: SchemaNode, n: JsonNumber, path: Seq<char>)
    requires
        s.multiple_of is None,
        match s.maximum {
            Some(m) => if s.exclusive_maximum {
                num_less(view_number(n), view_number(m))
            } else {
                !num_less(view_number(m), view_number(n))
            },
            None => true,
        },
        match s.minimum {
            Some(m) => if s.exclusive_minimum {
                num_less(view_number(m), view_number(n))
            } else {
                !num_less(view_number(n), view_number(m))
            },
            None => true,
        },
    ensures
        number_errors(s, n, path).len() == 0,
{
}

/// The same for a whole value checked against a number or integer schema:
/// when validation finds nothing, the number lies within the bounds.
pub proof fn law_valid_number_within_bounds(s: SchemaNode, n: JsonNumber, path: Seq<char>)
    requires
        s.bool_schema is None,
        s.node_type == SchemaNodeType::Number || s.node_type == SchemaNodeType::Integer,
        errors_at(s, JsonValue::Number(n), path).len() == 0,
    ensures
        match s.maximum {
            Some(m) => if s.exclusive_maximum {
                num_less(view_number(n), view_number(m))
            } else {
                !num_less(view_number(m), view_number(n))
            },
            None => true,
        },
        match s.minimum {
            Some(m) => if s.exclusive_minimum {
                num_less(view_number(m), view_number(n))
            } else {
                !num_less(view_number(n), view_number(m))
            },
            None => true,
        },
{
    let v = JsonValue::Number(n);
    assert(type_errors(s, v, path).len() == 0);
    if s.node_type == SchemaNodeType::Integer {
        assert(number_is_whole(view_number(n)));
    }
    assert(number_errors(s, n, path).len() == 0);
    law_number_within_bounds(s, n, path);
}

// ---------------------------------------------------------------------
// What a passing value satisfies.

proof fn lemma_cat_empty(a: Seq<Seq<char>>, b: Seq<Seq<char>>)
    requires
        (a + b).len() == 0,
    ensures
        a.len() == 0,
        b.len() == 0,
{
}

/// Every required declared property whose errors are empty is present.
proof fn lemma_props_present(ps: Seq<(String, SchemaNode)>, m: Seq<(String, JsonValue)>, path: Seq<char>)
    requires
        props_errors(ps, m, path).len() == 0,
    ensures
        forall|i: int| 0 <= i < ps.len() && (#[trigger] ps[i]).1.required ==> entry_index(m, ps[i].0@) is Some,
    decreases ps.len(),
{
    if ps.len() > 0 {
        let t = ps.drop_last();
        let tail: Seq<Seq<char>> = match entry_index(m, ps.last().0@) {
            Some(i) => errors_at(ps.last().1, m[i].1, member_path(path, ps.last().0@)),
            None => msg_when(ps.last().1.required, member_path(path, ps.last().0@) + ": required property missing"@),
        };
        lemma_cat_empty(props_errors(t, m, path), tail);
        lemma_props_present(t, m, path);
        assert forall|i: int| 0 <= i < ps.len() && (#[trigger] ps[i]).1.required implies entry_index(m, ps[i].0@) is Some by {
            if i < ps.len() - 1 {
                assert(ps[i] == t[i]);
            }
        }
    }
}

/// Every member among `m[..k]` is declared, when undeclared members are
/// refused and no additional-properties schema is given.
proof fn lemma_no_extra(s: SchemaNode, m: Seq<(String, JsonValue)>, path: Seq<char>, k: int)
    requires
        0 <= k <= m.len(),
        extra_errors(s, m, path, k).len() == 0,
        !s.allow_additional_properties,
        s.additional_properties is None,
    ensures
        forall|j: int| 0 <= j < k ==> key_index(s.properties@, (#[trigger] m[j]).0@) is Some,
    decreases k,
{
    if k > 0 {
        let name = m[k - 1].0@;
        let tail: Seq<Seq<char>> = if key_index(s.properties@, name) is Some {
            Seq::empty()
        } else {
            seq![member_path(path, name) + ": additional property not allowed"@]
        };
        lemma_cat_empty(extra_errors(s, m, path, k - 1), tail);
        lemma_no_extra(s, m, path, k - 1);
    }
}

/// A value that passes a (non-boolean) schema fits it: null only where
/// null is allowed, a member of a non-empty enumeration, of the schema's
/// type, a string within its length bounds, an array within its item
/// bounds, and an object holding every required declared property and,
/// where undeclared members are refused, no other.
pub proof fn law_valid_value_fits(s: SchemaNode, v: JsonValue, path: Seq<char>)
    requires
        s.bool_schema is None,
        errors_at(s, v, path).len() == 0,
    ensures
        v is Null ==> s.nullable || s.node_type == SchemaNodeType::Null || s.node_type == SchemaNodeType::Unknown,
        !(v is Null) && s.enum_values@.len() > 0 ==> in_enum(s.enum_values@, v),
        !(v is Null) ==> match s.node_type {
            SchemaNodeType::Object => v is Object,
            SchemaNodeType::Array => v is Array,
            SchemaNodeType::String => v is String,
            SchemaNodeType::Integer => v matches JsonValue::Number(n) && number_is_whole(view_number(n)),
            SchemaNodeType::Number => v is Number,
            SchemaNodeType::Boolean => v is Bool,
            SchemaNodeType::Null => false,
            SchemaNodeType::Unknown => true,
        },
        s.node_type == SchemaNodeType::String ==> (v matches JsonValue::String(t) ==> (s.min_length matches Some(mn)
            ==> t@.len() >= mn) && (s.max_length matches Some(mx) ==> t@.len() <= mx)),
        s.node_type == SchemaNodeType::Array ==> (v matches JsonValue::Array(xs) ==> (s.min_items matches Some(mn)
            ==> xs@.len() >= mn) && (s.max_items matches Some(mx) ==> xs@.len() <= mx)),
        s.node_type == SchemaNodeType::Object ==> (v matches JsonValue::Object(m) ==> forall|i: int|
            0 <= i < s.properties@.len() && (#[trigger] s.properties@[i]).1.required ==> entry_index(m@, s.properties@[i].0@) is Some),
        s.node_type == SchemaNodeType::Object && !s.allow_additional_properties && s.additional_properties is None
            ==> (v matches JsonValue::Object(m) ==> forall|j: int|
            0 <= j < m@.len() ==> key_index(s.properties@, (#[trigger] m@[j]).0@) is Some),
{
    if !(v is Null) && !(s.enum_values@.len() > 0 && !in_enum(s.enum_values@, v)) {
        lemma_cat_empty(type_errors(s, v, path), conditional_errors(s, v, path));
        match v {
            JsonValue::String(t) => {
                if s.node_type == SchemaNodeType::String {
                    let len = t@.len();
                    let a: Seq<Seq<char>> = match s.min_length {
                        Some(mn) => msg_when(len < mn, path + ": expected string length at least "@ + decimal(mn as nat) + " but got "@ + decimal(len)),
                        None => Seq::empty(),
                    };
                    let b: Seq<Seq<char>> = match s.max_length {
                        Some(mx) => msg_when(len > mx, path + ": expected string length at most "@ + decimal(mx as nat) + " but got "@ + decimal(len)),
                        None => Seq::empty(),
                    };
                    let c: Seq<Seq<char>> = match s.pattern {
                        Some(p) => msg_when(regex_verdict(p@, t@) == Some(false), path + ": string does not match pattern /"@ + p@ + "/"@),
                        None => Seq::empty(),
                    };
                    let d: Seq<Seq<char>> = match s.format {
                        Some(f) => format_errors(f@, t@, path),
                        None => Seq::empty(),
                    };
                    assert(string_errors(s, t@, path) == a + b + c + d);
                    lemma_cat_empty(a + b + c, d);
                    lemma_cat_empty(a + b, c);
                    lemma_cat_empty(a, b);
                }
            },
            JsonValue::Array(xs) => {
                if s.node_type == SchemaNodeType::Array {
                    let items = xs@;
                    let n = items.len();
                    let a = item_count_errors(s, n, path);
                    let b: Seq<Seq<char>> = if s.unique_items { unique_errors(items, path, n as int) } else { Seq::empty() };
                    let c = contains_errors(s, items, path);
                    let d = prefix_errors(s, items, path, s.prefix_items@.len() as int);
                    let e = rest_errors(s, items, path);
                    lemma_cat_empty(a + b + c + d, e);
                    lemma_cat_empty(a + b + c, d);
                    lemma_cat_empty(a + b, c);
                    lemma_cat_empty(a, b);
                    let a1: Seq<Seq<char>> = match s.min_items {
                        Some(mn) => msg_when(n < mn, path + ": expected at least "@ + decimal(mn as nat) + " item(s) but got "@ + decimal(n)),
                        None => Seq::empty(),
                    };
                    let a2: Seq<Seq<char>> = match s.max_items {
                        Some(mx) => msg_when(n > mx, path + ": expected at most "@ + decimal(mx as nat) + " item(s) but got "@ + decimal(n)),
                        None => Seq::empty(),
                    };
                    lemma_cat_empty(a1, a2);
                }
            },
            JsonValue::Object(m) => {
                if s.node_type == SchemaNodeType::Object {
                    let a = prop_count_errors(s, m@.len(), path);
                    let b = props_errors(s.properties@, m@, path);
                    let c = dep_required_errors(s.dependent_required@, m@, path);
                    let d = dep_schema_errors(s.dependent_schemas@, v, m@, path);
                    let e = extra_errors(s, m@, path, m@.len() as int);
                    lemma_cat_empty(a + b + c + d, e);
                    lemma_cat_empty(a + b + c, d);
                    lemma_cat_empty(a + b, c);
                    lemma_cat_empty(a, b);
                    lemma_props_present(s.properties@, m@, path);
                    if !s.allow_additional_properties && s.additional_properties is None {
                        lemma_no_extra(s, m@, path, m@.len() as int);
                    }
                }
            },
            _ => {},
        }
    }
}

// ---------------------------------------------------------------------
// Executable side.

fn has_char(s: &Vec<char>, c: char) -> (r: bool)
    ensures
        r == contains_char(s@, c),
{
    let mut i: usize = 0;
    while i < s.len()
        invariant
            i <= s@.len(),
            forall|k: int| 0 <= k < i ==> s@[k] != c,
        decreases s.len() - i,
    {
        if s[i] == c {
            return true;
        }
        i += 1;
    }
    false
}

fn push_msg(errors: &mut Vec<String>, m: &Vec<char>)
    ensures
        msgs(final(errors)@) == msgs(old(errors)@).push(m@),
{
    errors.push(string_of(m));
    assert(msgs(errors@) =~= msgs(old(errors)@).push(m@));
}

fn cat(a: &Vec<char>, b: &str) -> (r: Vec<char>)
    ensures
        r@ == a@ + b@,
{
    let mut r = a.clone();
    append_str(&mut r, b);
    r
}

fn cat_chars(a: &Vec<char>, b: &Vec<char>) -> (r: Vec<char>)
    ensures
        r@ == a@ + b@,
{
    let mut r = a.clone();
    append(&mut r, b);
    r
}

fn type_label_of(t: SchemaNodeType) -> (r: &'static str)
    ensures
        r@ == type_label(t),
{
    match t {
        SchemaNodeType::Object => "object",
        SchemaNodeType::Array => "array",
        SchemaNodeType::String => "string",
        SchemaNodeType::Integer => "integer",
        SchemaNodeType::Number => "number",
        SchemaNodeType::Boolean => "boolean",
        SchemaNodeType::Null => "null",
        SchemaNodeType::Unknown => "any",
    }
}

fn json_type_label_of(v: &JsonValue) -> (r: &'static str)
    ensures
        r@ == json_type_label(*v),
{
    match v {
        JsonValue::Null => "null",
        JsonValue::Bool(_) => "boolean",
        JsonValue::Number(_) => "number",
        JsonValue::String(_) => "string",
        JsonValue::Array(_) => "array",
        JsonValue::Object(_) => "object",
    }
}

fn compact_json_of(v: &JsonValue) -> (r: Vec<char>)
    ensures
        r@ == compact_json(*v),
{
    let s = to_json_text(v);
    if utf8_len_exceeds(&s, 40) {
        let mut out = if s.len() <= 40 {
            slice(&s, 0, s.len())
        } else {
            slice(&s, 0, 40)
        };
        proof {
            if s@.len() <= 40 {
                assert(out@ =~= s@);
            }
        }
        append_str(&mut out, "...");
        out
    } else {
        s
    }
}

fn push_mismatch(errors: &mut Vec<String>, path: &Vec<char>, want: &str, v: &JsonValue)
    ensures
        msgs(final(errors)@) == msgs(old(errors)@) + mismatch(path@, want@, *v),
{
    let mut m = cat(path, ": expected ");
    append_str(&mut m, want);
    append_str(&mut m, " but got ");
    append_str(&mut m, json_type_label_of(v));
    push_msg(errors, &m);
    assert(msgs(errors@) =~= msgs(old(errors)@) + mismatch(path@, want@, *v));
}

fn push_when(errors: &mut Vec<String>, c: bool, m: &Vec<char>)
    ensures
        msgs(final(errors)@) == msgs(old(errors)@) + msg_when(c, m@),
{
    if c {
        push_msg(errors, m);
        assert(msgs(errors@) =~= msgs(old(errors)@) + msg_when(c, m@));
    } else {
        assert(msgs(errors@) =~= msgs(old(errors)@) + msg_when(c, m@));
    }
}

fn usize_text(n: usize) -> (r: Vec<char>)
    ensures
        r@ == decimal(n as nat),
{
    decimal_of(n as u64)
}

fn email_like(t: &Vec<char>) -> (r: bool)
    ensures
        r == is_email_like(t@),
{
    proof {
        lemma_find_from(t@, seq!['@'], 0);
    }
    match find_char_of(t, '@') {
        None => false,
        Some(i) => {
            assert(i < t.len());
            let local = slice(t, 0, i);
            let domain = slice(t, i + 1, t.len());
            proof {
                reveal_strlit(".");
            }
            local.len() > 0 && has_char(&domain, '.') && !crate::text::starts_with_of(&domain, &chars_of("."))
                && !crate::text::ends_with_of(&domain, &chars_of("."))
        },
    }
}

fn digits_between(t: &Vec<char>, from: usize, to: usize) -> (r: bool)
    requires
        from <= to <= t@.len(),
    ensures
        r == all_ascii_digits(t@, from as int, to as int),
{
    let mut i = from;
    while i < to
        invariant
            from <= i <= to,
            to <= t@.len(),
            all_ascii_digits(t@, from as int, i as int),
        decreases to - i,
    {
        if !('0' <= t[i] && t[i] <= '9') {
            return false;
        }
        i += 1;
    }
    true
}

fn date_like(t: &Vec<char>) -> (r: bool)
    ensures
        r == is_date_like(t@),
{
    t.len() == 10 && t[4] == '-' && t[7] == '-' && digits_between(t, 0, 4) && digits_between(t, 5, 7)
        && digits_between(t, 8, 10)
}

fn char_width(c: char) -> (r: usize)
    ensures
        r == utf8_width(c),
{
    let code = c as u32;
    if code < 0x80 {
        1
    } else if code < 0x800 {
        2
    } else if code < 0x10000 {
        3
    } else {
        4
    }
}

fn boundary_at(t: &Vec<char>, n: usize) -> (r: Option<usize>)
    ensures
        match byte_boundary(t@, n as nat, 0) {
            Some(k) => r == Some(k as usize) && 0 <= k <= t@.len(),
            None => r is None,
        },
{
    let mut total: usize = 0;
    let mut i: usize = 0;
    assert(t@.subrange(0, 0) =~= Seq::<char>::empty());
    while i <= t.len()
        invariant
            i <= t@.len(),
            total == utf8_len(t@.subrange(0, i as int)),
            byte_boundary(t@, n as nat, 0) == byte_boundary(t@, n as nat, i as int),
        decreases t.len() - i,
    {
        if total == n {
            return Some(i);
        }
        if i == t.len() || total > n {
            return None;
        }
        proof {
            assert(t@.subrange(0, i + 1).drop_last() =~= t@.subrange(0, i as int));
        }
        let w = char_width(t[i]);
        if w > n - total {
            proof {
                assert(byte_boundary(t@, n as nat, i + 1) is None) by {
                    assert(utf8_len(t@.subrange(0, i + 1)) > n);
                }
            }
            return None;
        }
        total = total + w;
        i += 1;
    }
    None
}

fn date_time_like(t: &Vec<char>) -> (r: bool)
    ensures
        r == is_date_time_like(t@),
{
    let long = utf8_len_exceeds(t, 19);
    let has_t = has_char(t, 'T');
    if !(long && has_t) {
        return false;
    }
    let z = crate::text::ends_with_of(t, &chars_of("Z"));
    let plus = has_char(t, '+');
    if z || plus {
        return true;
    }
    let b = boundary_at(t, 10);
    match b {
        Some(k) => {
            let tail = slice(t, k, t.len());
            let dash = has_char(&tail, '-');
            assert(dash == contains_char(t@.subrange(k as int, t@.len() as int), '-'));
            dash
        },
        None => false,
    }
}

fn check_string(s: &SchemaNode, text: &String, path: &Vec<char>, errors: &mut Vec<String>)
    ensures
        msgs(final(errors)@) == msgs(old(errors)@) + string_errors(*s, text@, path@),
{
    let ghost start = msgs(errors@);
    let t = chars_of(text.as_str());
    let length = t.len();
    let ghost g0 = msgs(errors@);
    if let Some(mn) = s.min_length {
        let mut m = cat(path, ": expected string length at least ");
        append(&mut m, &usize_text(mn));
        append_str(&mut m, " but got ");
        append(&mut m, &usize_text(length));
        push_when(errors, length < mn, &m);
    }
    let ghost g1 = msgs(errors@);
    if let Some(mx) = s.max_length {
        let mut m = cat(path, ": expected string length at most ");
        append(&mut m, &usize_text(mx));
        append_str(&mut m, " but got ");
        append(&mut m, &usize_text(length));
        push_when(errors, length > mx, &m);
    }
    let ghost g2 = msgs(errors@);
    if let Some(p) = &s.pattern {
        let verdict = pattern_verdict(p.as_str(), text.as_str());
        let mut m = cat(path, ": string does not match pattern /");
        append_str(&mut m, p.as_str());
        append_str(&mut m, "/");
        let miss = match verdict {
            Some(b) => !b,
            None => false,
        };
        push_when(errors, miss, &m);
    }
    let ghost g3 = msgs(errors@);
    if let Some(f) = &s.format {
        let fc = chars_of(f.as_str());
        let ghost g = msgs(errors@);
        if crate::text::eq_str(&fc, "email") {
            let m = cat(path, ": string is not a valid email format");
            push_when(errors, !email_like(&t), &m);
        } else if crate::text::eq_str(&fc, "date") {
            let m = cat(path, ": string is not a valid date format");
            push_when(errors, !date_like(&t), &m);
        } else if crate::text::eq_str(&fc, "date-time") {
            let m = cat(path, ": string is not a valid date-time format");
            push_when(errors, !date_time_like(&t), &m);
        }
        assert(msgs(errors@) =~= g + format_errors(f@, text@, path@));
    }
    proof {
        let e0 = match s.min_length {
            Some(mn) => msg_when(
                length < mn,
                path@ + ": expected string length at least "@ + decimal(mn as nat) + " but got "@ + decimal(length as nat),
            ),
            None => Seq::empty(),
        };
        assert(g1 =~= g0 + e0);
    }
    assert(msgs(errors@) =~= start + string_errors(*s, text@, path@));
}

fn check_number(s: &SchemaNode, n: &JsonNumber, path: &Vec<char>, errors: &mut Vec<String>)
    ensures
        msgs(final(errors)@) == msgs(old(errors)@) + number_errors(*s, *n, path@),
{
    let ghost start = msgs(errors@);
    let shown = number_display_of(n);
    if let Some(step) = &s.multiple_of {
        let mut m = cat(path, ": expected number to be a multiple of ");
        append(&mut m, &number_display_of(step));
        append_str(&mut m, " but got ");
        append(&mut m, &shown);
        push_when(errors, misses_multiple(n, step), &m);
    }
    let ghost g1 = msgs(errors@);
    if let Some(mn) = &s.minimum {
        let failed = if s.exclusive_minimum {
            !number_less(mn, n)
        } else {
            number_less(n, mn)
        };
        let mut m = cat(path, ": expected number ");
        append_str(&mut m, if s.exclusive_minimum { ">" } else { ">=" });
        append_str(&mut m, " ");
        append(&mut m, &number_display_of(mn));
        append_str(&mut m, " but got ");
        append(&mut m, &shown);
        push_when(errors, failed, &m);
    }
    let ghost g2 = msgs(errors@);
    if let Some(mx) = &s.maximum {
        let failed = if s.exclusive_maximum {
            !number_less(n, mx)
        } else {
            number_less(mx, n)
        };
        let mut m = cat(path, ": expected number ");
        append_str(&mut m, if s.exclusive_maximum { "<" } else { "<=" });
        append_str(&mut m, " ");
        append(&mut m, &number_display_of(mx));
        append_str(&mut m, " but got ");
        append(&mut m, &shown);
        push_when(errors, failed, &m);
    }
    assert(msgs(errors@) =~= start + number_errors(*s, *n, path@));
}

/// Every problem of `value` against `schema`, `$`-rooted, in walking order.
pub fn validate_value(schema: &SchemaNode, value: &JsonValue) -> (r: Vec<String>)
    ensures
        msgs(r@) == errors_at(*schema, *value, "$"@),
{
    let mut errors: Vec<String> = Vec::new();
    let path = chars_of("$");
    assert(msgs(errors@) =~= Seq::<Seq<char>>::empty());
    validate_at(schema, value, &path, &mut errors);
    assert(msgs(errors@) =~= errors_at(*schema, *value, "$"@));
    errors
}

fn index_path_of(path: &Vec<char>, i: usize) -> (r: Vec<char>)
    ensures
        r@ == index_path(path@, i as int),
{
    let mut r = cat(path, "[");
    append(&mut r, &usize_text(i));
    append_str(&mut r, "]");
    r
}

fn member_path_of(path: &Vec<char>, name: &Vec<char>) -> (r: Vec<char>)
    ensures
        r@ == member_path(path@, name@),
{
    let mut r = cat(path, ".");
    append(&mut r, name);
    r
}

/// Appends every problem of `value` against `schema` found at `path` to
/// `errors`, keeping the messages already there; each new message starts
/// with `path` (see `law_messages_start_with_path`).
pub fn validate_at(schema: &SchemaNode, value: &JsonValue, path: &Vec<char>, errors: &mut Vec<String>)
    ensures
        msgs(final(errors)@) == msgs(old(errors)@) + errors_at(*schema, *value, path@),
    decreases *schema, 9int,
{
    let ghost start = msgs(errors@);
    match schema.bool_schema {
        Some(false) => {
            let m = cat(path, ": value is not allowed by false schema");
            push_msg(errors, &m);
            assert(msgs(errors@) =~= start + errors_at(*schema, *value, path@));
            return;
        },
        Some(true) => {
            assert(msgs(errors@) =~= start + errors_at(*schema, *value, path@));
            return;
        },
        None => {},
    }
    if let JsonValue::Null = value {
        if schema.nullable || matches!(schema.node_type, SchemaNodeType::Null) || matches!(
            schema.node_type,
            SchemaNodeType::Unknown
        ) {
            assert(msgs(errors@) =~= start + errors_at(*schema, *value, path@));
            return;
        }
        let mut m = cat(path, ": expected ");
        append_str(&mut m, type_label_of(schema.node_type));
        append_str(&mut m, " but got null");
        push_msg(errors, &m);
        assert(msgs(errors@) =~= start + errors_at(*schema, *value, path@));
        return;
    }
    if schema.enum_values.len() > 0 && !json_contains(&schema.enum_values, value) {
        let mut m = cat(path, ": value ");
        append(&mut m, &compact_json_of(value));
        append_str(&mut m, " is not in the declared enum");
        push_msg(errors, &m);
        assert(msgs(errors@) =~= start + errors_at(*schema, *value, path@));
        return;
    }
    check_types(schema, value, path, errors);
    check_conditional(schema, value, path, errors);
    assert(msgs(errors@) =~= start + errors_at(*schema, *value, path@));
}

fn check_types(schema: &SchemaNode, value: &JsonValue, path: &Vec<char>, errors: &mut Vec<String>)
    ensures
        msgs(final(errors)@) == msgs(old(errors)@) + type_errors(*schema, *value, path@),
    decreases *schema, 8int,
{
    let ghost start = msgs(errors@);
    match schema.node_type {
        SchemaNodeType::Object => match value {
            JsonValue::Object(m) => check_object(schema, value, m, path, errors),
            _ => push_mismatch(errors, path, "object", value),
        },
        SchemaNodeType::Array => match value {
            JsonValue::Array(items) => check_array(schema, items, path, errors),
            _ => push_mismatch(errors, path, "array", value),
        },
        SchemaNodeType::String => match value {
            JsonValue::String(t) => check_string(schema, t, path, errors),
            _ => push_mismatch(errors, path, "string", value),
        },
        SchemaNodeType::Integer => match value {
            JsonValue::Number(n) => {
                if number_is_whole_of(n) {
                    check_number(schema, n, path, errors);
                } else {
                    push_mismatch(errors, path, "integer", value);
                }
            },
            _ => push_mismatch(errors, path, "integer", value),
        },
        SchemaNodeType::Number => match value {
            JsonValue::Number(n) => check_number(schema, n, path, errors),
            _ => push_mismatch(errors, path, "number", value),
        },
        SchemaNodeType::Boolean => match value {
            JsonValue::Bool(_) => {
                assert(msgs(errors@) =~= start + type_errors(*schema, *value, path@));
            },
            _ => push_mismatch(errors, path, "boolean", value),
        },
        SchemaNodeType::Null => push_mismatch(errors, path, "null", value),
        SchemaNodeType::Unknown => {
            assert(msgs(errors@) =~= start + type_errors(*schema, *value, path@));
        },
    }
}

fn check_conditional(schema: &SchemaNode, value: &JsonValue, path: &Vec<char>, errors: &mut Vec<String>)
    ensures
        msgs(final(errors)@) == msgs(old(errors)@) + conditional_errors(*schema, *value, path@),
    decreases *schema, 8int,
{
    let ghost start = msgs(errors@);
    match &schema.if_schema {
        None => {
            assert(msgs(errors@) =~= start + conditional_errors(*schema, *value, path@));
        },
        Some(i) => {
            let mut if_errors: Vec<String> = Vec::new();
            assert(msgs(if_errors@) =~= Seq::<Seq<char>>::empty());
            validate_at(i, value, path, &mut if_errors);
            assert(msgs(if_errors@).len() == if_errors@.len());
            if if_errors.len() == 0 {
                match &schema.then_schema {
                    Some(t) => {
                        let p = cat(path, " then schema");
                        validate_at(t, value, &p, errors);
                    },
                    None => {},
                }
            } else {
                match &schema.else_schema {
                    Some(e) => {
                        let p = cat(path, " else schema");
                        validate_at(e, value, &p, errors);
                    },
                    None => {},
                }
            }
            assert(msgs(errors@) =~= start + conditional_errors(*schema, *value, path@));
        },
    }
}

fn check_prop_count(schema: &SchemaNode, n: usize, path: &Vec<char>, errors: &mut Vec<String>)
    ensures
        msgs(final(errors)@) == msgs(old(errors)@) + prop_count_errors(*schema, n as nat, path@),
{
    let ghost start = msgs(errors@);
    proof {
        reveal_strlit("y");
        reveal_strlit("ies");
    }
    if let Some(mn) = schema.min_properties {
        let mut t = cat(path, ": expected at least ");
        append(&mut t, &usize_text(mn));
        append_str(&mut t, " propert");
        append_str(&mut t, if mn == 1 { "y" } else { "ies" });
        append_str(&mut t, " but got ");
        append(&mut t, &usize_text(n));
        push_when(errors, n < mn, &t);
    }
    let ghost g1 = msgs(errors@);
    if let Some(mx) = schema.max_properties {
        let mut t = cat(path, ": expected at most ");
        append(&mut t, &usize_text(mx));
        append_str(&mut t, " propert");
        append_str(&mut t, if mx == 1 { "y" } else { "ies" });
        append_str(&mut t, " but got ");
        append(&mut t, &usize_text(n));
        push_when(errors, n > mx, &t);
    }
    proof {
        let e0 = match schema.min_properties {
            Some(mn) => msg_when(
                n < mn,
                path@ + ": expected at least "@ + decimal(mn as nat) + " propert"@ + plural_y(mn as nat)
                    + " but got "@ + decimal(n as nat),
            ),
            None => Seq::<Seq<char>>::empty(),
        };
        assert(g1 =~= start + e0);
    }
    assert(msgs(errors@) =~= start + prop_count_errors(*schema, n as nat, path@));
}

fn check_declared(schema: &SchemaNode, m: &Vec<(String, JsonValue)>, path: &Vec<char>, errors: &mut Vec<String>)
    ensures
        msgs(final(errors)@) == msgs(old(errors)@) + props_errors(schema.properties@, m@, path@),
    decreases *schema, 6int,
{
    let ghost start = msgs(errors@);
    proof {
        assert(decreases_to!(*schema => schema.properties));
        assert(decreases_to!(schema.properties => schema.properties@));
    }
    let ps = &schema.properties;
    let mut i: usize = 0;
    assert(ps@.subrange(0, 0) =~= Seq::<(String, SchemaNode)>::empty());
    assert(msgs(errors@) =~= start + props_errors(ps@.subrange(0, 0), m@, path@));
    while i < ps.len()
        invariant
            i <= ps@.len(),
            ps == &schema.properties,
            msgs(errors@) == start + props_errors(ps@.subrange(0, i as int), m@, path@),
        decreases ps.len() - i,
    {
        proof {
            assert(decreases_to!(ps@ => ps@[i as int]));
            assert(decreases_to!(ps@[i as int] => ps@[i as int].1));
            assert(ps@.subrange(0, i + 1).drop_last() =~= ps@.subrange(0, i as int));
        }
        let name = chars_of(ps[i].0.as_str());
        let cpath = member_path_of(path, &name);
        proof {
            crate::json::lemma_entry_index(m@, name@);
        }
        match find_entry(m, &name) {
            Some(j) => validate_at(&ps[i].1, &m[j].1, &cpath, errors),
            None => {
                let t = cat(&cpath, ": required property missing");
                push_when(errors, ps[i].1.required, &t);
            },
        }
        assert(msgs(errors@) =~= start + props_errors(ps@.subrange(0, i + 1), m@, path@));
        i += 1;
    }
    assert(ps@.subrange(0, ps@.len() as int) =~= ps@);
}

fn check_dep_required(schema: &SchemaNode, m: &Vec<(String, JsonValue)>, path: &Vec<char>, errors: &mut Vec<String>)
    ensures
        msgs(final(errors)@) == msgs(old(errors)@) + dep_required_errors(schema.dependent_required@, m@, path@),
{
    let ghost start = msgs(errors@);
    let drs = &schema.dependent_required;
    let mut i: usize = 0;
    assert(drs@.subrange(0, 0) =~= Seq::<(String, Vec<String>)>::empty());
    assert(msgs(errors@) =~= start + dep_required_errors(drs@.subrange(0, 0), m@, path@));
    while i < drs.len()
        invariant
            i <= drs@.len(),
            msgs(errors@) == start + dep_required_errors(drs@.subrange(0, i as int), m@, path@),
        decreases drs.len() - i,
    {
        proof {
            assert(drs@.subrange(0, i + 1).drop_last() =~= drs@.subrange(0, i as int));
        }
        let name = chars_of(drs[i].0.as_str());
        let ghost mid = msgs(errors@);
        if find_entry(m, &name).is_some() {
            let deps = &drs[i].1;
            let mut k: usize = 0;
            assert(deps@.subrange(0, 0) =~= Seq::<String>::empty());
            assert(msgs(errors@) =~= mid + missing_dependents(deps@.subrange(0, 0), m@, path@, name@));
            while k < deps.len()
                invariant
                    k <= deps@.len(),
                    msgs(errors@) == mid + missing_dependents(deps@.subrange(0, k as int), m@, path@, name@),
                decreases deps.len() - k,
            {
                proof {
                    assert(deps@.subrange(0, k + 1).drop_last() =~= deps@.subrange(0, k as int));
                }
                let dep = chars_of(deps[k].as_str());
                let mut t = member_path_of(path, &dep);
                append_str(&mut t, ": required because ");
                append(&mut t, &member_path_of(path, &name));
                append_str(&mut t, " is present");
                push_when(errors, find_entry(m, &dep).is_none(), &t);
                assert(msgs(errors@) =~= mid + missing_dependents(deps@.subrange(0, k + 1), m@, path@, name@));
                k += 1;
            }
            assert(deps@.subrange(0, deps@.len() as int) =~= deps@);
        }
        assert(msgs(errors@) =~= start + dep_required_errors(drs@.subrange(0, i + 1), m@, path@));
        i += 1;
    }
    assert(drs@.subrange(0, drs@.len() as int) =~= drs@);
}

fn check_dep_schemas(
    schema: &SchemaNode,
    value: &JsonValue,
    m: &Vec<(String, JsonValue)>,
    path: &Vec<char>,
    errors: &mut Vec<String>,
)
    ensures
        msgs(final(errors)@) == msgs(old(errors)@) + dep_schema_errors(schema.dependent_schemas@, *value, m@, path@),
    decreases *schema, 6int,
{
    let ghost start = msgs(errors@);
    proof {
        assert(decreases_to!(*schema => schema.dependent_schemas));
        assert(decreases_to!(schema.dependent_schemas => schema.dependent_schemas@));
    }
    let ds = &schema.dependent_schemas;
    let mut i: usize = 0;
    assert(ds@.subrange(0, 0) =~= Seq::<(String, SchemaNode)>::empty());
    assert(msgs(errors@) =~= start + dep_schema_errors(ds@.subrange(0, 0), *value, m@, path@));
    while i < ds.len()
        invariant
            i <= ds@.len(),
            ds == &schema.dependent_schemas,
            msgs(errors@) == start + dep_schema_errors(ds@.subrange(0, i as int), *value, m@, path@),
        decreases ds.len() - i,
    {
        proof {
            assert(decreases_to!(ds@ => ds@[i as int]));
            assert(decreases_to!(ds@[i as int] => ds@[i as int].1));
            assert(ds@.subrange(0, i + 1).drop_last() =~= ds@.subrange(0, i as int));
        }
        let name = chars_of(ds[i].0.as_str());
        if find_entry(m, &name).is_some() {
            let mut p = cat(path, " dependent schema for ");
            append(&mut p, &name);
            validate_at(&ds[i].1, value, &p, errors);
        }
        assert(msgs(errors@) =~= start + dep_schema_errors(ds@.subrange(0, i + 1), *value, m@, path@));
        i += 1;
    }
    assert(ds@.subrange(0, ds@.len() as int) =~= ds@);
}

fn check_extras(schema: &SchemaNode, m: &Vec<(String, JsonValue)>, path: &Vec<char>, errors: &mut Vec<String>)
    ensures
        msgs(final(errors)@) == msgs(old(errors)@) + extra_errors(*schema, m@, path@, m@.len() as int),
    decreases *schema, 6int,
{
    let ghost start = msgs(errors@);
    let mut k: usize = 0;
    assert(msgs(errors@) =~= start + extra_errors(*schema, m@, path@, 0));
    while k < m.len()
        invariant
            k <= m@.len(),
            msgs(errors@) == start + extra_errors(*schema, m@, path@, k as int),
        decreases m.len() - k,
    {
        let name = chars_of(m[k].0.as_str());
        let cpath = member_path_of(path, &name);
        if find_key(&schema.properties, &name).is_none() {
            match &schema.additional_properties {
                Some(a) => {
                    proof {
                        assert(decreases_to!(*schema => schema.additional_properties));
                    }
                    validate_at(a, &m[k].1, &cpath, errors);
                },
                None => {
                    if !schema.allow_additional_properties {
                        let t = cat(&cpath, ": additional property not allowed");
                        push_msg(errors, &t);
                    } else {
                        let t = cat(&cpath, ": unevaluated property not allowed");
                        push_when(errors, !schema.allow_unevaluated_properties, &t);
                    }
                },
            }
        }
        assert(msgs(errors@) =~= start + extra_errors(*schema, m@, path@, k + 1));
        k += 1;
    }
}

fn check_object(
    schema: &SchemaNode,
    value: &JsonValue,
    m: &Vec<(String, JsonValue)>,
    path: &Vec<char>,
    errors: &mut Vec<String>,
)
    ensures
        msgs(final(errors)@) == msgs(old(errors)@) + object_errors(*schema, *value, m@, path@),
    decreases *schema, 7int,
{
    let ghost start = msgs(errors@);
    check_prop_count(schema, m.len(), path, errors);
    check_declared(schema, m, path, errors);
    check_dep_required(schema, m, path, errors);
    check_dep_schemas(schema, value, m, path, errors);
    check_extras(schema, m, path, errors);
    assert(msgs(errors@) =~= start + object_errors(*schema, *value, m@, path@));
}

fn check_unique(items: &Vec<JsonValue>, path: &Vec<char>, errors: &mut Vec<String>)
    ensures
        msgs(final(errors)@) == msgs(old(errors)@) + unique_errors(items@, path@, items@.len() as int),
{
    let ghost start = msgs(errors@);
    let n = items.len();
    let mut idx: usize = 0;
    assert(msgs(errors@) =~= start + unique_errors(items@, path@, 0));
    while idx < n
        invariant
            idx <= n,
            n == items@.len(),
            msgs(errors@) == start + unique_errors(items@, path@, idx as int),
        decreases n - idx,
    {
        let mut j: usize = 0;
        let mut dup = false;
        while j < idx
            invariant
                j <= idx < n,
                n == items@.len(),
                dup == exists|q: int| 0 <= q < j && view_json(#[trigger] items@[q]) == view_json(items@[idx as int]),
            decreases idx - j,
        {
            if json_eq(&items[j], &items[idx]) {
                dup = true;
            }
            j += 1;
        }
        let mut t = index_path_of(path, idx);
        append_str(&mut t, ": array item duplicates an earlier value");
        push_when(errors, dup, &t);
        assert(msgs(errors@) =~= start + unique_errors(items@, path@, idx + 1));
        idx += 1;
    }
}

fn check_contains(schema: &SchemaNode, items: &Vec<JsonValue>, path: &Vec<char>, errors: &mut Vec<String>)
    ensures
        msgs(final(errors)@) == msgs(old(errors)@) + contains_errors(*schema, items@, path@),
    decreases *schema, 6int,
{
    let ghost start = msgs(errors@);
    let n = items.len();
    match &schema.contains {
        Some(c) => {
            proof {
                assert(decreases_to!(*schema => schema.contains));
            }
            let mut count: usize = 0;
            let mut k: usize = 0;
            while k < n
                invariant
                    k <= n,
                    n == items@.len(),
                    schema.contains == Some(*c),
                    count == contains_count(*schema, items@, path@, k as int),
                    count <= k,
                decreases n - k,
            {
                let mut tmp: Vec<String> = Vec::new();
                assert(msgs(tmp@) =~= Seq::<Seq<char>>::empty());
                validate_at(c, &items[k], path, &mut tmp);
                assert(msgs(tmp@).len() == tmp@.len());
                if tmp.len() == 0 {
                    count += 1;
                }
                k += 1;
            }
            let mn: usize = match schema.min_contains {
                Some(x) => x,
                None => 1,
            };
            let mut t = cat(path, ": expected at least ");
            append(&mut t, &usize_text(mn));
            append_str(&mut t, " item(s) matching contains schema but got ");
            append(&mut t, &usize_text(count));
            push_when(errors, count < mn, &t);
            if let Some(mx) = schema.max_contains {
                let mut t = cat(path, ": expected at most ");
                append(&mut t, &usize_text(mx));
                append_str(&mut t, " item(s) matching contains schema but got ");
                append(&mut t, &usize_text(count));
                push_when(errors, count > mx, &t);
            }
            assert(msgs(errors@) =~= start + contains_errors(*schema, items@, path@));
        },
        None => {
            assert(msgs(errors@) =~= start + contains_errors(*schema, items@, path@));
        },
    }
}

fn check_prefix(schema: &SchemaNode, items: &Vec<JsonValue>, path: &Vec<char>, errors: &mut Vec<String>)
    ensures
        msgs(final(errors)@) == msgs(old(errors)@) + prefix_errors(
            *schema,
            items@,
            path@,
            schema.prefix_items@.len() as int,
        ),
    decreases *schema, 6int,
{
    let ghost start = msgs(errors@);
    let n = items.len();
    let prefix_len = schema.prefix_items.len();
    proof {
        assert(decreases_to!(*schema => schema.prefix_items));
        assert(decreases_to!(schema.prefix_items => schema.prefix_items@));
    }
    let mut idx: usize = 0;
    assert(msgs(errors@) =~= start + prefix_errors(*schema, items@, path@, 0));
    while idx < prefix_len
        invariant
            idx <= prefix_len,
            prefix_len == schema.prefix_items@.len(),
            n == items@.len(),
            msgs(errors@) == start + prefix_errors(*schema, items@, path@, idx as int),
        decreases prefix_len - idx,
    {
        if idx < n {
            proof {
                assert(decreases_to!(schema.prefix_items@ => schema.prefix_items@[idx as int]));
            }
            let p = index_path_of(path, idx);
            validate_at(&schema.prefix_items[idx], &items[idx], &p, errors);
        }
        assert(msgs(errors@) =~= start + prefix_errors(*schema, items@, path@, idx + 1));
        idx += 1;
    }
}

fn check_rest(schema: &SchemaNode, items: &Vec<JsonValue>, path: &Vec<char>, errors: &mut Vec<String>)
    ensures
        msgs(final(errors)@) == msgs(old(errors)@) + rest_errors(*schema, items@, path@),
    decreases *schema, 6int,
{
    let ghost start = msgs(errors@);
    let n = items.len();
    let prefix_len = schema.prefix_items.len();
    match &schema.items {
        Some(it) => {
            proof {
                assert(decreases_to!(*schema => schema.items));
            }
            if prefix_len >= n {
                assert(msgs(errors@) =~= start + rest_errors(*schema, items@, path@));
                return;
            }
            let mut idx: usize = prefix_len;
            assert(msgs(errors@) =~= start + item_errors(*schema, items@, path@, idx as int));
            while idx < n
                invariant
                    prefix_len <= idx <= n,
                    prefix_len == schema.prefix_items@.len(),
                    n == items@.len(),
                    schema.items == Some(*it),
                    msgs(errors@) == start + item_errors(*schema, items@, path@, idx as int),
                decreases n - idx,
            {
                let p = index_path_of(path, idx);
                validate_at(it, &items[idx], &p, errors);
                assert(msgs(errors@) =~= start + item_errors(*schema, items@, path@, idx + 1));
                idx += 1;
            }
        },
        None => {
            if !schema.allow_unevaluated_items && n > prefix_len {
                let mut idx: usize = prefix_len;
                assert(msgs(errors@) =~= start + unevaluated_errors(path@, prefix_len as int, idx as int));
                while idx < n
                    invariant
                        prefix_len <= idx <= n,
                        msgs(errors@) == start + unevaluated_errors(path@, prefix_len as int, idx as int),
                    decreases n - idx,
                {
                    let mut t = index_path_of(path, idx);
                    append_str(&mut t, ": unevaluated item not allowed");
                    push_msg(errors, &t);
                    assert(msgs(errors@) =~= start + unevaluated_errors(path@, prefix_len as int, idx + 1));
                    idx += 1;
                }
            } else {
                assert(msgs(errors@) =~= start + Seq::<Seq<char>>::empty());
            }
        },
    }
}

fn check_item_count(schema: &SchemaNode, n: usize, path: &Vec<char>, errors: &mut Vec<String>)
    ensures
        msgs(final(errors)@) == msgs(old(errors)@) + item_count_errors(*schema, n as nat, path@),
{
    let ghost start = msgs(errors@);
    if let Some(mn) = schema.min_items {
        let mut t = cat(path, ": expected at least ");
        append(&mut t, &usize_text(mn));
        append_str(&mut t, " item(s) but got ");
        append(&mut t, &usize_text(n));
        push_when(errors, n < mn, &t);
    }
    let ghost g1 = msgs(errors@);
    if let Some(mx) = schema.max_items {
        let mut t = cat(path, ": expected at most ");
        append(&mut t, &usize_text(mx));
        append_str(&mut t, " item(s) but got ");
        append(&mut t, &usize_text(n));
        push_when(errors, n > mx, &t);
    }
    proof {
        let e0 = match schema.min_items {
            Some(mn) => msg_when(
                n < mn,
                path@ + ": expected at least "@ + decimal(mn as nat) + " item(s) but got "@ + decimal(n as nat),
            ),
            None => Seq::<Seq<char>>::empty(),
        };
        assert(g1 =~= start + e0);
    }
    assert(msgs(errors@) =~= start + item_count_errors(*schema, n as nat, path@));
}

fn check_array(schema: &SchemaNode, items: &Vec<JsonValue>, path: &Vec<char>, errors: &mut Vec<String>)
    ensures
        msgs(final(errors)@) == msgs(old(errors)@) + array_errors(*schema, items@, path@),
    decreases *schema, 7int,
{
    let ghost start = msgs(errors@);
    let n = items.len();
    check_item_count(schema, n, path, errors);
    let ghost g2 = msgs(errors@);
    if schema.unique_items {
        check_unique(items, path, errors);
    }
    let ghost g3 = msgs(errors@);
    check_contains(schema, items, path, errors);
    let ghost g4 = msgs(errors@);
    check_prefix(schema, items, path, errors);
    let ghost g5 = msgs(errors@);
    check_rest(schema, items, path, errors);
    proof {
        let e3 = if schema.unique_items {
            unique_errors(items@, path@, n as int)
        } else {
            Seq::<Seq<char>>::empty()
        };
        assert(g3 =~= g2 + e3);
    }
    assert(msgs(errors@) =~= start + array_errors(*schema, items@, path@));
}

} // verus!
