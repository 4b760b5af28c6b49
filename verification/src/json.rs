//! The library's own JSON value. Objects keep their entries in the order
//! they were given (key-sorted when they come from a parsed document); a
//! floating-point number is carried as the shortest decimal text that reads
//! back to it, so the library never computes with floats.
use vstd::prelude::*;
use crate::text::{all_digits, chars_eq, decimal, digits_value, find_char_of, is_ascii_digit, slice};

verus! {

#[derive(Debug, Clone, PartialEq)]
pub enum JsonNumber {
    PosInt(u64),
    NegInt(i64),
    Float(String),
}

#[derive(Debug)]
pub enum JsonValue {
    Null,
    Bool(bool),
    Number(JsonNumber),
    String(String),
    Array(Vec<JsonValue>),
    Object(Vec<(String, JsonValue)>),
}

/// Mathematical form of a JSON number.
pub enum NumberSpec {
    PosInt(u64),
    NegInt(i64),
    Float(Seq<char>),
}

/// Mathematical form of a JSON value.
pub enum JsonSpec {
    Null,
    Bool(bool),
    Number(NumberSpec),
    String(Seq<char>),
    Array(Seq<JsonSpec>),
    Object(Seq<(Seq<char>, JsonSpec)>),
}

pub open spec fn view_number(n: JsonNumber) -> NumberSpec {
    match n {
        JsonNumber::PosInt(u) => NumberSpec::PosInt(u),
        JsonNumber::NegInt(i) => NumberSpec::NegInt(i),
        JsonNumber::Float(t) => NumberSpec::Float(t@),
    }
}

pub open spec fn view_json(v: JsonValue) -> JsonSpec
    decreases v, 1int,
{
    match v {
        JsonValue::Null => JsonSpec::Null,
        JsonValue::Bool(b) => JsonSpec::Bool(b),
        JsonValue::Number(n) => JsonSpec::Number(view_number(n)),
        JsonValue::String(s) => JsonSpec::String(s@),
        JsonValue::Array(items) => JsonSpec::Array(view_items(items@)),
        JsonValue::Object(m) => JsonSpec::Object(view_entries(m@)),
    }
}

pub open spec fn view_items(s: Seq<JsonValue>) -> Seq<JsonSpec>
    decreases s, 0int,
{
    if s.len() == 0 {
        Seq::empty()
    } else {
        seq![view_json(s[0])] + view_items(s.subrange(1, s.len() as int))
    }
}

pub open spec fn view_entries(s: Seq<(String, JsonValue)>) -> Seq<(Seq<char>, JsonSpec)>
    decreases s, 0int,
{
    if s.len() == 0 {
        Seq::empty()
    } else {
        seq![(s[0].0@, view_json(s[0].1))] + view_entries(s.subrange(1, s.len() as int))
    }
}

impl View for JsonValue {
    type V = JsonSpec;

    open spec fn view(&self) -> JsonSpec {
        view_json(*self)
    }
}

pub proof fn lemma_view_items(s: Seq<JsonValue>)
    ensures
        view_items(s).len() == s.len(),
        forall|i: int| 0 <= i < s.len() ==> #[trigger] view_items(s)[i] == view_json(s[i]),
    decreases s.len(),
{
    if s.len() > 0 {
        let t = s.subrange(1, s.len() as int);
        lemma_view_items(t);
        assert forall|i: int| 0 <= i < s.len() implies #[trigger] view_items(s)[i] == view_json(
            s[i],
        ) by {
            if i > 0 {
                assert(view_items(s)[i] == view_items(t)[i - 1]);
                assert(t[i - 1] == s[i]);
            }
        }
    }
}

pub proof fn lemma_view_entries(s: Seq<(String, JsonValue)>)
    ensures
        view_entries(s).len() == s.len(),
        forall|i: int|
            0 <= i < s.len() ==> #[trigger] view_entries(s)[i] == (s[i].0@, view_json(s[i].1)),
    decreases s.len(),
{
    if s.len() > 0 {
        let t = s.subrange(1, s.len() as int);
        lemma_view_entries(t);
        assert forall|i: int| 0 <= i < s.len() implies #[trigger] view_entries(s)[i] == (
            s[i].0@,
            view_json(s[i].1),
        ) by {
            if i > 0 {
                assert(view_entries(s)[i] == view_entries(t)[i - 1]);
                assert(t[i - 1] == s[i]);
            }
        }
    }
}

/// The spec view of a sequence built from views, element by element.
pub proof fn lemma_view_items_eq(a: Seq<JsonValue>, b: Seq<JsonValue>)
    requires
        a.len() == b.len(),
        forall|i: int| 0 <= i < a.len() ==> view_json(#[trigger] a[i]) == view_json(b[i]),
    ensures
        view_items(a) == view_items(b),
{
    lemma_view_items(a);
    lemma_view_items(b);
    assert(view_items(a) =~= view_items(b));
}

pub proof fn lemma_view_entries_eq(a: Seq<(String, JsonValue)>, b: Seq<(String, JsonValue)>)
    requires
        a.len() == b.len(),
        forall|i: int|
            0 <= i < a.len() ==> (#[trigger] a[i]).0@ == b[i].0@ && view_json(a[i].1)
                == view_json(b[i].1),
    ensures
        view_entries(a) == view_entries(b),
{
    lemma_view_entries(a);
    lemma_view_entries(b);
    assert(view_entries(a) =~= view_entries(b));
}

pub fn number_eq(a: &JsonNumber, b: &JsonNumber) -> (r: bool)
    ensures
        r == (view_number(*a) == view_number(*b)),
{
    match (a, b) {
        (JsonNumber::PosInt(x), JsonNumber::PosInt(y)) => *x == *y,
        (JsonNumber::NegInt(x), JsonNumber::NegInt(y)) => *x == *y,
        (JsonNumber::Float(x), JsonNumber::Float(y)) => {
            let xs = crate::text::chars_of(x.as_str());
            let ys = crate::text::chars_of(y.as_str());
            chars_eq(&xs, &ys)
        },
        _ => false,
    }
}

/// Structural equality of two JSON values (as `serde_json::Value` compares).
pub fn json_eq(a: &JsonValue, b: &JsonValue) -> (r: bool)
    ensures
        r == (view_json(*a) == view_json(*b)),
    decreases a,
{
    match (a, b) {
        (JsonValue::Null, JsonValue::Null) => true,
        (JsonValue::Bool(x), JsonValue::Bool(y)) => *x == *y,
        (JsonValue::Number(x), JsonValue::Number(y)) => number_eq(x, y),
        (JsonValue::String(x), JsonValue::String(y)) => {
            let xs = crate::text::chars_of(x.as_str());
            let ys = crate::text::chars_of(y.as_str());
            chars_eq(&xs, &ys)
        },
        (JsonValue::Array(xs), JsonValue::Array(ys)) => {
            proof {
                lemma_view_items(xs@);
                lemma_view_items(ys@);
            }
            if xs.len() != ys.len() {
                return false;
            }
            let mut i: usize = 0;
            while i < xs.len()
                invariant
                    i <= xs.len(),
                    xs.len() == ys.len(),
                    *a == JsonValue::Array(*xs),
                    *b == JsonValue::Array(*ys),
                    view_items(xs@).len() == xs@.len(),
                    view_items(ys@).len() == ys@.len(),
                    forall|k: int| 0 <= k < xs@.len() ==> #[trigger] view_items(xs@)[k] == view_json(xs@[k]),
                    forall|k: int| 0 <= k < ys@.len() ==> #[trigger] view_items(ys@)[k] == view_json(ys@[k]),
                    forall|j: int| 0 <= j < i ==> view_json(#[trigger] xs@[j]) == view_json(ys@[j]),
                decreases xs.len() - i,
            {
                proof {
                    assert(decreases_to!(*a => a->Array_0));
                    assert(decreases_to!(a->Array_0 => xs@));
                    assert(decreases_to!(xs@ => xs@[i as int]));
                }
                if !json_eq(&xs[i], &ys[i]) {
                    assert(view_items(xs@)[i as int] != view_items(ys@)[i as int]);
                    return false;
                }
                i += 1;
            }
            proof {
                lemma_view_items_eq(xs@, ys@);
            }
            true
        },
        (JsonValue::Object(xs), JsonValue::Object(ys)) => {
            proof {
                lemma_view_entries(xs@);
                lemma_view_entries(ys@);
            }
            if xs.len() != ys.len() {
                return false;
            }
            let mut i: usize = 0;
            while i < xs.len()
                invariant
                    i <= xs.len(),
                    xs.len() == ys.len(),
                    *a == JsonValue::Object(*xs),
                    *b == JsonValue::Object(*ys),
                    view_entries(xs@).len() == xs@.len(),
                    view_entries(ys@).len() == ys@.len(),
                    forall|k: int| 0 <= k < xs@.len() ==> #[trigger] view_entries(xs@)[k] == (xs@[k].0@, view_json(xs@[k].1)),
                    forall|k: int| 0 <= k < ys@.len() ==> #[trigger] view_entries(ys@)[k] == (ys@[k].0@, view_json(ys@[k].1)),
                    forall|j: int|
                        0 <= j < i ==> (#[trigger] xs@[j]).0@ == ys@[j].0@ && view_json(xs@[j].1)
                            == view_json(ys@[j].1),
                decreases xs.len() - i,
            {
                let kx = crate::text::chars_of(xs[i].0.as_str());
                let ky = crate::text::chars_of(ys[i].0.as_str());
                if !chars_eq(&kx, &ky) {
                    assert(view_entries(xs@)[i as int] != view_entries(ys@)[i as int]);
                    return false;
                }
                proof {
                    assert(decreases_to!(*a => a->Object_0));
                    assert(decreases_to!(a->Object_0 => xs@));
                    assert(decreases_to!(xs@ => xs@[i as int]));
                    assert(decreases_to!(xs@[i as int] => xs@[i as int].1));
                }
                if !json_eq(&xs[i].1, &ys[i].1) {
                    assert(view_entries(xs@)[i as int] != view_entries(ys@)[i as int]);
                    return false;
                }
                i += 1;
            }
            proof {
                lemma_view_entries_eq(xs@, ys@);
            }
            true
        },
        _ => false,
    }
}

/// A copy of a number.
pub fn number_clone(n: &JsonNumber) -> (r: JsonNumber)
    ensures
        view_number(r) == view_number(*n),
{
    match n {
        JsonNumber::PosInt(u) => JsonNumber::PosInt(*u),
        JsonNumber::NegInt(i) => JsonNumber::NegInt(*i),
        JsonNumber::Float(t) => JsonNumber::Float(t.clone()),
    }
}

/// A deep copy of `v`.
pub fn json_clone(v: &JsonValue) -> (r: JsonValue)
    ensures
        view_json(r) == view_json(*v),
    decreases v,
{
    match v {
        JsonValue::Null => JsonValue::Null,
        JsonValue::Bool(b) => JsonValue::Bool(*b),
        JsonValue::Number(n) => JsonValue::Number(number_clone(n)),
        JsonValue::String(s) => JsonValue::String(s.clone()),
        JsonValue::Array(xs) => {
            let mut out: Vec<JsonValue> = Vec::new();
            let mut i: usize = 0;
            while i < xs.len()
                invariant
                    i <= xs.len(),
                    *v == JsonValue::Array(*xs),
                    out@.len() == i,
                    forall|j: int| 0 <= j < i ==> view_json(#[trigger] out@[j]) == view_json(xs@[j]),
                decreases xs.len() - i,
            {
                proof {
                    assert(decreases_to!(*v => v->Array_0));
                    assert(decreases_to!(v->Array_0 => xs@));
                    assert(decreases_to!(xs@ => xs@[i as int]));
                }
                out.push(json_clone(&xs[i]));
                i += 1;
            }
            proof {
                lemma_view_items_eq(out@, xs@);
            }
            JsonValue::Array(out)
        },
        JsonValue::Object(xs) => {
            let mut out: Vec<(String, JsonValue)> = Vec::new();
            let mut i: usize = 0;
            while i < xs.len()
                invariant
                    i <= xs.len(),
                    *v == JsonValue::Object(*xs),
                    out@.len() == i,
                    forall|j: int|
                        0 <= j < i ==> (#[trigger] out@[j]).0@ == xs@[j].0@ && view_json(out@[j].1)
                            == view_json(xs@[j].1),
                decreases xs.len() - i,
            {
                proof {
                    assert(decreases_to!(*v => v->Object_0));
                    assert(decreases_to!(v->Object_0 => xs@));
                    assert(decreases_to!(xs@ => xs@[i as int]));
                    assert(decreases_to!(xs@[i as int] => xs@[i as int].1));
                }
                let value = json_clone(&xs[i].1);
                out.push((xs[i].0.clone(), value));
                i += 1;
            }
            proof {
                lemma_view_entries_eq(out@, xs@);
            }
            JsonValue::Object(out)
        },
    }
}

impl Clone for JsonValue {
    fn clone(&self) -> (r: Self)
        ensures
            view_json(r) == view_json(*self),
    {
        json_clone(self)
    }
}

/// Whether some element of `values` equals `v`.
pub fn json_contains(values: &Vec<JsonValue>, v: &JsonValue) -> (r: bool)
    ensures
        r == exists|i: int| 0 <= i < values@.len() && view_json(#[trigger] values@[i]) == view_json(*v),
{
    let mut i: usize = 0;
    while i < values.len()
        invariant
            i <= values.len(),
            forall|j: int| 0 <= j < i ==> view_json(#[trigger] values@[j]) != view_json(*v),
        decreases values.len() - i,
    {
        if json_eq(&values[i], v) {
            return true;
        }
        i += 1;
    }
    false
}

/// The entry of `m` for `key` (the first one when several share it).
pub open spec fn entry_index(m: Seq<(String, JsonValue)>, key: Seq<char>) -> Option<int>
    decreases m.len(),
{
    if m.len() == 0 {
        None
    } else if m[0].0@ == key {
        Some(0)
    } else {
        match entry_index(m.subrange(1, m.len() as int), key) {
            Some(i) => Some(i + 1),
            None => None,
        }
    }
}

pub proof fn lemma_entry_index(m: Seq<(String, JsonValue)>, key: Seq<char>)
    ensures
        match entry_index(m, key) {
            Some(i) => 0 <= i < m.len() && m[i].0@ == key && forall|j: int|
                0 <= j < i ==> (#[trigger] m[j]).0@ != key,
            None => forall|j: int| 0 <= j < m.len() ==> (#[trigger] m[j]).0@ != key,
        },
    decreases m.len(),
{
    if m.len() > 0 {
        let t = m.subrange(1, m.len() as int);
        lemma_entry_index(t, key);
        assert forall|j: int| 1 <= j < m.len() implies (#[trigger] m[j]).0@ == t[j - 1].0@ by {
        }
    }
}

/// Looks a key up in object entries.
pub fn find_entry(m: &Vec<(String, JsonValue)>, key: &[char]) -> (r: Option<usize>)
    ensures
        match r {
            Some(i) => entry_index(m@, key@) == Some(i as int),
            None => entry_index(m@, key@) is None,
        },
{
    proof {
        lemma_entry_index(m@, key@);
    }
    let mut i: usize = 0;
    while i < m.len()
        invariant
            i <= m.len(),
            forall|j: int| 0 <= j < i ==> (#[trigger] m@[j]).0@ != key@,
            match entry_index(m@, key@) {
                Some(k) => 0 <= k < m@.len() && m@[k].0@ == key@ && forall|j: int|
                    0 <= j < k ==> (#[trigger] m@[j]).0@ != key@,
                None => forall|j: int| 0 <= j < m@.len() ==> (#[trigger] m@[j]).0@ != key@,
            },
        decreases m.len() - i,
    {
        let k = crate::text::chars_of(m[i].0.as_str());
        if chars_eq(&k, key) {
            return Some(i);
        }
        i += 1;
    }
    None
}

/// Whether a JSON number holds a whole value: an integer, or a float whose
/// decimal text has no non-zero digit after the point once its exponent is
/// applied.
pub open spec fn number_is_whole(n: NumberSpec) -> bool {
    match n {
        NumberSpec::PosInt(_) => true,
        NumberSpec::NegInt(_) => true,
        NumberSpec::Float(t) => float_text_is_whole(t),
    }
}

/// Digits of a float text after the decimal point (up to an exponent marker).
pub open spec fn fraction_digits(t: Seq<char>) -> Seq<char> {
    let mantissa = mantissa_part(t);
    match crate::text::find_char(mantissa, '.') {
        None => Seq::empty(),
        Some(p) => mantissa.subrange(p + 1, mantissa.len() as int),
    }
}

/// The part of a float text before an `e`/`E` exponent marker.
pub open spec fn mantissa_part(t: Seq<char>) -> Seq<char> {
    match exponent_marker(t) {
        Some(p) => t.subrange(0, p),
        None => t,
    }
}

/// Index of the exponent marker of a float text: the first `e`, else the
/// first `E`.
pub open spec fn exponent_marker(t: Seq<char>) -> Option<int> {
    match crate::text::find_char(t, 'e') {
        Some(p) => Some(p),
        None => crate::text::find_char(t, 'E'),
    }
}

/// The exponent written after `e`/`E` (zero when absent or not a signed
/// run of decimal digits).
pub open spec fn exponent_part(t: Seq<char>) -> int {
    match exponent_marker(t) {
        None => 0,
        Some(p) => signed_decimal_value(t.subrange(p + 1, t.len() as int)),
    }
}

pub open spec fn signed_decimal_value(t: Seq<char>) -> int {
    let neg = t.len() > 0 && t[0] == '-';
    let ds = if t.len() > 0 && (t[0] == '-' || t[0] == '+') {
        t.subrange(1, t.len() as int)
    } else {
        t
    };
    if !all_digits(ds) {
        0
    } else if neg {
        -digits_value(ds)
    } else {
        digits_value(ds)
    }
}

/// Digits of a float text before the decimal point, without a sign.
pub open spec fn integer_digits(t: Seq<char>) -> Seq<char> {
    let m = mantissa_part(t);
    let unsigned = if m.len() > 0 && m[0] == '-' {
        m.subrange(1, m.len() as int)
    } else {
        m
    };
    match crate::text::find_char(unsigned, '.') {
        None => unsigned,
        Some(p) => unsigned.subrange(0, p),
    }
}

/// A float text denotes a whole number when every digit that the exponent
/// leaves right of the decimal point is `0`.
pub open spec fn float_text_is_whole(t: Seq<char>) -> bool {
    let d = integer_digits(t) + fraction_digits(t);
    let point = integer_digits(t).len() + exponent_part(t);
    forall|i: int| 0 <= i < d.len() && i >= point ==> d[i] == '0'
}

/// The JSON text of an unsigned integer.
pub open spec fn uint_text(n: u64) -> Seq<char> {
    decimal(n as nat)
}

pub(crate) proof fn lemma_digits_nonneg(t: Seq<char>)
    requires
        all_digits(t),
    ensures
        digits_value(t) >= 0,
    decreases t.len(),
{
    if t.len() > 0 {
        lemma_digits_nonneg(t.drop_last());
    }
}

/// Reads a run of decimal digits, capping the value at `cap + 1`; `None`
/// when some character is not a digit.
pub(crate) fn digits_capped(ds: &[char], cap: u64) -> (r: Option<u128>)
    ensures
        r is Some <==> all_digits(ds@),
        r matches Some(v) ==> (if digits_value(ds@) <= cap {
            v == digits_value(ds@)
        } else {
            v == cap + 1
        }),
{
    let mut v: u128 = 0;
    let mut i: usize = 0;
    while i < ds.len()
        invariant
            i <= ds.len(),
            all_digits(ds@.subrange(0, i as int)),
            if digits_value(ds@.subrange(0, i as int)) <= cap {
                v == digits_value(ds@.subrange(0, i as int))
            } else {
                v == cap + 1
            },
        decreases ds.len() - i,
    {
        let c = ds[i];
        let pre = Ghost(ds@.subrange(0, i as int));
        let next = Ghost(ds@.subrange(0, i + 1));
        proof {
            assert(next@.drop_last() =~= pre@);
        }
        if !('0' <= c && c <= '9') {
            assert(!is_ascii_digit(ds@[i as int]));
            return None;
        }
        proof {
            assert forall|k: int| 0 <= k < next@.len() implies is_ascii_digit(#[trigger] next@[k]) by {
                if k < i {
                    assert(next@[k] == pre@[k]);
                }
            }
            lemma_digits_nonneg(pre@);
        }
        if v <= cap as u128 {
            let w: u128 = v * 10 + (c as u32 - 48) as u128;
            if w > cap as u128 {
                v = cap as u128 + 1;
            } else {
                v = w;
            }
        }
        i += 1;
    }
    proof {
        assert(ds@.subrange(0, ds@.len() as int) =~= ds@);
    }
    Some(v)
}

/// Position of `c` in `s`, with the facts callers need about it.
fn find_char_at(s: &[char], c: char) -> (r: Option<usize>)
    ensures
        r is Some <==> crate::text::find_char(s@, c) is Some,
        r matches Some(i) ==> crate::text::find_char(s@, c) == Some(i as int) && i < s@.len() && s@[i as int] == c,
{
    let r = find_char_of(s, c);
    proof {
        crate::text::lemma_find_from(s@, seq![c], 0);
        if let Some(i) = r {
            assert(s@.subrange(i as int, i + 1)[0] == c);
        }
    }
    r
}

/// Splits a float text at its exponent marker: the mantissa, and the text
/// after the marker (empty when there is none).
pub(crate) fn split_exponent(t: &[char]) -> (r: (Vec<char>, Vec<char>))
    ensures
        r.0@ == mantissa_part(t@),
        match exponent_marker(t@) {
            None => r.1@.len() == 0 && exponent_part(t@) == 0,
            Some(p) => r.1@ == t@.subrange(p + 1, t@.len() as int) && exponent_part(t@)
                == signed_decimal_value(r.1@),
        },
{
    let marker = match find_char_at(t, 'e') {
        Some(p) => Some(p),
        None => find_char_at(t, 'E'),
    };
    match marker {
        Some(p) => {
            assert(p < t.len());
            (slice(t, 0, p), slice(t, p + 1, t.len()))
        },
        None => {
            let m = slice(t, 0, t.len());
            assert(m@ =~= t@);
            (m, Vec::new())
        },
    }
}

/// The integer and fraction digits of a mantissa.
pub(crate) fn digit_parts(m: &[char]) -> (r: (Vec<char>, Vec<char>))
    ensures
        forall|t: Seq<char>| mantissa_part(t) == m@ ==> r.0@ == integer_digits(t) && r.1@ == fraction_digits(t),
{
    let unsigned = if m.len() > 0 && m[0] == '-' {
        slice(m, 1, m.len())
    } else {
        slice(m, 0, m.len())
    };
    proof {
        if !(m@.len() > 0 && m@[0] == '-') {
            assert(unsigned@ =~= m@);
        }
    }
    let int_part = match find_char_at(&unsigned, '.') {
        None => {
            let u = slice(&unsigned, 0, unsigned.len());
            assert(u@ =~= unsigned@);
            u
        },
        Some(p) => slice(&unsigned, 0, p),
    };
    let frac_part = match find_char_at(m, '.') {
        None => Vec::new(),
        Some(p) => slice(m, p + 1, m.len()),
    };
    (int_part, frac_part)
}

/// The exponent of a float text clamped to `[-(cap + 1), cap + 1]`.
pub(crate) fn clamped_exponent(rest: &[char], cap: u64) -> (e: i128)
    ensures
        -(cap + 1) <= e <= cap + 1,
        e == signed_decimal_value(rest@) || (e == cap + 1 && signed_decimal_value(rest@) > cap) || (e
            == -(cap + 1) && signed_decimal_value(rest@) < -(cap as int)),
{
    let neg = rest.len() > 0 && rest[0] == '-';
    let ds = if rest.len() > 0 && (rest[0] == '-' || rest[0] == '+') {
        slice(rest, 1, rest.len())
    } else {
        let d = slice(rest, 0, rest.len());
        assert(d@ =~= rest@);
        d
    };
    match digits_capped(&ds, cap) {
        None => 0,
        Some(v) => {
            proof {
                lemma_digits_nonneg(ds@);
            }
            if neg {
                -(v as i128)
            } else {
                v as i128
            }
        },
    }
}

/// Whether a float text denotes a whole number (see `float_text_is_whole`).
pub fn float_text_is_whole_of(t: &[char]) -> (r: bool)
    ensures
        r == float_text_is_whole(t@),
{
    let (m, rest) = split_exponent(t);
    let (int_part, frac_part) = digit_parts(&m);
    let mut d = int_part.clone();
    append_chars(&mut d, &frac_part);
    let cap: u64 = d.len() as u64;
    let exp: i128 = clamped_exponent(&rest, cap);
    let ghost e_true = exponent_part(t@);
    proof {
        if exponent_marker(t@) is None {
            assert(signed_decimal_value(rest@) == 0) by {
                assert(rest@ =~= Seq::<char>::empty());
                assert(all_digits(Seq::<char>::empty()));
            }
        }
    }
    let point: i128 = int_part.len() as i128 + exp;
    let ghost p_true = integer_digits(t@).len() + e_true;
    let mut i: usize = 0;
    while i < d.len()
        invariant
            i <= d.len(),
            d@ == integer_digits(t@) + fraction_digits(t@),
            cap == d.len(),
            point == int_part@.len() + exp,
            int_part@ == integer_digits(t@),
            p_true == integer_digits(t@).len() + e_true,
            e_true == exponent_part(t@),
            e_true == exp || (exp == cap + 1 && e_true > cap) || (exp == -(cap + 1) && e_true < -(
            cap as int)),
            forall|k: int| 0 <= k < i && k >= point ==> d@[k] == '0',
        decreases d.len() - i,
    {
        if (i as i128) >= point && d[i] != '0' {
            proof {
                let dd = integer_digits(t@) + fraction_digits(t@);
                assert(i >= p_true);
                assert(dd[i as int] != '0');
                assert(!float_text_is_whole(t@));
            }
            return false;
        }
        i += 1;
    }
    assert forall|k: int| 0 <= k < d@.len() && k >= p_true implies d@[k] == '0' by {
        assert(k >= point);
    }
    true
}

fn append_chars(a: &mut Vec<char>, b: &Vec<char>)
    ensures
        final(a)@ == old(a)@ + b@,
{
    crate::text::append(a, b);
}

/// Whether a JSON number holds a whole value.
pub fn number_is_whole_of(n: &JsonNumber) -> (r: bool)
    ensures
        r == number_is_whole(view_number(*n)),
{
    match n {
        JsonNumber::Float(t) => {
            let chars = crate::text::chars_of(t.as_str());
            float_text_is_whole_of(&chars)
        },
        _ => true,
    }
}

} // verus!
