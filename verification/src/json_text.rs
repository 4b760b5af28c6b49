//! Compact JSON text of a value: no whitespace, entries in stored order,
//! strings escaped the way the JSON writers of the project's ecosystem do
//! (`"` and `\` with a backslash, the usual short escapes for backspace,
//! form feed, newline, carriage return and tab, other control characters
//! as `\u00xx` with lower-case hex, everything else verbatim).
use vstd::prelude::*;
use crate::json::{JsonNumber, JsonSpec, JsonValue, NumberSpec, lemma_view_entries, lemma_view_items, view_entries, view_items, view_json, view_number};
use crate::text::{append, append_str, decimal, decimal_of, hex_char_lower, hex_lower_of};

verus! {

/// Bytes taken by `c` in UTF-8.
pub open spec fn utf8_width(c: char) -> nat {
    if (c as u32) < 0x80 {
        1
    } else if (c as u32) < 0x800 {
        2
    } else if (c as u32) < 0x10000 {
        3
    } else {
        4
    }
}

/// Bytes taken by `s` in UTF-8.
pub open spec fn utf8_len(s: Seq<char>) -> nat
    decreases s.len(),
{
    if s.len() == 0 {
        0
    } else {
        utf8_len(s.drop_last()) + utf8_width(s.last())
    }
}

/// Whether `s` takes more than `limit` bytes in UTF-8.
pub fn utf8_len_exceeds(s: &[char], limit: usize) -> (r: bool)
    ensures
        r == (utf8_len(s@) > limit),
{
    let mut total: usize = 0;
    let mut i: usize = 0;
    while i < s.len()
        invariant
            i <= s.len(),
            total == utf8_len(s@.subrange(0, i as int)),
            total <= limit,
        decreases s.len() - i,
    {
        proof {
            assert(s@.subrange(0, i + 1).drop_last() =~= s@.subrange(0, i as int));
        }
        let c = s[i];
        let code = c as u32;
        let w: usize = if code < 0x80 {
            1
        } else if code < 0x800 {
            2
        } else if code < 0x10000 {
            3
        } else {
            4
        };
        if w > limit - total {
            proof {
                lemma_utf8_len_prefix(s@, i + 1);
            }
            return true;
        }
        total = total + w;
        i += 1;
    }
    proof {
        assert(s@.subrange(0, s@.len() as int) =~= s@);
    }
    false
}

/// A prefix takes no more bytes than the whole.
pub proof fn lemma_utf8_len_prefix(s: Seq<char>, n: int)
    requires
        0 <= n <= s.len(),
    ensures
        utf8_len(s.subrange(0, n)) <= utf8_len(s),
    decreases s.len(),
{
    if n < s.len() {
        assert(s.drop_last() =~= s.subrange(0, s.len() - 1));
        lemma_utf8_len_prefix(s.drop_last(), n);
        assert(s.drop_last().subrange(0, n) =~= s.subrange(0, n));
    } else {
        assert(s.subrange(0, n) =~= s);
    }
}

/// The escaped form of one character inside a JSON string.
pub open spec fn escape_char(c: char) -> Seq<char> {
    if c == '"' {
        seq!['\\', '"']
    } else if c == '\\' {
        seq!['\\', '\\']
    } else if c == '\n' {
        seq!['\\', 'n']
    } else if c == '\r' {
        seq!['\\', 'r']
    } else if c == '\t' {
        seq!['\\', 't']
    } else if c == '\u{8}' {
        seq!['\\', 'b']
    } else if c == '\u{c}' {
        seq!['\\', 'f']
    } else if (c as u32) < 0x20 {
        seq!['\\', 'u', '0', '0', hex_char_lower((c as u32 / 16) as nat), hex_char_lower((c as u32 % 16) as nat)]
    } else {
        seq![c]
    }
}

pub open spec fn escape_text(s: Seq<char>) -> Seq<char>
    decreases s.len(),
{
    if s.len() == 0 {
        Seq::empty()
    } else {
        escape_text(s.drop_last()) + escape_char(s.last())
    }
}

/// A JSON string literal holding `s`.
pub open spec fn quoted(s: Seq<char>) -> Seq<char> {
    seq!['"'] + escape_text(s) + seq!['"']
}

pub open spec fn number_text(n: NumberSpec) -> Seq<char> {
    match n {
        NumberSpec::PosInt(u) => decimal(u as nat),
        NumberSpec::NegInt(i) => if i < 0 {
            seq!['-'] + decimal((-i) as nat)
        } else {
            decimal(i as nat)
        },
        NumberSpec::Float(t) => t,
    }
}

/// The compact JSON text of a value.
pub open spec fn json_text(v: JsonSpec) -> Seq<char>
    decreases v, 1int,
{
    match v {
        JsonSpec::Null => "null"@,
        JsonSpec::Bool(b) => if b {
            "true"@
        } else {
            "false"@
        },
        JsonSpec::Number(n) => number_text(n),
        JsonSpec::String(s) => quoted(s),
        JsonSpec::Array(xs) => seq!['['] + items_text(xs) + seq![']'],
        JsonSpec::Object(es) => seq!['{'] + entries_text(es) + seq!['}'],
    }
}

/// The texts of `xs`, separated by commas.
pub open spec fn items_text(xs: Seq<JsonSpec>) -> Seq<char>
    decreases xs, 0int,
{
    if xs.len() == 0 {
        Seq::empty()
    } else if xs.len() == 1 {
        json_text(xs.last())
    } else {
        items_text(xs.drop_last()) + seq![','] + json_text(xs.last())
    }
}

/// `"key":value` for each entry, separated by commas.
pub open spec fn entries_text(es: Seq<(Seq<char>, JsonSpec)>) -> Seq<char>
    decreases es, 0int,
{
    if es.len() == 0 {
        Seq::empty()
    } else if es.len() == 1 {
        quoted(es.last().0) + seq![':'] + json_text(es.last().1)
    } else {
        entries_text(es.drop_last()) + seq![','] + quoted(es.last().0) + seq![':'] + json_text(
            es.last().1,
        )
    }
}

/// Appends the escaped form of `s`.
pub fn write_escaped(s: &[char], out: &mut Vec<char>)
    ensures
        final(out)@ == old(out)@ + escape_text(s@),
{
    let ghost start = out@;
    let mut i: usize = 0;
    while i < s.len()
        invariant
            i <= s.len(),
            out@ == start + escape_text(s@.subrange(0, i as int)),
        decreases s.len() - i,
    {
        proof {
            assert(s@.subrange(0, i + 1).drop_last() =~= s@.subrange(0, i as int));
        }
        let c = s[i];
        let ghost before = out@;
        if c == '"' {
            out.push('\\');
            out.push('"');
        } else if c == '\\' {
            out.push('\\');
            out.push('\\');
        } else if c == '\n' {
            out.push('\\');
            out.push('n');
        } else if c == '\r' {
            out.push('\\');
            out.push('r');
        } else if c == '\t' {
            out.push('\\');
            out.push('t');
        } else if c == '\u{8}' {
            out.push('\\');
            out.push('b');
        } else if c == '\u{c}' {
            out.push('\\');
            out.push('f');
        } else if (c as u32) < 0x20 {
            out.push('\\');
            out.push('u');
            out.push('0');
            out.push('0');
            out.push(hex_lower_of((c as u32 / 16) as u64));
            out.push(hex_lower_of((c as u32 % 16) as u64));
        } else {
            out.push(c);
        }
        proof {
            assert(out@ =~= before + escape_char(c));
        }
        i += 1;
    }
    proof {
        assert(s@.subrange(0, s@.len() as int) =~= s@);
    }
}

/// Appends `s` as a JSON string literal.
pub fn write_quoted(s: &str, out: &mut Vec<char>)
    ensures
        final(out)@ == old(out)@ + quoted(s@),
{
    let chars = crate::text::chars_of(s);
    out.push('"');
    write_escaped(&chars, out);
    out.push('"');
    assert(final(out)@ =~= old(out)@ + quoted(s@)) by {
        assert(quoted(s@) =~= seq!['"'] + escape_text(s@) + seq!['"']);
    }
}

pub fn write_number(n: &JsonNumber, out: &mut Vec<char>)
    ensures
        final(out)@ == old(out)@ + number_text(view_number(*n)),
{
    match n {
        JsonNumber::PosInt(u) => append(out, &decimal_of(*u)),
        JsonNumber::NegInt(i) => {
            if *i < 0 {
                out.push('-');
                let m: u64 = if *i == i64::MIN {
                    0x8000_0000_0000_0000u64
                } else {
                    (-*i) as u64
                };
                let ghost before = out@;
                append(out, &decimal_of(m));
                assert(out@ =~= old(out)@ + (seq!['-'] + decimal((-*i) as nat)));
            } else {
                append(out, &decimal_of(*i as u64));
            }
        },
        JsonNumber::Float(t) => {
            let chars = crate::text::chars_of(t.as_str());
            append(out, &chars);
        },
    }
}

/// Appends the compact JSON text of `v`.
pub fn write_json(v: &JsonValue, out: &mut Vec<char>)
    ensures
        final(out)@ == old(out)@ + json_text(view_json(*v)),
    decreases v,
{
    let ghost start = out@;
    match v {
        JsonValue::Null => {
            append_str(out, "null");
        },
        JsonValue::Bool(b) => {
            if *b {
                append_str(out, "true");
            } else {
                append_str(out, "false");
            }
        },
        JsonValue::Number(n) => write_number(n, out),
        JsonValue::String(s) => write_quoted(s.as_str(), out),
        JsonValue::Array(items) => {
            out.push('[');
            let mut i: usize = 0;
            while i < items.len()
                invariant
                    i <= items.len(),
                    *v == JsonValue::Array(*items),
                    out@ == start + seq!['['] + items_text(view_items(items@.subrange(0, i as int))),
                decreases items.len() - i,
            {
                proof {
                    assert(decreases_to!(*v => v->Array_0));
                    assert(decreases_to!(v->Array_0 => items@));
                    assert(decreases_to!(items@ => items@[i as int]));
                    lemma_view_items(items@.subrange(0, i + 1));
                    lemma_view_items(items@.subrange(0, i as int));
                    assert(view_items(items@.subrange(0, i + 1)).drop_last() =~= view_items(
                        items@.subrange(0, i as int),
                    ));
                }
                if i > 0 {
                    out.push(',');
                }
                write_json(&items[i], out);
                i += 1;
            }
            out.push(']');
            proof {
                assert(items@.subrange(0, items@.len() as int) =~= items@);
            }
        },
        JsonValue::Object(m) => {
            out.push('{');
            let mut i: usize = 0;
            while i < m.len()
                invariant
                    i <= m.len(),
                    *v == JsonValue::Object(*m),
                    out@ == start + seq!['{'] + entries_text(view_entries(m@.subrange(0, i as int))),
                decreases m.len() - i,
            {
                proof {
                    assert(decreases_to!(*v => v->Object_0));
                    assert(decreases_to!(v->Object_0 => m@));
                    assert(decreases_to!(m@ => m@[i as int]));
                    assert(decreases_to!(m@[i as int] => m@[i as int].1));
                    lemma_view_entries(m@.subrange(0, i + 1));
                    lemma_view_entries(m@.subrange(0, i as int));
                    assert(view_entries(m@.subrange(0, i + 1)).drop_last() =~= view_entries(
                        m@.subrange(0, i as int),
                    ));
                }
                if i > 0 {
                    out.push(',');
                }
                write_quoted(m[i].0.as_str(), out);
                out.push(':');
                write_json(&m[i].1, out);
                i += 1;
            }
            out.push('}');
            proof {
                assert(m@.subrange(0, m@.len() as int) =~= m@);
            }
        },
    }
}

/// The compact JSON text of `v`.
pub fn to_json_text(v: &JsonValue) -> (r: Vec<char>)
    ensures
        r@ == json_text(view_json(*v)),
{
    let mut out: Vec<char> = Vec::new();
    write_json(v, &mut out);
    assert(out@ =~= json_text(view_json(*v)));
    out
}

/// The indented JSON text of a value whose line starts with `ind`: each
/// member on a line of its own, indented two spaces more, `": "` after a
/// key; empty arrays and objects stay `[]` and `{}`.
pub open spec fn pretty_text(v: JsonSpec, ind: Seq<char>) -> Seq<char>
    decreases v, 1int,
{
    match v {
        JsonSpec::Array(xs) => if xs.len() == 0 {
            "[]"@
        } else {
            seq!['[', '\n'] + pretty_items(xs, ind + seq![' ', ' ']) + seq!['\n'] + ind + seq![']']
        },
        JsonSpec::Object(es) => if es.len() == 0 {
            "{}"@
        } else {
            seq!['{', '\n'] + pretty_entries(es, ind + seq![' ', ' ']) + seq!['\n'] + ind + seq!['}']
        },
        _ => json_text(v),
    }
}

pub open spec fn pretty_items(xs: Seq<JsonSpec>, ind: Seq<char>) -> Seq<char>
    decreases xs, 0int,
{
    if xs.len() == 0 {
        Seq::empty()
    } else if xs.len() == 1 {
        ind + pretty_text(xs.last(), ind)
    } else {
        pretty_items(xs.drop_last(), ind) + seq![',', '\n'] + ind + pretty_text(xs.last(), ind)
    }
}

pub open spec fn pretty_entries(es: Seq<(Seq<char>, JsonSpec)>, ind: Seq<char>) -> Seq<char>
    decreases es, 0int,
{
    if es.len() == 0 {
        Seq::empty()
    } else if es.len() == 1 {
        ind + quoted(es.last().0) + seq![':', ' '] + pretty_text(es.last().1, ind)
    } else {
        pretty_entries(es.drop_last(), ind) + seq![',', '\n'] + ind + quoted(es.last().0) + seq![':', ' ']
            + pretty_text(es.last().1, ind)
    }
}

/// Appends the indented JSON text of `v`, its lines starting with `ind`.
pub fn write_pretty(v: &JsonValue, ind: &Vec<char>, out: &mut Vec<char>)
    ensures
        final(out)@ == old(out)@ + pretty_text(view_json(*v), ind@),
    decreases v,
{
    let ghost start = out@;
    match v {
        JsonValue::Array(items) => {
            proof {
                lemma_view_items(items@);
            }
            if items.len() == 0 {
                append_str(out, "[]");
                return;
            }
            let mut inner = ind.clone();
            inner.push(' ');
            inner.push(' ');
            out.push('[');
            out.push('\n');
            let mut i: usize = 0;
            while i < items.len()
                invariant
                    i <= items.len(),
                    *v == JsonValue::Array(*items),
                    inner@ == ind@ + seq![' ', ' '],
                    out@ == start + seq!['[', '\n'] + pretty_items(view_items(items@.subrange(0, i as int)), inner@),
                decreases items.len() - i,
            {
                proof {
                    assert(decreases_to!(*v => v->Array_0));
                    assert(decreases_to!(v->Array_0 => items@));
                    assert(decreases_to!(items@ => items@[i as int]));
                    lemma_view_items(items@.subrange(0, i + 1));
                    lemma_view_items(items@.subrange(0, i as int));
                    assert(view_items(items@.subrange(0, i + 1)).drop_last() =~= view_items(
                        items@.subrange(0, i as int),
                    ));
                }
                if i > 0 {
                    out.push(',');
                    out.push('\n');
                }
                append(out, &inner);
                write_pretty(&items[i], &inner, out);
                i += 1;
            }
            out.push('\n');
            append(out, ind);
            out.push(']');
            proof {
                assert(items@.subrange(0, items@.len() as int) =~= items@);
            }
        },
        JsonValue::Object(m) => {
            proof {
                lemma_view_entries(m@);
            }
            if m.len() == 0 {
                append_str(out, "{}");
                return;
            }
            let mut inner = ind.clone();
            inner.push(' ');
            inner.push(' ');
            out.push('{');
            out.push('\n');
            let mut i: usize = 0;
            while i < m.len()
                invariant
                    i <= m.len(),
                    *v == JsonValue::Object(*m),
                    inner@ == ind@ + seq![' ', ' '],
                    out@ == start + seq!['{', '\n'] + pretty_entries(view_entries(m@.subrange(0, i as int)), inner@),
                decreases m.len() - i,
            {
                proof {
                    assert(decreases_to!(*v => v->Object_0));
                    assert(decreases_to!(v->Object_0 => m@));
                    assert(decreases_to!(m@ => m@[i as int]));
                    assert(decreases_to!(m@[i as int] => m@[i as int].1));
                    lemma_view_entries(m@.subrange(0, i + 1));
                    lemma_view_entries(m@.subrange(0, i as int));
                    assert(view_entries(m@.subrange(0, i + 1)).drop_last() =~= view_entries(
                        m@.subrange(0, i as int),
                    ));
                }
                if i > 0 {
                    out.push(',');
                    out.push('\n');
                }
                append(out, &inner);
                write_quoted(m[i].0.as_str(), out);
                out.push(':');
                out.push(' ');
                write_pretty(&m[i].1, &inner, out);
                i += 1;
            }
            out.push('\n');
            append(out, ind);
            out.push('}');
            proof {
                assert(m@.subrange(0, m@.len() as int) =~= m@);
            }
        },
        _ => {
            write_json(v, out);
        },
    }
}

/// The indented JSON text of `v`, as `serde_json::to_string_pretty` writes it.
pub fn to_pretty_text(v: &JsonValue) -> (r: Vec<char>)
    ensures
        r@ == pretty_text(view_json(*v), Seq::empty()),
{
    let mut out: Vec<char> = Vec::new();
    let ind: Vec<char> = Vec::new();
    write_pretty(v, &ind, &mut out);
    assert(out@ =~= pretty_text(view_json(*v), Seq::empty()));
    out
}

} // verus!
