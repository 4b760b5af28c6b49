//! The cURL parser: one `curl ...` command becomes a collection with one
//! endpoint. The command line is split into words as a POSIX shell would;
//! the flags that shape the request are read (`-X`, `-H`, the data flags,
//! `-F`, `-u`, `-b`, `--url`), the URL gives the path and query
//! parameters, and the body its content type and schema.
use vstd::prelude::*;
use vstd::string::StringSliceAdditionalSpecFns;
use crate::canonical::{
    CanonicalApiCollection, CanonicalEndpoint, CanonicalParameter, CanonicalRequestBody, CanonicalResponse,
    SchemaNode, blank_schema,
};
use crate::json::{JsonSpec, JsonValue, view_json};
use crate::model::{HttpMethod, InputSourceKind, ParameterLocation, SchemaNodeType};
use crate::parser::detect::{ApiParser, ParseError, ParseSource, inferred_schema, schema_from_json_value};
use crate::text::{
    append, append_str, chars_eq, chars_of, contains, eq_ignore_case, eq_ignore_case_of, eq_str, find,
    find_char, find_char_of, find_of, hex_char_upper, hex_upper_of, is_ascii_alnum, lemma_find_from, lower,
    lower_char, lower_of, slice, split_char, starts_with, starts_with_of, string_of, to_lower, to_upper, trim,
    trimmed, upper,
};

verus! {

// ---------------------------------------------------------------------
// Text helpers

/// `s` with every occurrence of `pat` (scanning left to right, without
/// overlap) replaced by `rep`.
pub open spec fn replace_all(s: Seq<char>, pat: Seq<char>, rep: Seq<char>) -> Seq<char>
    decreases s.len(),
{
    if pat.len() == 0 {
        s
    } else {
        match find(s, pat) {
            None => s,
            Some(i) => if 0 <= i && i + pat.len() <= s.len() {
                s.subrange(0, i) + rep + replace_all(s.subrange(i + pat.len(), s.len() as int), pat, rep)
            } else {
                s
            },
        }
    }
}

pub fn replace_all_of(s: &[char], pat: &[char], rep: &[char]) -> (r: Vec<char>)
    ensures
        r@ == replace_all(s@, pat@, rep@),
{
    if pat.len() == 0 {
        return slice(s, 0, s.len());
    }
    let mut out: Vec<char> = Vec::new();
    let mut rest = slice(s, 0, s.len());
    proof {
        assert(s@.subrange(0, s@.len() as int) =~= s@);
    }
    loop
        invariant
            pat@.len() > 0,
            replace_all(s@, pat@, rep@) == out@ + replace_all(rest@, pat@, rep@),
        decreases rest@.len(),
    {
        proof {
            lemma_find_from(rest@, pat@, 0);
        }
        match find_of(&rest, pat) {
            None => {
                append(&mut out, &rest);
                return out;
            },
            Some(i) => {
                assert(i + pat@.len() <= rest@.len());
                assert(rest@.len() == rest.len() && pat@.len() == pat.len());
                append(&mut out, &slice(&rest, 0, i));
                append(&mut out, rep);
                rest = slice(&rest, i + pat.len(), rest.len());
            },
        }
    }
}

/// The command text with escaped line breaks and line breaks turned into
/// spaces.
pub open spec fn normalized_command(body: Seq<char>) -> Seq<char> {
    replace_all(replace_all(replace_all(body, "\\\r\n"@, " "@), "\\\n"@, " "@), "\n"@, " "@)
}

pub fn normalize_command(body: &str) -> (r: Vec<char>)
    ensures
        r@ == normalized_command(body@),
{
    let b = chars_of(body);
    let s1 = replace_all_of(&b, &chars_of("\\\r\n"), &chars_of(" "));
    let s2 = replace_all_of(&s1, &chars_of("\\\n"), &chars_of(" "));
    replace_all_of(&s2, &chars_of("\n"), &chars_of(" "))
}

/// `s` without the leading run of `c`.
pub open spec fn strip_leading(s: Seq<char>, c: char) -> Seq<char>
    decreases s.len(),
{
    if s.len() > 0 && s[0] == c {
        strip_leading(s.subrange(1, s.len() as int), c)
    } else {
        s
    }
}

/// `s` without the trailing run of `c`.
pub open spec fn strip_trailing(s: Seq<char>, c: char) -> Seq<char>
    decreases s.len(),
{
    if s.len() > 0 && s.last() == c {
        strip_trailing(s.drop_last(), c)
    } else {
        s
    }
}

/// `s` with leading and trailing runs of `c` removed (as `trim_matches`).
pub open spec fn trim_char(s: Seq<char>, c: char) -> Seq<char> {
    strip_trailing(strip_leading(s, c), c)
}

pub fn trim_char_of(s: &[char], c: char) -> (r: Vec<char>)
    ensures
        r@ == trim_char(s@, c),
{
    let mut a: usize = 0;
    proof {
        assert(s@.subrange(0, s@.len() as int) =~= s@);
    }
    while a < s.len() && s[a] == c
        invariant
            a <= s.len(),
            strip_leading(s@.subrange(a as int, s@.len() as int), c) == strip_leading(s@, c),
        decreases s.len() - a,
    {
        assert(s@.subrange(a as int, s@.len() as int).subrange(1, s@.len() - a) =~= s@.subrange(a + 1, s@.len() as int));
        a += 1;
    }
    let t = slice(s, a, s.len());
    let mut b: usize = t.len();
    proof {
        assert(t@.subrange(0, t@.len() as int) =~= t@);
    }
    while b > 0 && t[b - 1] == c
        invariant
            b <= t.len(),
            strip_trailing(t@.subrange(0, b as int), c) == strip_trailing(t@, c),
        decreases b,
    {
        assert(t@.subrange(0, b as int).drop_last() =~= t@.subrange(0, b - 1));
        b -= 1;
    }
    slice(&t, 0, b)
}

/// `s` with every `a` replaced by `b`.
pub open spec fn replace_char(s: Seq<char>, a: char, b: char) -> Seq<char> {
    Seq::new(s.len(), |i: int| if s[i] == a { b } else { s[i] })
}

pub fn replace_char_of(s: &[char], a: char, b: char) -> (r: Vec<char>)
    ensures
        r@ == replace_char(s@, a, b),
{
    let mut out: Vec<char> = Vec::new();
    let mut i: usize = 0;
    while i < s.len()
        invariant
            i <= s.len(),
            out@ == replace_char(s@.subrange(0, i as int), a, b),
        decreases s.len() - i,
    {
        out.push(if s[i] == a { b } else { s[i] });
        i += 1;
        assert(out@ =~= replace_char(s@.subrange(0, i as int), a, b));
    }
    assert(s@.subrange(0, s@.len() as int) =~= s@);
    out
}

/// The slug of a name: ASCII letters and digits lower-cased, every other
/// run of characters one `-`, and no `-` at either end.
pub open spec fn id_chars(s: Seq<char>) -> Seq<char>
    decreases s.len(),
{
    if s.len() == 0 {
        Seq::empty()
    } else {
        let p = id_chars(s.drop_last());
        let c = s.last();
        if is_ascii_alnum(c) {
            p.push(lower_char(c))
        } else if p.len() > 0 && p.last() == '-' {
            p
        } else {
            p.push('-')
        }
    }
}

pub open spec fn canonical_id_spec(s: Seq<char>) -> Seq<char> {
    trim_char(id_chars(s), '-')
}

pub fn canonical_id(input: &str) -> (r: String)
    ensures
        r@ == canonical_id_spec(input@),
{
    let s = chars_of(input);
    let mut out: Vec<char> = Vec::new();
    let mut i: usize = 0;
    while i < s.len()
        invariant
            i <= s.len(),
            out@ == id_chars(s@.subrange(0, i as int)),
        decreases s.len() - i,
    {
        proof {
            assert(s@.subrange(0, i + 1).drop_last() =~= s@.subrange(0, i as int));
        }
        let c = s[i];
        if ('a' <= c && c <= 'z') || ('A' <= c && c <= 'Z') || ('0' <= c && c <= '9') {
            out.push(lower_of(c));
        } else if out.len() > 0 && out[out.len() - 1] == '-' {
        } else {
            out.push('-');
        }
        i += 1;
    }
    proof {
        assert(s@.subrange(0, s@.len() as int) =~= s@);
    }
    string_of(&trim_char_of(&out, '-'))
}

// ---------------------------------------------------------------------
// Flags and headers

/// A header given with `-H`, `-u` or `-b`, or added for a form body.
#[derive(Debug, Clone, PartialEq, Eq)]
pub struct HeaderEntry {
    pub name: String,
    pub value: String,
}

/// One `-F` / `--form-string` field.
#[derive(Debug, Clone, PartialEq, Eq)]
pub struct FormPart {
    pub name: String,
    pub value: String,
    pub is_file: bool,
    pub content_type: Option<String>,
}

/// The `(name, value)` of a `Name: value` header, both trimmed; `None`
/// without a colon.
pub open spec fn header_parts(h: Seq<char>) -> Option<(Seq<char>, Seq<char>)> {
    match find_char(h, ':') {
        Some(i) => Some((trim(h.subrange(0, i)), trim(h.subrange(i + 1, h.len() as int)))),
        None => None,
    }
}

pub fn parse_header(header: &str) -> (r: Option<(String, String)>)
    ensures
        match r {
            Some(p) => header_parts(header@) == Some((p.0@, p.1@)),
            None => header_parts(header@) is None,
        },
{
    let h = chars_of(header);
    proof {
        lemma_find_from(h@, seq![':'], 0);
    }
    match find_char_of(&h, ':') {
        Some(i) => {
            assert(i < h.len());
            let name = trimmed(&slice(&h, 0, i));
            let value = trimmed(&slice(&h, i + 1, h.len()));
            Some((string_of(&name), string_of(&value)))
        },
        None => None,
    }
}

pub open spec fn header_views(h: Seq<HeaderEntry>) -> Seq<(Seq<char>, Seq<char>)> {
    h.map_values(|e: HeaderEntry| (e.name@, e.value@))
}

/// Some header is named `name`, ignoring ASCII case.
pub open spec fn has_header_spec(h: Seq<(Seq<char>, Seq<char>)>, name: Seq<char>) -> bool {
    exists|i: int| 0 <= i < h.len() && eq_ignore_case(#[trigger] h[i].0, name)
}

pub fn has_header(headers: &Vec<HeaderEntry>, name: &str) -> (r: bool)
    ensures
        r == has_header_spec(header_views(headers@), name@),
{
    let n = chars_of(name);
    let mut i: usize = 0;
    while i < headers.len()
        invariant
            i <= headers@.len(),
            n@ == name@,
            forall|j: int| 0 <= j < i ==> !eq_ignore_case(#[trigger] header_views(headers@)[j].0, name@),
        decreases headers.len() - i,
    {
        if eq_ignore_case_of(&chars_of(headers[i].name.as_str()), &n) {
            assert(header_views(headers@)[i as int].0 == headers@[i as int].name@);
            return true;
        }
        i += 1;
    }
    false
}

/// The value of the last header named `name`, ignoring ASCII case.
pub open spec fn last_header(h: Seq<(Seq<char>, Seq<char>)>, name: Seq<char>) -> Option<Seq<char>>
    decreases h.len(),
{
    if h.len() == 0 {
        None
    } else if eq_ignore_case(h.last().0, name) {
        Some(h.last().1)
    } else {
        last_header(h.drop_last(), name)
    }
}

pub fn last_header_value(headers: &Vec<HeaderEntry>, name: &str) -> (r: Option<String>)
    ensures
        match r {
            Some(v) => last_header(header_views(headers@), name@) == Some(v@),
            None => last_header(header_views(headers@), name@) is None,
        },
{
    let n = chars_of(name);
    let mut i: usize = headers.len();
    proof {
        assert(header_views(headers@).subrange(0, headers@.len() as int) =~= header_views(headers@));
    }
    while i > 0
        invariant
            i <= headers@.len(),
            n@ == name@,
            last_header(header_views(headers@), name@) == last_header(header_views(headers@).subrange(0, i as int), name@),
        decreases i,
    {
        proof {
            assert(header_views(headers@).subrange(0, i as int).drop_last() =~= header_views(headers@).subrange(0, i - 1));
        }
        if eq_ignore_case_of(&chars_of(headers[i - 1].name.as_str()), &n) {
            return Some(headers[i - 1].value.clone());
        }
        i -= 1;
    }
    None
}

/// Headers that describe the body rather than the request (`Content-Type`).
pub open spec fn is_protocol_header_spec(name: Seq<char>) -> bool {
    lower(name) == "content-type"@
}

pub fn is_protocol_header(name: &str) -> (r: bool)
    ensures
        r == is_protocol_header_spec(name@),
{
    eq_str(&to_lower(&chars_of(name)), "content-type")
}

pub open spec fn looks_like_url_spec(t: Seq<char>) -> bool {
    starts_with(t, "http://"@) || starts_with(t, "https://"@) || starts_with(t, "/"@)
}

pub fn looks_like_url(token: &str) -> (r: bool)
    ensures
        r == looks_like_url_spec(token@),
{
    let t = chars_of(token);
    starts_with_of(&t, &chars_of("http://")) || starts_with_of(&t, &chars_of("https://")) || starts_with_of(
        &t,
        &chars_of("/"),
    )
}

/// A value naming a file (`@path` or `<path`).
pub open spec fn is_file_reference(v: Seq<char>) -> bool {
    v.len() > 0 && (v[0] == '@' || v[0] == '<')
}

pub fn is_curl_file_reference(value: &str) -> (r: bool)
    ensures
        r == is_file_reference(value@),
{
    let v = chars_of(value);
    v.len() > 0 && (v[0] == '@' || v[0] == '<')
}

/// The method a `-X` value names, ignoring ASCII case.
pub open spec fn method_named_upper(u: Seq<char>) -> Option<HttpMethod> {
    crate::gateway::handlers::canonical_method(u)
}

pub open spec fn method_from_token_spec(token: Seq<char>) -> Result<HttpMethod, Seq<char>> {
    match method_named_upper(upper(token)) {
        Some(m) => Ok(m),
        None => Err("unsupported HTTP method in cURL input: "@ + upper(token)),
    }
}

pub fn http_method_from_token(token: &str) -> (r: Result<HttpMethod, ParseError>)
    ensures
        match method_from_token_spec(token@) {
            Ok(m) => r == Ok::<HttpMethod, ParseError>(m),
            Err(msg) => r matches Err(ParseError::ParseFailed(e)) && e@ == msg,
        },
{
    let up = to_upper(&chars_of(token));
    let us = string_of(&up);
    match crate::gateway::handlers::http_method_to_canonical(us.as_str()) {
        Some(m) => Ok(m),
        None => {
            let mut msg = chars_of("unsupported HTTP method in cURL input: ");
            append(&mut msg, &up);
            Err(ParseError::ParseFailed(string_of(&msg)))
        },
    }
}

/// The byte `b` as `--data-urlencode` writes it.
pub open spec fn encode_byte(b: u8) -> Seq<char> {
    if (48 <= b <= 57) || (65 <= b <= 90) || (97 <= b <= 122) || b == 45 || b == 95 || b == 46 || b == 126 {
        seq![b as char]
    } else if b == 32 {
        seq!['+']
    } else {
        seq!['%', hex_char_upper((b / 16) as nat), hex_char_upper((b % 16) as nat)]
    }
}

pub open spec fn url_encoded(bytes: Seq<u8>) -> Seq<char>
    decreases bytes.len(),
{
    if bytes.len() == 0 {
        Seq::empty()
    } else {
        url_encoded(bytes.drop_last()) + encode_byte(bytes.last())
    }
}

/// Percent-encodes the UTF-8 bytes of `input`: ASCII letters, digits and
/// `-_.~` stay, a space becomes `+`, every other byte `%XX`.
pub fn urlencoding_encode(input: &str) -> (r: String)
    ensures
        r@ == url_encoded(input.spec_bytes()),
{
    let bytes = input.as_bytes();
    let mut out: Vec<char> = Vec::new();
    let mut i: usize = 0;
    while i < bytes.len()
        invariant
            i <= bytes@.len(),
            out@ == url_encoded(bytes@.subrange(0, i as int)),
        decreases bytes.len() - i,
    {
        proof {
            assert(bytes@.subrange(0, i + 1).drop_last() =~= bytes@.subrange(0, i as int));
        }
        let b = bytes[i];
        let ghost before = out@;
        if (48 <= b && b <= 57) || (65 <= b && b <= 90) || (97 <= b && b <= 122) || b == 45 || b == 95 || b == 46
            || b == 126 {
            out.push(b as char);
        } else if b == 32 {
            out.push('+');
        } else {
            out.push('%');
            out.push(hex_upper_of((b / 16) as u64));
            out.push(hex_upper_of((b % 16) as u64));
        }
        proof {
            assert(out@ =~= before + encode_byte(b));
        }
        i += 1;
    }
    proof {
        assert(bytes@.subrange(0, bytes@.len() as int) =~= bytes@);
    }
    string_of(&out)
}

// ---------------------------------------------------------------------
// Form fields and schemas

/// A form field as the spec reads it.
pub struct FormSpec {
    pub name: Seq<char>,
    pub value: Seq<char>,
    pub is_file: bool,
    pub content_type: Option<Seq<char>>,
}

pub open spec fn form_view(p: FormPart) -> FormSpec {
    FormSpec {
        name: p.name@,
        value: p.value@,
        is_file: p.is_file,
        content_type: match p.content_type {
            Some(t) => Some(t@),
            None => None,
        },
    }
}

/// The first `type=` segment's value.
pub open spec fn form_type(segs: Seq<Seq<char>>) -> Option<Seq<char>>
    decreases segs.len(),
{
    if segs.len() == 0 {
        None
    } else if starts_with(segs[0], "type="@) {
        Some(segs[0].subrange(5, segs[0].len() as int))
    } else {
        form_type(segs.subrange(1, segs.len() as int))
    }
}

/// A `name=value[;type=...]` form field. The value is the text before the
/// first `;`; a value starting with `@` or `<` names a file unless the field
/// is taken literally.
pub open spec fn form_part_spec(input: Seq<char>, literal: bool) -> Result<FormSpec, Seq<char>> {
    match find_char(input, '=') {
        None => Err("multipart form values must use name=value syntax"@),
        Some(i) => {
            let name = trim(input.subrange(0, i));
            if name.len() == 0 {
                Err("multipart form field name cannot be empty"@)
            } else {
                let segs = split_char(input.subrange(i + 1, input.len() as int), ';');
                Ok(
                    FormSpec {
                        name,
                        value: segs[0],
                        is_file: !literal && is_file_reference(segs[0]),
                        content_type: form_type(segs.subrange(1, segs.len() as int)),
                    },
                )
            }
        },
    }
}

pub fn parse_form_part(input: &str, force_literal: bool) -> (r: Result<FormPart, ParseError>)
    ensures
        match form_part_spec(input@, force_literal) {
            Ok(f) => r matches Ok(p) && form_view(p) == f,
            Err(m) => r matches Err(ParseError::ParseFailed(e)) && e@ == m,
        },
{
    let s = chars_of(input);
    proof {
        lemma_find_from(s@, seq!['='], 0);
    }
    let i = match find_char_of(&s, '=') {
        None => return Err(ParseError::ParseFailed("multipart form values must use name=value syntax".to_string())),
        Some(i) => i,
    };
    assert(i < s.len());
    let name = trimmed(&slice(&s, 0, i));
    if name.len() == 0 {
        return Err(ParseError::ParseFailed("multipart form field name cannot be empty".to_string()));
    }
    let raw = slice(&s, i + 1, s.len());
    let segs = crate::gateway::handlers::split_all(&raw, ';');
    proof {
        crate::text::lemma_split_len(raw@, ';');
    }
    let first = &segs[0];
    let mut content_type: Option<String> = None;
    let mut k: usize = 1;
    let ghost all = split_char(raw@, ';');
    proof {
        assert(all.subrange(1, all.len() as int) == all.subrange(k as int, all.len() as int));
    }
    while k < segs.len() && content_type.is_none()
        invariant
            1 <= k <= segs@.len(),
            segs@.len() == all.len(),
            forall|j: int| 0 <= j < segs@.len() ==> (#[trigger] segs@[j])@ == all[j],
            content_type is None ==> form_type(all.subrange(1, all.len() as int)) == form_type(
                all.subrange(k as int, all.len() as int),
            ),
            content_type matches Some(t) ==> form_type(all.subrange(1, all.len() as int)) == Some(t@),
        decreases segs.len() - k + (if content_type is None { 1int } else { 0int }),
    {
        let ghost rest = all.subrange(k as int, all.len() as int);
        proof {
            assert(rest[0] == all[k as int]);
            assert(rest.subrange(1, rest.len() as int) =~= all.subrange(k + 1, all.len() as int));
        }
        let seg = &segs[k];
        if starts_with_of(seg, &chars_of("type=")) {
            proof {
                reveal_strlit("type=");
            }
            content_type = Some(string_of(&slice(seg, 5, seg.len())));
        } else {
            k += 1;
        }
    }
    proof {
        if content_type is None {
            assert(all.subrange(k as int, all.len() as int).len() == 0);
        }
    }
    let is_file = !force_literal && first.len() > 0 && (first[0] == '@' || first[0] == '<');
    Ok(FormPart { name: string_of(&name), value: string_of(first), is_file, content_type })
}

pub open spec fn opt_text(o: Option<String>) -> Option<Seq<char>> {
    match o {
        Some(s) => Some(s@),
        None => None,
    }
}

/// A fresh string schema but for its description, format and example.
pub open spec fn text_node(s: SchemaNode) -> bool {
    &&& s.node_type == SchemaNodeType::String
    &&& !s.nullable
    &&& s.properties@.len() == 0
    &&& s.items is None
    &&& crate::parser::detect::unconstrained(SchemaNode { description: None, format: None, ..s })
}

/// A string schema whose example is the string `v`.
pub open spec fn string_example_schema(s: SchemaNode, v: Seq<char>) -> bool {
    &&& text_node(s)
    &&& s.description is None
    &&& s.format is None
    &&& s.example matches Some(e) && view_json(e) == JsonSpec::String(v)
}

/// A binary upload schema: string, format `binary`, example `v`, and a
/// description naming the part's content type when it has one.
pub open spec fn binary_example_schema(s: SchemaNode, v: Seq<char>, ct: Option<Seq<char>>) -> bool {
    &&& text_node(s)
    &&& opt_text(s.format) == Some("binary"@)
    &&& opt_text(s.description) == match ct {
        Some(t) => Some("Binary upload part ("@ + t + ")"@),
        None => None,
    }
    &&& s.example matches Some(e) && view_json(e) == JsonSpec::String(v)
}

pub fn string_schema_with_example(example: &str) -> (s: SchemaNode)
    ensures
        string_example_schema(s, example@),
        !s.required,
{
    let mut s = SchemaNode::string();
    s.example = Some(JsonValue::String(example.to_string()));
    s
}

pub fn binary_schema_with_example(example: &str, content_type: Option<&str>) -> (s: SchemaNode)
    ensures
        binary_example_schema(
            s,
            example@,
            match content_type {
                Some(t) => Some(t@),
                None => None,
            },
        ),
        !s.required,
{
    let mut s = string_schema_with_example(example);
    s.format = Some("binary".to_string());
    s.description = match content_type {
        Some(t) => {
            let mut d = chars_of("Binary upload part (");
            append_str(&mut d, t);
            append_str(&mut d, ")");
            Some(string_of(&d))
        },
        None => None,
    };
    s
}

// ---------------------------------------------------------------------
// Outside calls

/// What `shlex::split` makes of a text: its words as a POSIX shell splits
/// them, or `None` when the quoting is broken.
pub uninterp spec fn shlex_words(text: Seq<char>) -> Option<Seq<Seq<char>>>;

pub open spec fn word_views(w: Seq<String>) -> Seq<Seq<char>> {
    w.map_values(|s: String| s@)
}

/// `shlex::split`. Claimed: the result is a function of the text.
#[verifier::external_body]
fn split_words(text: &str) -> (r: Option<Vec<String>>)
    ensures
        match r {
            Some(w) => shlex_words(text@) == Some(word_views(w@)),
            None => shlex_words(text@) is None,
        },
{
    shlex::split(text)
}

/// What `url::Url::parse` makes of a text: its path and decoded query
/// pairs, or the parse error's message.
pub uninterp spec fn url_parse(text: Seq<char>) -> Result<(Seq<char>, Seq<(Seq<char>, Seq<char>)>), Seq<char>>;

pub open spec fn pair_views(p: Seq<(String, String)>) -> Seq<(Seq<char>, Seq<char>)> {
    p.map_values(|x: (String, String)| (x.0@, x.1@))
}

/// `url::Url::parse`, read back as the URL's `path()` and `query_pairs()`
/// (or the error's `to_string()`). Claimed: the result is a function of
/// the text.
#[verifier::external_body]
fn parse_url(text: &str) -> (r: Result<(String, Vec<(String, String)>), String>)
    ensures
        match r {
            Ok(u) => url_parse(text@) == Ok::<(Seq<char>, Seq<(Seq<char>, Seq<char>)>), Seq<char>>((u.0@, pair_views(u.1@))),
            Err(e) => url_parse(text@) == Err::<(Seq<char>, Seq<(Seq<char>, Seq<char>)>), Seq<char>>(e@),
        },
{
    match url::Url::parse(text) {
        Ok(u) => Ok((u.path().to_string(), u.query_pairs().map(|(k, v)| (k.into_owned(), v.into_owned())).collect())),
        Err(e) => Err(e.to_string()),
    }
}

/// What `serde_json::from_str::<serde_json::Value>` makes of a text: the
/// value, or the error's message.
pub uninterp spec fn json_parse(text: Seq<char>) -> Result<JsonSpec, Seq<char>>;

/// `serde_json::from_str` into a `serde_json::Value`, carried over into the
/// library's JSON value (or the error's `to_string()`). Claimed: the result
/// is a function of the text.
#[verifier::external_body]
pub(crate) fn parse_json(text: &str) -> (r: Result<JsonValue, String>)
    ensures
        match r {
            Ok(v) => json_parse(text@) == Ok::<JsonSpec, Seq<char>>(view_json(v)),
            Err(e) => json_parse(text@) == Err::<JsonSpec, Seq<char>>(e@),
        },
{
    match serde_json::from_str::<serde_json::Value>(text) {
        Ok(v) => Ok(from_serde(&v)),
        Err(e) => Err(e.to_string()),
    }
}

#[verifier::external_type_specification]
#[verifier::external_body]
pub struct ExSerdeValue(serde_json::Value);

#[verifier::external_type_specification]
#[verifier::external_body]
pub struct ExSerdeNumber(serde_json::Number);

/// Carries a `serde_json::Number` over: unsigned, signed or float (a float
/// as its shortest text).
#[verifier::external_body]
pub(crate) fn from_serde_number(n: &serde_json::Number) -> crate::json::JsonNumber {
    match (n.as_u64(), n.as_i64()) {
        (Some(u), _) => crate::json::JsonNumber::PosInt(u),
        (None, Some(i)) => crate::json::JsonNumber::NegInt(i),
        _ => crate::json::JsonNumber::Float(n.to_string()),
    }
}

/// Carries a `serde_json::Value` over into the library's JSON value, one
/// variant for another; a number keeps its unsigned, signed or float form
/// (a float as its shortest text).
#[verifier::external_body]
pub(crate) fn from_serde(v: &serde_json::Value) -> JsonValue {
    match v {
        serde_json::Value::Null => JsonValue::Null,
        serde_json::Value::Bool(b) => JsonValue::Bool(*b),
        serde_json::Value::Number(n) => JsonValue::Number(from_serde_number(n)),
        serde_json::Value::String(s) => JsonValue::String(s.clone()),
        serde_json::Value::Array(a) => JsonValue::Array(a.iter().map(from_serde).collect()),
        serde_json::Value::Object(m) => JsonValue::Object(m.iter().map(|(k, x)| (k.clone(), from_serde(x))).collect()),
    }
}

// ---------------------------------------------------------------------
// Reading the flags

/// The flags read so far.
pub struct CurlScan {
    pub method: Option<HttpMethod>,
    pub headers: Seq<(Seq<char>, Seq<char>)>,
    pub raw: Seq<(Seq<char>, bool)>,
    pub url: Option<Seq<char>>,
    pub urlencoded: Seq<Seq<char>>,
    pub forms: Seq<FormSpec>,
}

pub open spec fn empty_scan() -> CurlScan {
    CurlScan {
        method: None,
        headers: Seq::empty(),
        raw: Seq::empty(),
        url: None,
        urlencoded: Seq::empty(),
        forms: Seq::empty(),
    }
}

pub open spec fn is_data_flag(t: Seq<char>) -> bool {
    t == "-d"@ || t == "--data"@ || t == "--data-raw"@ || t == "--data-ascii"@
}

/// The flags of `tokens[i..]` read into `st`, or the first error. A flag
/// that takes a value consumes the next word; a word that looks like a URL
/// is the URL; other words are ignored.
pub open spec fn scan_flags(tokens: Seq<Seq<char>>, i: int, st: CurlScan) -> Result<CurlScan, Seq<char>>
    decreases tokens.len() - i,
{
    if i < 0 || i >= tokens.len() {
        Ok(st)
    } else {
        let t = tokens[i];
        let has_next = i + 1 < tokens.len();
        let next = tokens[i + 1];
        if t == "-X"@ || t == "--request"@ {
            if !has_next {
                Err("missing method after -X/--request"@)
            } else {
                match method_from_token_spec(next) {
                    Err(e) => Err(e),
                    Ok(m) => scan_flags(tokens, i + 2, CurlScan { method: Some(m), ..st }),
                }
            }
        } else if t == "-H"@ || t == "--header"@ {
            if !has_next {
                Err("missing header value after -H/--header"@)
            } else {
                scan_flags(
                    tokens,
                    i + 2,
                    match header_parts(next) {
                        Some(h) => CurlScan { headers: st.headers.push(h), ..st },
                        None => st,
                    },
                )
            }
        } else if is_data_flag(t) || t == "--data-binary"@ {
            if !has_next {
                Err("missing request body after data flag"@)
            } else {
                scan_flags(tokens, i + 2, CurlScan { raw: st.raw.push((next, t == "--data-binary"@)), ..st })
            }
        } else if t == "--data-urlencode"@ {
            if !has_next {
                Err("missing value after --data-urlencode"@)
            } else {
                scan_flags(tokens, i + 2, CurlScan { urlencoded: st.urlencoded.push(next), ..st })
            }
        } else if t == "-F"@ || t == "--form"@ || t == "--form-string"@ {
            if !has_next {
                Err(
                    if t == "--form-string"@ {
                        "missing value after --form-string"@
                    } else {
                        "missing value after -F/--form"@
                    },
                )
            } else {
                match form_part_spec(next, t == "--form-string"@) {
                    Err(e) => Err(e),
                    Ok(f) => scan_flags(tokens, i + 2, CurlScan { forms: st.forms.push(f), ..st }),
                }
            }
        } else if t == "-u"@ || t == "--user"@ {
            if !has_next {
                Err("missing credential after -u/--user"@)
            } else if has_header_spec(st.headers, "Authorization"@) {
                scan_flags(tokens, i + 2, st)
            } else {
                scan_flags(
                    tokens,
                    i + 2,
                    CurlScan { headers: st.headers.push(("Authorization"@, "Basic "@ + next)), ..st },
                )
            }
        } else if t == "-b"@ || t == "--cookie"@ {
            if !has_next {
                Err("missing value after -b/--cookie"@)
            } else if has_header_spec(st.headers, "Cookie"@) {
                scan_flags(tokens, i + 2, st)
            } else {
                scan_flags(tokens, i + 2, CurlScan { headers: st.headers.push(("Cookie"@, next)), ..st })
            }
        } else if t == "--url"@ {
            if !has_next {
                Err("missing URL after --url"@)
            } else {
                scan_flags(tokens, i + 2, CurlScan { url: Some(next), ..st })
            }
        } else if looks_like_url_spec(t) {
            scan_flags(tokens, i + 1, CurlScan { url: Some(t), ..st })
        } else {
            scan_flags(tokens, i + 1, st)
        }
    }
}

/// Reading flags only adds to the body parts read so far, and sets a
/// method only on `-X`/`--request`.
proof fn lemma_scan_grows(tokens: Seq<Seq<char>>, i: int, st: CurlScan)
    ensures
        scan_flags(tokens, i, st) matches Ok(r) ==> (r.raw.len() >= st.raw.len() && forall|j: int|
            0 <= j < st.raw.len() ==> #[trigger] r.raw[j] == st.raw[j]),
        scan_flags(tokens, i, st) matches Ok(r) ==> (r.method is None ==> st.method is None),
        scan_flags(tokens, i, st) matches Ok(r) ==> ((st.method is None && forall|j: int|
            i <= j < tokens.len() ==> #[trigger] tokens[j] != "-X"@ && tokens[j] != "--request"@) ==> r.method is None),
    decreases tokens.len() - i,
{
    if 0 <= i < tokens.len() {
        let t = tokens[i];
        let next = tokens[i + 1];
        if t == "-X"@ || t == "--request"@ {
            if i + 1 < tokens.len() {
                if let Ok(m) = method_from_token_spec(next) {
                    lemma_scan_grows(tokens, i + 2, CurlScan { method: Some(m), ..st });
                }
            }
        } else if t == "-H"@ || t == "--header"@ {
            if i + 1 < tokens.len() {
                lemma_scan_grows(tokens, i + 2, match header_parts(next) {
                    Some(h) => CurlScan { headers: st.headers.push(h), ..st },
                    None => st,
                });
            }
        } else if is_data_flag(t) || t == "--data-binary"@ {
            if i + 1 < tokens.len() {
                let st2 = CurlScan { raw: st.raw.push((next, t == "--data-binary"@)), ..st };
                lemma_scan_grows(tokens, i + 2, st2);
                if let Ok(r) = scan_flags(tokens, i + 2, st2) {
                    assert forall|j: int| 0 <= j < st.raw.len() implies #[trigger] r.raw[j] == st.raw[j] by {
                        assert(r.raw[j] == st2.raw[j]);
                    }
                }
            }
        } else if t == "--data-urlencode"@ {
            if i + 1 < tokens.len() {
                lemma_scan_grows(tokens, i + 2, CurlScan { urlencoded: st.urlencoded.push(next), ..st });
            }
        } else if t == "-F"@ || t == "--form"@ || t == "--form-string"@ {
            if i + 1 < tokens.len() {
                if let Ok(f) = form_part_spec(next, t == "--form-string"@) {
                    lemma_scan_grows(tokens, i + 2, CurlScan { forms: st.forms.push(f), ..st });
                }
            }
        } else if t == "-u"@ || t == "--user"@ {
            if i + 1 < tokens.len() {
                if has_header_spec(st.headers, "Authorization"@) {
                    lemma_scan_grows(tokens, i + 2, st);
                } else {
                    lemma_scan_grows(tokens, i + 2, CurlScan { headers: st.headers.push(("Authorization"@, "Basic "@ + next)), ..st });
                }
            }
        } else if t == "-b"@ || t == "--cookie"@ {
            if i + 1 < tokens.len() {
                if has_header_spec(st.headers, "Cookie"@) {
                    lemma_scan_grows(tokens, i + 2, st);
                } else {
                    lemma_scan_grows(tokens, i + 2, CurlScan { headers: st.headers.push(("Cookie"@, next)), ..st });
                }
            }
        } else if t == "--url"@ {
            if i + 1 < tokens.len() {
                lemma_scan_grows(tokens, i + 2, CurlScan { url: Some(next), ..st });
            }
        } else if looks_like_url_spec(t) {
            lemma_scan_grows(tokens, i + 1, CurlScan { url: Some(t), ..st });
        } else {
            lemma_scan_grows(tokens, i + 1, st);
        }
    }
}

proof fn lemma_data_flag_distinct(t: Seq<char>)
    requires
        t == "-d"@ || t == "--data"@ || t == "--data-raw"@ || t == "--data-ascii"@,
    ensures
        t != "-X"@ && t != "--request"@ && t != "-H"@ && t != "--header"@ && t != "--data-binary"@,
        is_data_flag(t),
        t.len() > 0 && t[0] == '-',
{
    reveal_strlit("-X");
    reveal_strlit("--request");
    reveal_strlit("-H");
    reveal_strlit("--header");
    reveal_strlit("-d");
    reveal_strlit("--data");
    reveal_strlit("--data-raw");
    reveal_strlit("--data-ascii");
    reveal_strlit("--data-binary");
    assert("-X"@.len() == 2 && "-X"@[1] == 'X');
    assert("-H"@.len() == 2 && "-H"@[1] == 'H');
    assert("-d"@.len() == 2 && "-d"@[1] == 'd' && "-d"@[0] == '-');
    assert("--request"@.len() == 9);
    assert("--header"@.len() == 8);
    assert("--data-binary"@.len() == 13);
    assert("--data"@.len() == 6 && "--data"@[0] == '-');
    assert("--data-raw"@.len() == 10 && "--data-raw"@[0] == '-');
    assert("--data-ascii"@.len() == 12 && "--data-ascii"@[0] == '-');
    if t == "-d"@ {
        assert(t[1] == 'd');
    }
}

proof fn lemma_url_not_flag(url: Seq<char>)
    requires
        looks_like_url_spec(url),
    ensures
        url.len() > 0 && url[0] != '-',
{
    reveal_strlit("http://");
    reveal_strlit("https://");
    reveal_strlit("/");
    if starts_with(url, "http://"@) {
        assert(url.subrange(0, 7)[0] == url[0]);
        assert("http://"@[0] == 'h');
    } else if starts_with(url, "https://"@) {
        assert(url.subrange(0, 8)[0] == url[0]);
        assert("https://"@[0] == 'h');
    } else {
        assert(url.subrange(0, 1)[0] == url[0]);
        assert("/"@[0] == '/');
    }
}

/// Each of `-d`, `--data`, `--data-raw` and `--data-ascii` followed by a
/// value adds that value (as text, not binary) to the request body, after
/// whatever body was read before it.
pub proof fn law_data_flag_adds_body(tokens: Seq<Seq<char>>, i: int, st: CurlScan)
    requires
        0 <= i,
        i + 1 < tokens.len(),
        tokens[i] == "-d"@ || tokens[i] == "--data"@ || tokens[i] == "--data-raw"@ || tokens[i] == "--data-ascii"@,
    ensures
        scan_flags(tokens, i, st) matches Ok(r) ==> r.raw.len() > st.raw.len() && r.raw[st.raw.len() as int] == (
            tokens[i + 1],
            false,
        ),
{
    reveal_strlit("--data-binary");
    reveal_strlit("-d");
    reveal_strlit("--data");
    reveal_strlit("--data-raw");
    reveal_strlit("--data-ascii");
    reveal_strlit("-X");
    reveal_strlit("--request");
    reveal_strlit("-H");
    reveal_strlit("--header");
    lemma_data_flag_distinct(tokens[i]);
    let st2 = CurlScan { raw: st.raw.push((tokens[i + 1], false)), ..st };
    lemma_scan_grows(tokens, i + 2, st2);
    if let Ok(r) = scan_flags(tokens, i + 2, st2) {
        assert(r.raw[st.raw.len() as int] == st2.raw[st.raw.len() as int]);
    }
}

/// A command with a body and no `-X`/`--request` is a POST, and its body
/// parts are the ones read from the flags.
pub proof fn law_body_without_method_is_post(tokens: Seq<Seq<char>>)
    requires
        forall|j: int| 0 <= j < tokens.len() ==> #[trigger] tokens[j] != "-X"@ && tokens[j] != "--request"@,
    ensures
        curl_request(tokens) matches Ok(req) ==> (req.raw.len() > 0 || req.forms.len() > 0 ==> req.method == HttpMethod::Post),
        curl_request(tokens) matches Ok(req) ==> (req.raw.len() == 0 && req.forms.len() == 0 ==> req.method == HttpMethod::Get),
{
    lemma_scan_grows(tokens, 0, empty_scan());
}

/// For `curl <url> <data flag> <value>`, the request (when the URL reads)
/// is a POST whose one body part is the value.
pub proof fn law_url_then_data_is_post(url: Seq<char>, flag: Seq<char>, value: Seq<char>)
    requires
        looks_like_url_spec(url),
        flag == "-d"@ || flag == "--data"@ || flag == "--data-raw"@ || flag == "--data-ascii"@,
    ensures
        curl_request(seq![url, flag, value]) matches Ok(req) ==> req.method == HttpMethod::Post && req.raw == seq![(value, false)]
            && req.headers.len() == 0 && req.forms.len() == 0,
{
    let tokens = seq![url, flag, value];
    reveal_strlit("-X");
    reveal_strlit("--request");
    reveal_strlit("-H");
    reveal_strlit("--header");
    reveal_strlit("-d");
    reveal_strlit("--data");
    reveal_strlit("--data-raw");
    reveal_strlit("--data-ascii");
    reveal_strlit("--data-binary");
    reveal_strlit("--data-urlencode");
    reveal_strlit("-F");
    reveal_strlit("--form");
    reveal_strlit("--form-string");
    reveal_strlit("-u");
    reveal_strlit("--user");
    reveal_strlit("-b");
    reveal_strlit("--cookie");
    reveal_strlit("--url");
    lemma_url_not_flag(url);
    lemma_data_flag_distinct(flag);
    let st1 = CurlScan { url: Some(url), ..empty_scan() };
    let st2 = CurlScan { raw: st1.raw.push((value, false)), ..st1 };
    assert(scan_flags(tokens, 3, st2) == Ok::<CurlScan, Seq<char>>(st2));
    assert(scan_flags(tokens, 1, st1) == scan_flags(tokens, 3, st2));
    assert(scan_flags(tokens, 0, empty_scan()) == scan_flags(tokens, 1, st1));
    assert(st2.raw =~= seq![(value, false)]);
}

/// For `curl <url> <data flag> <JSON text>`, a successful parse is a POST
/// with a required JSON request body, and the parse succeeds whenever the
/// URL reads.
pub proof fn law_json_data_command_has_body(
    url: Seq<char>,
    flag: Seq<char>,
    value: Seq<char>,
    r: Result<ParsedCurlRequest, ParseError>,
)
    requires
        looks_like_url_spec(url),
        flag == "-d"@ || flag == "--data"@ || flag == "--data-raw"@ || flag == "--data-ascii"@,
        json_parse(value) is Ok,
        parse_outcome_ok(r, seq![url, flag, value]),
    ensures
        curl_request(seq![url, flag, value]) is Ok ==> r is Ok,
        r matches Ok(p) ==> p.method == HttpMethod::Post && (p.request_body matches Some(b) && b.content_type@
            == "application/json"@ && b.required),
{
    law_url_then_data_is_post(url, flag, value);
    reveal_strlit("application/json");
    reveal_strlit("json");
    if let Ok(req) = curl_request(seq![url, flag, value]) {
        let raw = req.raw;
        assert(raw.map_values(|x: (Seq<char>, bool)| x.0) =~= seq![value]);
        assert(joined_body(raw) == value);
        assert(!any_binary(raw));
        assert(last_header(req.headers, "Content-Type"@) is None);
        assert(resolved_content_type(value, None, false) == "application/json"@);
        assert(contains("application/json"@, "json"@)) by {
            assert("application/json"@.subrange(12, 16) =~= "json"@);
            assert(crate::text::occurs_at("application/json"@, "json"@, 12));
        }
    }
}

/// The flags as read by the parser.
pub struct CurlFlags {
    pub method: Option<HttpMethod>,
    pub headers: Vec<HeaderEntry>,
    pub raw: Vec<(String, bool)>,
    pub url: Option<String>,
    pub urlencoded: Vec<String>,
    pub forms: Vec<FormPart>,
}

pub open spec fn flags_view(f: CurlFlags) -> CurlScan {
    CurlScan {
        method: f.method,
        headers: header_views(f.headers@),
        raw: f.raw@.map_values(|x: (String, bool)| (x.0@, x.1)),
        url: opt_text(f.url),
        urlencoded: f.urlencoded@.map_values(|x: String| x@),
        forms: f.forms@.map_values(|x: FormPart| form_view(x)),
    }
}

fn missing(msg: &str) -> (r: Result<CurlFlags, ParseError>)
    ensures
        r matches Err(ParseError::ParseFailed(e)) && e@ == msg@,
{
    Err(ParseError::ParseFailed(msg.to_string()))
}

/// Reads the flags of a command's words (after `curl`).
pub fn scan_curl_flags(tokens: &Vec<String>) -> (r: Result<CurlFlags, ParseError>)
    ensures
        match scan_flags(word_views(tokens@), 0, empty_scan()) {
            Ok(st) => r matches Ok(f) && flags_view(f) == st,
            Err(m) => r matches Err(ParseError::ParseFailed(e)) && e@ == m,
        },
{
    let ghost words = word_views(tokens@);
    let mut f = CurlFlags {
        method: None,
        headers: Vec::new(),
        raw: Vec::new(),
        url: None,
        urlencoded: Vec::new(),
        forms: Vec::new(),
    };
    proof {
        assert(flags_view(f) =~= empty_scan()) by {
            assert(flags_view(f).headers =~= Seq::<(Seq<char>, Seq<char>)>::empty());
            assert(flags_view(f).raw =~= Seq::<(Seq<char>, bool)>::empty());
            assert(flags_view(f).urlencoded =~= Seq::<Seq<char>>::empty());
            assert(flags_view(f).forms =~= Seq::<FormSpec>::empty());
        }
    }
    let mut i: usize = 0;
    while i < tokens.len()
        invariant
            i <= tokens@.len() + 1,
            words == word_views(tokens@),
            scan_flags(words, 0, empty_scan()) == scan_flags(words, i as int, flags_view(f)),
        decreases tokens.len() + 1 - i,
    {
        let ghost st = flags_view(f);
        let t = chars_of(tokens[i].as_str());
        assert(t@ == words[i as int]);
        let has_next = i + 1 < tokens.len();
        if eq_str(&t, "-X") || eq_str(&t, "--request") {
            if !has_next {
                return missing("missing method after -X/--request");
            }
            assert(tokens@[i + 1]@ == words[i + 1]);
            match http_method_from_token(tokens[i + 1].as_str()) {
                Err(e) => return Err(e),
                Ok(m) => {
                    f.method = Some(m);
                },
            }
            i += 2;
        } else if eq_str(&t, "-H") || eq_str(&t, "--header") {
            if !has_next {
                return missing("missing header value after -H/--header");
            }
            assert(tokens@[i + 1]@ == words[i + 1]);
            if let Some((name, value)) = parse_header(tokens[i + 1].as_str()) {
                let ghost before = f.headers@;
                f.headers.push(HeaderEntry { name, value });
                proof {
                    assert(header_views(f.headers@) =~= header_views(before).push((name@, value@)));
                }
            }
            i += 2;
        } else if eq_str(&t, "-d") || eq_str(&t, "--data") || eq_str(&t, "--data-raw") || eq_str(&t, "--data-ascii")
            || eq_str(&t, "--data-binary") {
            if !has_next {
                return missing("missing request body after data flag");
            }
            assert(tokens@[i + 1]@ == words[i + 1]);
            let binary = eq_str(&t, "--data-binary");
            let ghost before = f.raw@;
            f.raw.push((tokens[i + 1].clone(), binary));
            proof {
                assert(f.raw@.map_values(|x: (String, bool)| (x.0@, x.1)) =~= before.map_values(
                    |x: (String, bool)| (x.0@, x.1),
                ).push((words[i + 1], binary)));
            }
            i += 2;
        } else if eq_str(&t, "--data-urlencode") {
            if !has_next {
                return missing("missing value after --data-urlencode");
            }
            assert(tokens@[i + 1]@ == words[i + 1]);
            let ghost before = f.urlencoded@;
            f.urlencoded.push(tokens[i + 1].clone());
            proof {
                assert(f.urlencoded@.map_values(|x: String| x@) =~= before.map_values(|x: String| x@).push(words[i + 1]));
            }
            i += 2;
        } else if eq_str(&t, "-F") || eq_str(&t, "--form") || eq_str(&t, "--form-string") {
            let literal = eq_str(&t, "--form-string");
            if !has_next {
                if literal {
                    return missing("missing value after --form-string");
                }
                return missing("missing value after -F/--form");
            }
            assert(tokens@[i + 1]@ == words[i + 1]);
            match parse_form_part(tokens[i + 1].as_str(), literal) {
                Err(e) => return Err(e),
                Ok(part) => {
                    let ghost before = f.forms@;
                    f.forms.push(part);
                    proof {
                        assert(f.forms@.map_values(|x: FormPart| form_view(x)) =~= before.map_values(
                            |x: FormPart| form_view(x),
                        ).push(form_view(part)));
                    }
                },
            }
            i += 2;
        } else if eq_str(&t, "-u") || eq_str(&t, "--user") {
            if !has_next {
                return missing("missing credential after -u/--user");
            }
            assert(tokens@[i + 1]@ == words[i + 1]);
            if !has_header(&f.headers, "Authorization") {
                let mut v = chars_of("Basic ");
                append_str(&mut v, tokens[i + 1].as_str());
                let ghost before = f.headers@;
                f.headers.push(HeaderEntry { name: "Authorization".to_string(), value: string_of(&v) });
                proof {
                    assert(header_views(f.headers@) =~= header_views(before).push(("Authorization"@, "Basic "@ + words[i + 1])));
                }
            }
            i += 2;
        } else if eq_str(&t, "-b") || eq_str(&t, "--cookie") {
            if !has_next {
                return missing("missing value after -b/--cookie");
            }
            assert(tokens@[i + 1]@ == words[i + 1]);
            if !has_header(&f.headers, "Cookie") {
                let ghost before = f.headers@;
                f.headers.push(HeaderEntry { name: "Cookie".to_string(), value: tokens[i + 1].clone() });
                proof {
                    assert(header_views(f.headers@) =~= header_views(before).push(("Cookie"@, words[i + 1])));
                }
            }
            i += 2;
        } else if eq_str(&t, "--url") {
            if !has_next {
                return missing("missing URL after --url");
            }
            assert(tokens@[i + 1]@ == words[i + 1]);
            f.url = Some(tokens[i + 1].clone());
            i += 2;
        } else if looks_like_url(tokens[i].as_str()) {
            f.url = Some(tokens[i].clone());
            i += 1;
        } else {
            i += 1;
        }
    }
    Ok(f)
}

// ---------------------------------------------------------------------
// From flags to a request

/// One `--data-urlencode` value as sent: `name=value` with both sides
/// encoded, or the whole value encoded.
pub open spec fn encoded_pair(raw: Seq<char>) -> Seq<char> {
    match find_char(raw, '=') {
        Some(i) => url_encoded(vstd::utf8::encode_utf8(raw.subrange(0, i))) + "="@ + url_encoded(
            vstd::utf8::encode_utf8(raw.subrange(i + 1, raw.len() as int)),
        ),
        None => url_encoded(vstd::utf8::encode_utf8(raw)),
    }
}

pub open spec fn encoded_pairs(v: Seq<Seq<char>>) -> Seq<Seq<char>> {
    v.map_values(|x: Seq<char>| encoded_pair(x))
}

/// The flags once `--data-urlencode` values (when no other data was given)
/// have become the form-encoded body, with its content type unless one was
/// set.
pub open spec fn with_urlencoded(st: CurlScan) -> CurlScan {
    if st.urlencoded.len() > 0 && st.raw.len() == 0 {
        CurlScan {
            raw: seq![(crate::text::join(encoded_pairs(st.urlencoded), "&"@), false)],
            headers: if has_header_spec(st.headers, "Content-Type"@) {
                st.headers
            } else {
                st.headers.push(("Content-Type"@, "application/x-www-form-urlencoded"@))
            },
            ..st
        }
    } else {
        st
    }
}

/// The URL's path and query pairs; a URL without a scheme and host is read
/// against `http://placeholder`.
pub open spec fn url_parts(u: Seq<char>) -> Result<(Seq<char>, Seq<(Seq<char>, Seq<char>)>), Seq<char>> {
    match url_parse(u) {
        Ok(p) => Ok(p),
        Err(_) => match url_parse("http://placeholder"@ + u) {
            Ok(p) => Ok(p),
            Err(e) => Err("failed to parse cURL URL: "@ + e),
        },
    }
}

/// A request read from a command, before its body is typed.
pub struct CurlRequestSpec {
    pub method: HttpMethod,
    pub path: Seq<char>,
    pub query: Seq<(Seq<char>, Seq<char>)>,
    pub headers: Seq<(Seq<char>, Seq<char>)>,
    pub raw: Seq<(Seq<char>, bool)>,
    pub forms: Seq<FormSpec>,
}

/// What a command's words (after `curl`) describe, or the error.
pub open spec fn curl_request(tokens: Seq<Seq<char>>) -> Result<CurlRequestSpec, Seq<char>> {
    match scan_flags(tokens, 0, empty_scan()) {
        Err(e) => Err(e),
        Ok(st0) => if st0.forms.len() > 0 && (st0.raw.len() > 0 || st0.urlencoded.len() > 0) {
            Err("multipart form flags cannot be combined with data body flags"@)
        } else {
            let st = with_urlencoded(st0);
            match st.url {
                None => Err("cURL input is missing a URL"@),
                Some(u) => match url_parts(u) {
                    Err(e) => Err(e),
                    Ok(p) => Ok(
                        CurlRequestSpec {
                            method: match st.method {
                                Some(m) => m,
                                None => if st.raw.len() > 0 || st.forms.len() > 0 {
                                    HttpMethod::Post
                                } else {
                                    HttpMethod::Get
                                },
                            },
                            path: p.0,
                            query: p.1,
                            headers: st.headers,
                            raw: st.raw,
                            forms: st.forms,
                        },
                    ),
                },
            }
        },
    }
}

/// The headers kept as parameters: all but `Content-Type`.
pub open spec fn header_params(h: Seq<(Seq<char>, Seq<char>)>) -> Seq<(Seq<char>, Seq<char>)>
    decreases h.len(),
{
    if h.len() == 0 {
        Seq::empty()
    } else if is_protocol_header_spec(h.last().0) {
        header_params(h.drop_last())
    } else {
        header_params(h.drop_last()).push(h.last())
    }
}

/// An optional string parameter whose schema's example is its value.
pub open spec fn string_param(p: CanonicalParameter, name: Seq<char>, loc: ParameterLocation, value: Seq<char>) -> bool {
    p.name@ == name && p.location == loc && p.description is None && !p.required && string_example_schema(p.schema, value)
        && !p.schema.required
}

/// The query pairs, then the kept headers, as parameters.
pub open spec fn params_ok(ps: Seq<CanonicalParameter>, req: CurlRequestSpec) -> bool {
    let hp = header_params(req.headers);
    &&& ps.len() == req.query.len() + hp.len()
    &&& forall|i: int|
        0 <= i < req.query.len() ==> string_param(
            #[trigger] ps[i],
            req.query[i].0,
            ParameterLocation::Query,
            req.query[i].1,
        )
    &&& forall|j: int|
        0 <= j < hp.len() ==> string_param(
            #[trigger] ps[req.query.len() + j],
            hp[j].0,
            ParameterLocation::Header,
            hp[j].1,
        )
}

/// The data values joined by `&`.
pub open spec fn joined_body(raw: Seq<(Seq<char>, bool)>) -> Seq<char> {
    crate::text::join(raw.map_values(|x: (Seq<char>, bool)| x.0), "&"@)
}

pub open spec fn any_binary(raw: Seq<(Seq<char>, bool)>) -> bool {
    exists|i: int| 0 <= i < raw.len() && (#[trigger] raw[i]).1
}

/// The content type of a data body: the `Content-Type` header, else
/// octet-stream for binary data, JSON for text that parses as JSON, else
/// plain text.
pub open spec fn resolved_content_type(body: Seq<char>, ct: Option<Seq<char>>, binary: bool) -> Seq<char> {
    match ct {
        Some(c) => c,
        None => if binary {
            "application/octet-stream"@
        } else if json_parse(body) is Ok {
            "application/json"@
        } else {
            "text/plain"@
        },
    }
}

/// Whether a data body is read as JSON.
pub open spec fn body_is_json(body: Seq<char>, ct: Option<Seq<char>>, binary: bool) -> bool {
    !(binary && is_file_reference(body)) && contains(resolved_content_type(body, ct, binary), "json"@)
}

/// The schema of a data body: a binary upload for a file reference or
/// other binary data, the inferred schema of a JSON body, else a string
/// with the body as example.
pub open spec fn body_schema_ok(s: SchemaNode, body: Seq<char>, ct: Option<Seq<char>>, binary: bool) -> bool {
    if body_is_json(body, ct, binary) {
        match json_parse(body) {
            Ok(j) => exists|v: JsonValue| view_json(v) == j && inferred_schema(v, s, false),
            Err(_) => false,
        }
    } else if binary {
        binary_example_schema(s, body, None) && !s.required
    } else {
        string_example_schema(s, body) && !s.required
    }
}

/// A data body that does not parse although it is read as JSON.
pub open spec fn body_error(body: Seq<char>, ct: Option<Seq<char>>, binary: bool) -> Option<Seq<char>> {
    if body_is_json(body, ct, binary) {
        match json_parse(body) {
            Err(e) => Some("failed to parse JSON request body: "@ + e),
            Ok(_) => None,
        }
    } else {
        None
    }
}

fn canonical_request_body(body: &str, content_type: Option<String>, binary: bool) -> (r: Result<
    CanonicalRequestBody,
    ParseError,
>)
    ensures
        match body_error(body@, opt_text(content_type), binary) {
            Some(m) => r matches Err(ParseError::ParseFailed(e)) && e@ == m,
            None => r matches Ok(b) && b.content_type@ == resolved_content_type(body@, opt_text(content_type), binary)
                && b.required && body_schema_ok(b.schema, body@, opt_text(content_type), binary),
        },
{
    let resolved: String = match content_type {
        Some(c) => c,
        None => if binary {
            "application/octet-stream".to_string()
        } else if parse_json(body).is_ok() {
            "application/json".to_string()
        } else {
            "text/plain".to_string()
        },
    };
    let rc = chars_of(resolved.as_str());
    let file_ref = is_curl_file_reference(body);
    proof {
        lemma_find_from(rc@, "json"@, 0);
    }
    let schema = if binary && file_ref {
        binary_schema_with_example(body, None)
    } else if crate::text::contains_of(&rc, &chars_of("json")) {
        match parse_json(body) {
            Ok(v) => schema_from_json_value(&v),
            Err(e) => {
                let mut m = chars_of("failed to parse JSON request body: ");
                append_str(&mut m, e.as_str());
                return Err(ParseError::ParseFailed(string_of(&m)));
            },
        }
    } else if binary {
        binary_schema_with_example(body, None)
    } else {
        string_schema_with_example(body)
    };
    Ok(CanonicalRequestBody { content_type: resolved, required: true, schema })
}

/// Where `key` goes among key-ordered names.
pub open spec fn vinsert_pos(m: Seq<(Seq<char>, int)>, key: Seq<char>) -> int
    decreases m.len(),
{
    if m.len() == 0 {
        0
    } else if crate::text::seq_lt(m[0].0, key) {
        1 + vinsert_pos(m.subrange(1, m.len() as int), key)
    } else {
        0
    }
}

pub open spec fn vmap_insert(m: Seq<(Seq<char>, int)>, key: Seq<char>, j: int) -> Seq<(Seq<char>, int)> {
    let p = vinsert_pos(m, key);
    if p < m.len() && m[p].0 == key {
        m.update(p, (key, j))
    } else {
        m.insert(p, (key, j))
    }
}

/// The form fields' names in key order, each with the index of the last
/// field of that name (the one whose schema the body keeps).
pub open spec fn form_keys(forms: Seq<FormSpec>) -> Seq<(Seq<char>, int)>
    decreases forms.len(),
{
    if forms.len() == 0 {
        Seq::empty()
    } else {
        vmap_insert(form_keys(forms.drop_last()), forms.last().name, forms.len() - 1)
    }
}

/// The required property schema of one form field.
pub open spec fn form_child_ok(s: SchemaNode, f: FormSpec) -> bool {
    s.required && if f.is_file {
        binary_example_schema(s, f.value, f.content_type)
    } else {
        string_example_schema(s, f.value)
    }
}

pub open spec fn multipart_props_ok(props: Seq<(String, SchemaNode)>, forms: Seq<FormSpec>) -> bool {
    let fk = form_keys(forms);
    &&& props.len() == fk.len()
    &&& forall|i: int|
        0 <= i < props.len() ==> (#[trigger] props[i]).0@ == fk[i].0 && 0 <= fk[i].1 < forms.len()
            && form_child_ok(props[i].1, forms[fk[i].1])
}

/// The schema of a multipart body: an object with one required property
/// per field name.
pub open spec fn multipart_schema_ok(s: SchemaNode, forms: Seq<FormSpec>) -> bool {
    &&& s.node_type == SchemaNodeType::Object
    &&& !s.required
    &&& !s.nullable
    &&& s.items is None
    &&& s.example is None
    &&& crate::parser::detect::unconstrained(s)
    &&& multipart_props_ok(s.properties@, forms)
}

proof fn lemma_pos_corr(props: Seq<(String, SchemaNode)>, fk: Seq<(Seq<char>, int)>, key: Seq<char>)
    requires
        props.len() == fk.len(),
        forall|i: int| 0 <= i < props.len() ==> (#[trigger] props[i]).0@ == fk[i].0,
    ensures
        crate::assoc::insert_pos(props, key) == vinsert_pos(fk, key),
        0 <= vinsert_pos(fk, key) <= fk.len(),
    decreases props.len(),
{
    if props.len() > 0 {
        let a = props.subrange(1, props.len() as int);
        let b = fk.subrange(1, fk.len() as int);
        assert forall|i: int| 0 <= i < a.len() implies (#[trigger] a[i]).0@ == b[i].0 by {
            assert(a[i] == props[i + 1]);
            assert(b[i] == fk[i + 1]);
        }
        assert(props[0].0@ == fk[0].0);
        lemma_pos_corr(a, b, key);
    }
}

fn multipart_request_body(parts: &Vec<FormPart>, content_type: Option<String>) -> (r: CanonicalRequestBody)
    ensures
        r.content_type@ == match opt_text(content_type) {
            Some(c) => c,
            None => "multipart/form-data"@,
        },
        r.required,
        multipart_schema_ok(r.schema, parts@.map_values(|x: FormPart| form_view(x))),
{
    let ghost forms = parts@.map_values(|x: FormPart| form_view(x));
    let mut props: Vec<(String, SchemaNode)> = Vec::new();
    let mut j: usize = 0;
    while j < parts.len()
        invariant
            j <= parts@.len(),
            forms == parts@.map_values(|x: FormPart| form_view(x)),
            multipart_props_ok(props@, forms.subrange(0, j as int)),
        decreases parts.len() - j,
    {
        let part = &parts[j];
        let mut child = if part.is_file {
            binary_schema_with_example(
                part.value.as_str(),
                match &part.content_type {
                    Some(t) => Some(t.as_str()),
                    None => None,
                },
            )
        } else {
            string_schema_with_example(part.value.as_str())
        };
        child.required = true;
        let ghost before = props@;
        let ghost fk = form_keys(forms.subrange(0, j as int));
        let ghost next = forms.subrange(0, j + 1);
        proof {
            assert(next.drop_last() =~= forms.subrange(0, j as int));
            assert(next.last() == form_view(*part));
            assert(form_child_ok(child, forms[j as int]));
            lemma_pos_corr(before, fk, part.name@);
        }
        crate::assoc::entries_insert(&mut props, part.name.clone(), child);
        proof {
            let fk2 = form_keys(next);
            assert(fk2 == vmap_insert(fk, part.name@, j as int));
            let p = vinsert_pos(fk, part.name@);
            assert forall|i: int| 0 <= i < props@.len() implies (#[trigger] props@[i]).0@ == fk2[i].0 && 0 <= fk2[i].1
                < next.len() && form_child_ok(props@[i].1, next[fk2[i].1]) by {
                if p < fk.len() && fk[p].0 == part.name@ {
                    if i != p {
                        assert(props@[i] == before[i]);
                        assert(fk2[i] == fk[i]);
                        assert(next[fk[i].1] == forms[fk[i].1]);
                    }
                } else {
                    if i < p {
                        assert(props@[i] == before[i]);
                        assert(fk2[i] == fk[i]);
                        assert(next[fk[i].1] == forms[fk[i].1]);
                    } else if i > p {
                        assert(props@[i] == before[i - 1]);
                        assert(fk2[i] == fk[i - 1]);
                        assert(next[fk[i - 1].1] == forms[fk[i - 1].1]);
                    }
                }
            }
        }
        j += 1;
    }
    proof {
        assert(forms.subrange(0, parts@.len() as int) =~= forms);
    }
    let mut schema = SchemaNode::object();
    schema.properties = props;
    let ct = match content_type {
        Some(c) => c,
        None => "multipart/form-data".to_string(),
    };
    CanonicalRequestBody { content_type: ct, required: true, schema }
}

/// A request read from a cURL command.
pub struct ParsedCurlRequest {
    pub method: HttpMethod,
    pub path: String,
    pub parameters: Vec<CanonicalParameter>,
    pub request_body: Option<CanonicalRequestBody>,
}

/// `p` carries the method, path and parameters of `req`.
pub open spec fn parsed_basics(p: ParsedCurlRequest, req: CurlRequestSpec) -> bool {
    p.method == req.method && p.path@ == req.path && params_ok(p.parameters@, req)
}

/// What the parser returns for a command's words (after `curl`).
pub open spec fn parse_outcome_ok(r: Result<ParsedCurlRequest, ParseError>, tokens: Seq<Seq<char>>) -> bool {
    match curl_request(tokens) {
        Err(m) => r matches Err(ParseError::ParseFailed(e)) && e@ == m,
        Ok(req) => {
            let ct = last_header(req.headers, "Content-Type"@);
            let body = joined_body(req.raw);
            let binary = any_binary(req.raw);
            match r {
                Err(ParseError::ParseFailed(e)) => req.forms.len() == 0 && req.raw.len() > 0 && body_error(
                    body,
                    ct,
                    binary,
                ) == Some(e@),
                Err(_) => false,
                Ok(p) => parsed_basics(p, req) && if req.forms.len() > 0 {
                    match p.request_body {
                        Some(b) => b.content_type@ == (match ct {
                            Some(c) => c,
                            None => "multipart/form-data"@,
                        }) && b.required && multipart_schema_ok(b.schema, req.forms),
                        None => false,
                    }
                } else if req.raw.len() == 0 {
                    p.request_body is None
                } else {
                    body_error(body, ct, binary) is None && match p.request_body {
                        Some(b) => b.content_type@ == resolved_content_type(body, ct, binary) && b.required
                            && body_schema_ok(b.schema, body, ct, binary),
                        None => false,
                    }
                },
            }
        },
    }
}

fn join_with_amp(parts: &Vec<String>) -> (r: Vec<char>)
    ensures
        r@ == crate::text::join(parts@.map_values(|x: String| x@), "&"@),
{
    let mut out: Vec<char> = Vec::new();
    let mut i: usize = 0;
    while i < parts.len()
        invariant
            i <= parts@.len(),
            out@ == crate::text::join(parts@.subrange(0, i as int).map_values(|x: String| x@), "&"@),
        decreases parts.len() - i,
    {
        proof {
            reveal_strlit("&");
            let a = parts@.subrange(0, i + 1).map_values(|x: String| x@);
            assert(a.drop_last() =~= parts@.subrange(0, i as int).map_values(|x: String| x@));
        }
        if i > 0 {
            out.push('&');
        }
        append_str(&mut out, parts[i].as_str());
        i += 1;
    }
    proof {
        assert(parts@.subrange(0, parts@.len() as int) =~= parts@);
    }
    out
}

fn encode_pair_of(raw: &str) -> (r: String)
    ensures
        r@ == encoded_pair(raw@),
{
    let c = chars_of(raw);
    proof {
        lemma_find_from(c@, seq!['='], 0);
    }
    match find_char_of(&c, '=') {
        Some(i) => {
            assert(i < c.len());
            let k = string_of(&slice(&c, 0, i));
            let v = string_of(&slice(&c, i + 1, c.len()));
            let mut out = chars_of(urlencoding_encode(k.as_str()).as_str());
            out.push('=');
            append_str(&mut out, urlencoding_encode(v.as_str()).as_str());
            proof {
                reveal_strlit("=");
                assert(out@ =~= encoded_pair(raw@));
            }
            string_of(&out)
        },
        None => urlencoding_encode(raw),
    }
}

/// Reads a command's words (after `curl`) into a request (see
/// `parse_outcome_ok`).
pub fn parse_curl_tokens(tokens: &Vec<String>) -> (r: Result<ParsedCurlRequest, ParseError>)
    ensures
        parse_outcome_ok(r, word_views(tokens@)),
{
    let mut f = match scan_curl_flags(tokens) {
        Err(e) => return Err(e),
        Ok(f) => f,
    };
    let ghost st0 = flags_view(f);
    if f.forms.len() > 0 && (f.raw.len() > 0 || f.urlencoded.len() > 0) {
        return Err(ParseError::ParseFailed("multipart form flags cannot be combined with data body flags".to_string()));
    }
    if f.urlencoded.len() > 0 && f.raw.len() == 0 {
        let mut encoded: Vec<String> = Vec::new();
        let mut i: usize = 0;
        while i < f.urlencoded.len()
            invariant
                i <= f.urlencoded@.len(),
                encoded@.map_values(|x: String| x@) =~= encoded_pairs(
                    f.urlencoded@.map_values(|x: String| x@),
                ).subrange(0, i as int),
            decreases f.urlencoded.len() - i,
        {
            let ghost before = encoded@;
            encoded.push(encode_pair_of(f.urlencoded[i].as_str()));
            proof {
                assert(encoded@.map_values(|x: String| x@) =~= before.map_values(|x: String| x@).push(
                    encoded_pair(f.urlencoded@[i as int]@),
                ));
            }
            i += 1;
        }
        let body = string_of(&join_with_amp(&encoded));
        proof {
            assert(encoded@.map_values(|x: String| x@) =~= encoded_pairs(st0.urlencoded));
        }
        f.raw.push((body, false));
        if !has_header(&f.headers, "Content-Type") {
            let ghost before = f.headers@;
            f.headers.push(HeaderEntry { name: "Content-Type".to_string(), value: "application/x-www-form-urlencoded".to_string() });
            proof {
                assert(header_views(f.headers@) =~= header_views(before).push(("Content-Type"@, "application/x-www-form-urlencoded"@)));
            }
        }
        proof {
            assert(flags_view(f).raw =~= with_urlencoded(st0).raw);
        }
    }
    let ghost st = flags_view(f);
    assert(st == with_urlencoded(st0));
    let url = match &f.url {
        None => return Err(ParseError::ParseFailed("cURL input is missing a URL".to_string())),
        Some(u) => u,
    };
    let (path, query) = match parse_url(url.as_str()) {
        Ok(p) => p,
        Err(_) => {
            let mut alt = chars_of("http://placeholder");
            append_str(&mut alt, url.as_str());
            let alt_s = string_of(&alt);
            match parse_url(alt_s.as_str()) {
                Ok(p) => p,
                Err(e) => {
                    let mut m = chars_of("failed to parse cURL URL: ");
                    append_str(&mut m, e.as_str());
                    return Err(ParseError::ParseFailed(string_of(&m)));
                },
            }
        },
    };
    let method = match f.method {
        Some(m) => m,
        None => if f.raw.len() > 0 || f.forms.len() > 0 {
            HttpMethod::Post
        } else {
            HttpMethod::Get
        },
    };
    let ghost req = curl_request(word_views(tokens@))->Ok_0;
    let mut parameters: Vec<CanonicalParameter> = Vec::new();
    let mut i: usize = 0;
    while i < query.len()
        invariant
            i <= query@.len(),
            parameters@.len() == i,
            forall|k: int|
                0 <= k < i ==> string_param(
                    #[trigger] parameters@[k],
                    query@[k].0@,
                    ParameterLocation::Query,
                    query@[k].1@,
                ),
        decreases query.len() - i,
    {
        parameters.push(CanonicalParameter {
            name: query[i].0.clone(),
            location: ParameterLocation::Query,
            description: None,
            required: false,
            schema: string_schema_with_example(query[i].1.as_str()),
        });
        i += 1;
    }
    let ghost qn = query@.len();
    let mut j: usize = 0;
    while j < f.headers.len()
        invariant
            j <= f.headers@.len(),
            parameters@.len() == qn + header_params(header_views(f.headers@).subrange(0, j as int)).len(),
            forall|k: int|
                0 <= k < qn ==> string_param(
                    #[trigger] parameters@[k],
                    query@[k].0@,
                    ParameterLocation::Query,
                    query@[k].1@,
                ),
            forall|k: int|
                0 <= k < header_params(header_views(f.headers@).subrange(0, j as int)).len() ==> string_param(
                    #[trigger] parameters@[qn + k],
                    header_params(header_views(f.headers@).subrange(0, j as int))[k].0,
                    ParameterLocation::Header,
                    header_params(header_views(f.headers@).subrange(0, j as int))[k].1,
                ),
        decreases f.headers.len() - j,
    {
        let ghost hv = header_views(f.headers@);
        proof {
            assert(hv.subrange(0, j + 1).drop_last() =~= hv.subrange(0, j as int));
        }
        if !is_protocol_header(f.headers[j].name.as_str()) {
            let ghost before = parameters@;
            parameters.push(CanonicalParameter {
                name: f.headers[j].name.clone(),
                location: ParameterLocation::Header,
                description: None,
                required: false,
                schema: string_schema_with_example(f.headers[j].value.as_str()),
            });
            proof {
                assert forall|k: int| 0 <= k < qn implies string_param(
                    #[trigger] parameters@[k],
                    query@[k].0@,
                    ParameterLocation::Query,
                    query@[k].1@,
                ) by {
                    assert(parameters@[k] == before[k]);
                }
                let hp = header_params(hv.subrange(0, j + 1));
                assert forall|k: int| 0 <= k < hp.len() implies string_param(
                    #[trigger] parameters@[qn + k],
                    hp[k].0,
                    ParameterLocation::Header,
                    hp[k].1,
                ) by {
                    if k < hp.len() - 1 {
                        assert(parameters@[qn + k] == before[qn + k]);
                    }
                }
            }
        }
        j += 1;
    }
    proof {
        assert(header_views(f.headers@).subrange(0, f.headers@.len() as int) =~= header_views(f.headers@));
        assert(query@.map_values(|x: (String, String)| (x.0@, x.1@)) == req.query);
        assert forall|k: int| 0 <= k < req.query.len() implies string_param(
            #[trigger] parameters@[k],
            req.query[k].0,
            ParameterLocation::Query,
            req.query[k].1,
        ) by {
            assert(req.query[k] == (query@[k].0@, query@[k].1@));
        }
    }
    let content_type = last_header_value(&f.headers, "Content-Type");
    let request_body = if f.forms.len() > 0 {
        Some(multipart_request_body(&f.forms, content_type))
    } else if f.raw.len() == 0 {
        None
    } else {
        let mut values: Vec<String> = Vec::new();
        let mut binary = false;
        let mut k: usize = 0;
        while k < f.raw.len()
            invariant
                k <= f.raw@.len(),
                values@.map_values(|x: String| x@) =~= st.raw.map_values(|x: (Seq<char>, bool)| x.0).subrange(0, k as int),
                st.raw == f.raw@.map_values(|x: (String, bool)| (x.0@, x.1)),
                binary == exists|m: int| 0 <= m < k && (#[trigger] st.raw[m]).1,
            decreases f.raw.len() - k,
        {
            let ghost before = values@;
            values.push(f.raw[k].0.clone());
            proof {
                assert(values@.map_values(|x: String| x@) =~= before.map_values(|x: String| x@).push(st.raw[k as int].0));
                assert(st.raw[k as int].1 == f.raw@[k as int].1);
            }
            binary = binary || f.raw[k].1;
            k += 1;
        }
        proof {
            assert(st.raw.map_values(|x: (Seq<char>, bool)| x.0).subrange(0, st.raw.len() as int) =~= st.raw.map_values(
                |x: (Seq<char>, bool)| x.0,
            ));
        }
        let body = string_of(&join_with_amp(&values));
        match canonical_request_body(body.as_str(), content_type, binary) {
            Ok(b) => Some(b),
            Err(e) => return Err(e),
        }
    };
    Ok(ParsedCurlRequest { method, path, parameters, request_body })
}

/// The collection name of an unnamed import: the path without its outer
/// slashes, inner slashes as dashes.
pub open spec fn name_from_path(path: Seq<char>) -> Seq<char> {
    replace_char(trim_char(path, '/'), '/', '-')
}

/// The one endpoint of a cURL import.
pub open spec fn curl_endpoint_ok(e: CanonicalEndpoint, p: ParsedCurlRequest) -> bool {
    &&& e.operation_id is None
    &&& e.method == p.method
    &&& e.path == p.path
    &&& opt_text(e.summary) == Some("Imported cURL request"@)
    &&& opt_text(e.description) == Some("Canonical endpoint generated from cURL input."@)
    &&& e.tags@.len() == 1 && e.tags@[0]@ == "curl-import"@
    &&& e.parameters == p.parameters
    &&& e.request_body == p.request_body
    &&& e.responses@.len() == 1
    &&& e.responses@[0].status_code@ == "200"@
    &&& opt_text(e.responses@[0].description) == Some("Default response placeholder for cURL imports."@)
    &&& e.responses@[0].content_type@ == "application/json"@
    &&& e.responses@[0].schema is None
    &&& e.auth is None
    &&& crate::synth::synthesized(e.responses@, e.examples@)
}

/// The collection of a cURL import.
pub open spec fn curl_collection_ok(c: CanonicalApiCollection, source: ParseSource, p: ParsedCurlRequest) -> bool {
    &&& c.id@ == canonical_id_spec(
        match source.name {
            Some(n) => n@,
            None => "imported-curl-request"@,
        },
    )
    &&& c.name@ == match source.name {
        Some(n) => n@,
        None => name_from_path(p.path@),
    }
    &&& c.source == InputSourceKind::Curl
    &&& opt_text(c.description) == Some("Imported from cURL"@)
    &&& c.endpoints@.len() == 1
    &&& curl_endpoint_ok(c.endpoints@[0], p)
}

/// What the cURL importer gives for a source.
pub open spec fn curl_parsed(source: ParseSource, r: Result<CanonicalApiCollection, ParseError>) -> bool {
    match shlex_words(normalized_command(source.body@)) {
        None => r matches Err(ParseError::ParseFailed(m)) && m@ == "failed to tokenize cURL input"@,
        Some(ws) => if ws.len() == 0 || ws[0] != "curl"@ {
            r matches Err(ParseError::InvalidSource(m)) && m@ == "cURL input should begin with the curl command"@
        } else {
            exists|pr: Result<ParsedCurlRequest, ParseError>|
                parse_outcome_ok(pr, ws.subrange(1, ws.len() as int)) && match pr {
                    Err(e) => r == Err::<CanonicalApiCollection, ParseError>(e),
                    Ok(p) => r matches Ok(c) && curl_collection_ok(c, source, p),
                }
        },
    }
}

/// The cURL parser.
#[derive(Debug, Default)]
pub struct CurlParser;

impl ApiParser for CurlParser {
    fn kind(&self) -> (k: InputSourceKind)
        ensures
            k == InputSourceKind::Curl,
    {
        InputSourceKind::Curl
    }

    /// Splits the command into words (line continuations and line breaks
    /// count as spaces), checks that it is a `curl` command, reads the
    /// request and wraps it as a collection of one endpoint with synthesized
    /// examples and a `200` placeholder response.
    fn parse(&self, source: ParseSource) -> (r: Result<CanonicalApiCollection, ParseError>)
        ensures
            curl_parsed(source, r),
    {
        let normalized = string_of(&normalize_command(source.body.as_str()));
        let mut words = match split_words(normalized.as_str()) {
            None => return Err(ParseError::ParseFailed("failed to tokenize cURL input".to_string())),
            Some(w) => w,
        };
        let ghost ws = word_views(words@);
        if words.len() == 0 || !eq_str(&chars_of(words[0].as_str()), "curl") {
            proof {
                if words@.len() > 0 {
                    assert(ws[0] == words@[0]@);
                }
            }
            return Err(ParseError::InvalidSource("cURL input should begin with the curl command".to_string()));
        }
        proof {
            assert(ws[0] == words@[0]@);
        }
        words.remove(0);
        proof {
            assert(word_views(words@) =~= ws.subrange(1, ws.len() as int));
        }
        let pr = parse_curl_tokens(&words);
        let parsed = match pr {
            Err(e) => return Err(e),
            Ok(p) => p,
        };
        let name = match &source.name {
            Some(n) => n.clone(),
            None => string_of(&replace_char_of(&trim_char_of(&chars_of(parsed.path.as_str()), '/'), '/', '-')),
        };
        let id = match &source.name {
            Some(n) => canonical_id(n.as_str()),
            None => canonical_id("imported-curl-request"),
        };
        let ghost pv = parsed;
        let mut endpoint = CanonicalEndpoint {
            operation_id: None,
            method: parsed.method,
            path: parsed.path,
            summary: Some("Imported cURL request".to_string()),
            description: Some("Canonical endpoint generated from cURL input.".to_string()),
            tags: vec!["curl-import".to_string()],
            parameters: parsed.parameters,
            request_body: parsed.request_body,
            responses: vec![
                CanonicalResponse {
                    status_code: "200".to_string(),
                    description: Some("Default response placeholder for cURL imports.".to_string()),
                    content_type: "application/json".to_string(),
                    schema: None,
                },
            ],
            examples: Vec::new(),
            auth: None,
        };
        endpoint.examples = crate::synth::synthesize_examples(&endpoint);
        let collection = CanonicalApiCollection {
            id,
            name,
            source: InputSourceKind::Curl,
            description: Some("Imported from cURL".to_string()),
            endpoints: vec![endpoint],
        };
        proof {
            assert(curl_collection_ok(collection, source, pv));
        }
        Ok(collection)
    }
}

} // verus!
