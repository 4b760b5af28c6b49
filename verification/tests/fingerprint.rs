use albert::fingerprint::{normalize_request_snapshot, request_fingerprint};
use albert::json::{JsonNumber, JsonValue};

fn s(v: &str) -> JsonValue {
    JsonValue::String(v.to_string())
}

fn obj(entries: Vec<(&str, JsonValue)>) -> JsonValue {
    JsonValue::Object(entries.into_iter().map(|(k, v)| (k.to_string(), v)).collect())
}

fn fnv_hex(text: &str) -> String {
    let mut hash: u64 = 0xcbf29ce484222325;
    for b in text.as_bytes() {
        hash ^= *b as u64;
        hash = hash.wrapping_mul(0x100000001b3);
    }
    format!("{hash:016x}")
}

#[test]
fn snapshot_headers_are_lowercased_and_redacted() {
    let snap = obj(vec![
        ("body", JsonValue::Null),
        ("headers", obj(vec![("Authorization", s("Bearer x")), ("X-Trace", s("abc"))])),
        ("query", s("a=1")),
    ]);
    let normalized = normalize_request_snapshot(&snap);
    match &normalized {
        JsonValue::Object(m) => {
            assert_eq!(m[1].0, "headers");
            match &m[1].1 {
                JsonValue::Object(h) => {
                    assert_eq!(h[0].0, "authorization");
                    assert!(matches!(&h[0].1, JsonValue::String(t) if t == "<redacted>"));
                    assert_eq!(h[1].0, "x-trace");
                    assert!(matches!(&h[1].1, JsonValue::String(t) if t == "abc"));
                },
                _ => panic!("headers stay an object"),
            }
        },
        _ => panic!("snapshot stays an object"),
    }
}

#[test]
fn fingerprint_hashes_the_canonical_text() {
    let snap = obj(vec![("headers", obj(vec![("Cookie", s("sid=1")), ("Accept", s("*/*"))]))]);
    let fp = request_fingerprint(" get ", " /users ", &snap).unwrap();
    let expected = fnv_hex("{\"method\":\"GET\",\"path\":\"/users\",\"request\":{\"headers\":{\"accept\":\"*/*\",\"cookie\":\"<redacted>\"}}}");
    assert_eq!(fp, expected);
    assert_eq!(fp.len(), 16);
}

#[test]
fn fingerprint_ignores_credentials_and_header_case() {
    let a = obj(vec![("headers", obj(vec![("X-Api-Token", s("one")), ("X-Id", s("7"))]))]);
    let b = obj(vec![("headers", obj(vec![("x-api-token", s("two")), ("x-id", s("7"))]))]);
    assert_eq!(request_fingerprint("POST", "/a", &a).unwrap(), request_fingerprint("post", "/a", &b).unwrap());
    let c = obj(vec![("headers", obj(vec![("x-id", s("8"))]))]);
    assert_ne!(request_fingerprint("POST", "/a", &a).unwrap(), request_fingerprint("POST", "/a", &c).unwrap());
}

#[test]
fn non_object_snapshots_are_kept() {
    let n = JsonValue::Number(JsonNumber::PosInt(3));
    assert!(matches!(normalize_request_snapshot(&n), JsonValue::Number(JsonNumber::PosInt(3))));
}

#[test]
fn fingerprint_is_sixteen_lower_hex_digits_and_hides_cookies() {
    let a = obj(vec![("headers", obj(vec![("Cookie", s("session=1")), ("Accept", s("*/*"))]))]);
    let b = obj(vec![("headers", obj(vec![("Cookie", s("session=2")), ("Accept", s("*/*"))]))]);
    let fa = request_fingerprint("get", "/x", &a).unwrap();
    let fb = request_fingerprint("get", "/x", &b).unwrap();
    assert_eq!(fa, fb);
    assert_eq!(fa.len(), 16);
    assert!(fa.chars().all(|c| c.is_ascii_digit() || ('a'..='f').contains(&c)));
}

#[test]
fn normalizing_twice_changes_nothing() {
    let snap = obj(vec![
        ("headers", obj(vec![("Authorization", s("Bearer x")), ("X-Trace", s("1"))])),
        ("query", obj(vec![("b", s("2")), ("a", s("1"))])),
    ]);
    let once = normalize_request_snapshot(&snap);
    let twice = normalize_request_snapshot(&once);
    assert_eq!(format!("{:?}", once), format!("{:?}", twice));
    assert_eq!(
        request_fingerprint("GET", "/x", &once).unwrap(),
        request_fingerprint(" get ", " /x ", &snap).unwrap()
    );
}
