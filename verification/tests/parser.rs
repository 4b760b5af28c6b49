use albert::json::JsonValue;
use albert::model::{HttpMethod, InputSourceKind, ParameterLocation, SchemaNodeType};
use albert::parser::curl::{canonical_id, urlencoding_encode, CurlParser};
use albert::parser::detect::{detect_parser, ApiParser, ParseError, ParseSource};

fn parse_curl(body: &str) -> Result<albert::canonical::CanonicalApiCollection, ParseError> {
    CurlParser.parse(ParseSource { name: None, body: body.to_string() })
}

fn prop<'a>(s: &'a albert::canonical::SchemaNode, name: &str) -> &'a albert::canonical::SchemaNode {
    &s.properties.iter().find(|(k, _)| k == name).unwrap().1
}

fn example_text(s: &albert::canonical::SchemaNode) -> Option<&str> {
    match &s.example {
        Some(JsonValue::String(t)) => Some(t.as_str()),
        _ => None,
    }
}

#[test]
fn detects_openapi_json_sources() {
    let input = r#"{"openapi":"3.0.3","info":{"title":"Demo","version":"1.0.0"},"paths":{}}"#;
    assert_eq!(detect_parser(input).unwrap(), InputSourceKind::OpenApi);
}

#[test]
fn detects_openapi_yaml_sources() {
    let input = "openapi: 3.0.3\ninfo:\n  title: Demo\n  version: 1.0.0\npaths: {}\n";
    assert_eq!(detect_parser(input).unwrap(), InputSourceKind::OpenApi);
}

#[test]
fn rejects_unknown_input_sources() {
    let error = detect_parser("not a supported format").unwrap_err();
    assert!(matches!(error, ParseError::UnsupportedInput));
}

#[test]
fn detects_curl_after_leading_whitespace() {
    assert_eq!(detect_parser("  \n curl https://x.test/a").unwrap(), InputSourceKind::Curl);
    assert!(detect_parser("curly braces").is_err());
}

#[test]
fn parses_curl_fixture_into_canonical_collection() {
    let body = "curl -X POST https://api.example.com/api/orders \\\n  -H 'Content-Type: application/json' \\\n  -H 'Authorization: Bearer token' \\\n  -d '{\"customer_id\":\"cus_123\",\"items\":[{\"sku\":\"sku_1\",\"quantity\":2}]}'\n";
    let collection = parse_curl(body).unwrap();
    assert_eq!(collection.source, InputSourceKind::Curl);
    assert_eq!(collection.endpoints.len(), 1);
    let endpoint = &collection.endpoints[0];
    assert_eq!(endpoint.method, HttpMethod::Post);
    assert_eq!(endpoint.path, "/api/orders");
    let schema = &endpoint.request_body.as_ref().unwrap().schema;
    assert_eq!(prop(schema, "customer_id").node_type, SchemaNodeType::String);
    assert_eq!(prop(schema, "items").node_type, SchemaNodeType::Array);
}

#[test]
fn parses_curl_query_and_infers_get_without_body() {
    let collection =
        parse_curl(r#"curl "https://api.example.com/orders?status=pending&page=2" -H "Accept: application/json""#)
            .unwrap();
    let endpoint = &collection.endpoints[0];
    assert_eq!(endpoint.method, HttpMethod::Get);
    assert_eq!(endpoint.parameters.len(), 3);
    assert!(endpoint.parameters.iter().any(|p| p.name == "Accept" && p.location == ParameterLocation::Header));
    assert!(endpoint.request_body.is_none());
}

#[test]
fn curl_respects_explicit_method_when_body_exists() {
    let collection = parse_curl(
        r#"curl -X PUT "https://api.example.com/orders/42" -H "Content-Type: application/json" -d '{"status":"paid"}'"#,
    )
    .unwrap();
    assert_eq!(collection.endpoints[0].method, HttpMethod::Put);
}

#[test]
fn curl_rejects_invalid_json_body_when_content_type_is_json() {
    let error = parse_curl(
        r#"curl "https://api.example.com/orders" -H "Content-Type: application/json" -d '{broken-json}'"#,
    )
    .unwrap_err();
    assert!(matches!(error, ParseError::ParseFailed(_)));
}

#[test]
fn curl_parses_basic_auth_and_cookie() {
    let collection = parse_curl(r#"curl -u alice:secret -b "SESSION=xyz" "https://api.example.com/secure""#).unwrap();
    let endpoint = &collection.endpoints[0];
    let auth = endpoint.parameters.iter().find(|p| p.name == "Authorization").expect("authorization header parameter");
    assert_eq!(auth.location, ParameterLocation::Header);
    assert!(example_text(&auth.schema).unwrap().starts_with("Basic alice:secret"));
    let cookie = endpoint.parameters.iter().find(|p| p.name == "Cookie").expect("cookie header parameter");
    assert_eq!(example_text(&cookie.schema), Some("SESSION=xyz"));
}

#[test]
fn curl_expands_data_urlencoded_into_form_body() {
    let collection = parse_curl(
        r#"curl https://api.example.com/login --data-urlencode "user=alice" --data-urlencode "pass=p@ss w0rd""#,
    )
    .unwrap();
    let endpoint = &collection.endpoints[0];
    assert_eq!(endpoint.method, HttpMethod::Post);
    let body = endpoint.request_body.as_ref().expect("request body");
    assert_eq!(body.content_type, "application/x-www-form-urlencoded");
    let example = example_text(&body.schema).unwrap();
    assert!(example.contains("user=alice"));
    assert!(example.contains("pass=p%40ss+w0rd"));
}

#[test]
fn curl_requires_the_curl_command_and_a_url() {
    assert!(matches!(parse_curl("wget https://x.test/"), Err(ParseError::InvalidSource(_))));
    match parse_curl("curl -H 'Accept: */*'") {
        Err(ParseError::ParseFailed(m)) => assert_eq!(m, "cURL input is missing a URL"),
        other => panic!("unexpected {:?}", other.map(|c| c.id)),
    }
    match parse_curl("curl https://x.test/a -X") {
        Err(ParseError::ParseFailed(m)) => assert_eq!(m, "missing method after -X/--request"),
        other => panic!("unexpected {:?}", other.map(|c| c.id)),
    }
    match parse_curl("curl https://x.test/a -X BREW") {
        Err(ParseError::ParseFailed(m)) => assert_eq!(m, "unsupported HTTP method in cURL input: BREW"),
        other => panic!("unexpected {:?}", other.map(|c| c.id)),
    }
    assert!(matches!(parse_curl("curl 'unbalanced"), Err(ParseError::ParseFailed(_))));
}

#[test]
fn curl_multipart_form_fields_become_required_properties() {
    let collection = parse_curl(
        "curl https://x.test/upload -F 'title=Hello' -F 'file=@photo.png;type=image/png' --form-string 'raw=@literal'",
    )
    .unwrap();
    let endpoint = &collection.endpoints[0];
    assert_eq!(endpoint.method, HttpMethod::Post);
    let body = endpoint.request_body.as_ref().unwrap();
    assert_eq!(body.content_type, "multipart/form-data");
    let names: Vec<&str> = body.schema.properties.iter().map(|(k, _)| k.as_str()).collect();
    assert_eq!(names, vec!["file", "raw", "title"]);
    let file = prop(&body.schema, "file");
    assert_eq!(file.format.as_deref(), Some("binary"));
    assert_eq!(file.description.as_deref(), Some("Binary upload part (image/png)"));
    assert!(file.required);
    assert_eq!(prop(&body.schema, "raw").format, None);
    assert!(matches!(
        parse_curl("curl https://x.test/upload -F 'a=1' -d 'x'"),
        Err(ParseError::ParseFailed(_))
    ));
}

#[test]
fn curl_collection_identity_and_defaults() {
    let collection = parse_curl("curl https://api.example.com/v1/users/").unwrap();
    assert_eq!(collection.id, "imported-curl-request");
    assert_eq!(collection.name, "v1-users");
    assert_eq!(collection.description.as_deref(), Some("Imported from cURL"));
    let endpoint = &collection.endpoints[0];
    assert_eq!(endpoint.tags, vec!["curl-import".to_string()]);
    assert_eq!(endpoint.responses.len(), 1);
    assert_eq!(endpoint.responses[0].status_code, "200");
    assert_eq!(endpoint.examples.len(), 3);
    let named = CurlParser
        .parse(ParseSource { name: Some("My API!! v2".to_string()), body: "curl /ping".to_string() })
        .unwrap();
    assert_eq!(named.id, "my-api-v2");
    assert_eq!(named.name, "My API!! v2");
    assert_eq!(named.endpoints[0].path, "/ping");
}

#[test]
fn urlencoding_and_ids_follow_their_rules() {
    assert_eq!(urlencoding_encode("a b&c=d~é"), "a+b%26c%3Dd~%C3%A9");
    assert_eq!(canonical_id("--Hello,  World--"), "hello-world");
    assert_eq!(canonical_id(""), "");
}
