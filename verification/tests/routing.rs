use albert::canonical::MockExample;
use albert::gateway::route::MockRoute;
use albert::gateway::routing::RouteTable;
use albert::json::JsonValue;
use albert::model::{HttpMethod, MockExampleKind};

fn make_route(method: HttpMethod, path: &str) -> MockRoute {
    MockRoute {
        collection_id: "c".into(),
        collection_name: "c".into(),
        method,
        path: path.to_string(),
        operation_id: None,
        summary: None,
        examples: vec![MockExample {
            kind: MockExampleKind::Success,
            title: "t".into(),
            payload: JsonValue::Object(Vec::new()),
            note: None,
        }],
        request_body_schema: None,
    }
}

fn param<'a>(params: &'a [(String, String)], name: &str) -> Option<&'a str> {
    params.iter().rev().find(|(k, _)| k == name).map(|(_, v)| v.as_str())
}

#[test]
fn matches_literal_and_param_paths() {
    let table = RouteTable::from_routes(vec![
        make_route(HttpMethod::Get, "/users"),
        make_route(HttpMethod::Get, "/users/{id}"),
        make_route(HttpMethod::Get, "/users/me"),
    ]);
    assert_eq!(table.len(), 3);

    let m = table.match_route(&HttpMethod::Get, "/users/me").unwrap();
    assert_eq!(m.route.path, "/users/me");
    assert!(m.params.is_empty());

    let m = table.match_route(&HttpMethod::Get, "/users/42").unwrap();
    assert_eq!(m.route.path, "/users/{id}");
    assert_eq!(param(&m.params, "id").unwrap(), "42");

    let m = table.match_route(&HttpMethod::Get, "/users").unwrap();
    assert_eq!(m.route.path, "/users");

    assert!(table.match_route(&HttpMethod::Post, "/users").is_none());
    assert!(table.match_route(&HttpMethod::Get, "/users/42/posts").is_none());
}

#[test]
fn matches_nested_parameters() {
    let table = RouteTable::from_routes(vec![make_route(HttpMethod::Get, "/users/{userId}/posts/{postId}")]);
    let m = table.match_route(&HttpMethod::Get, "/users/1/posts/9").unwrap();
    assert_eq!(param(&m.params, "userId").unwrap(), "1");
    assert_eq!(param(&m.params, "postId").unwrap(), "9");
}

#[test]
fn literal_route_wins_regardless_of_declaration_order() {
    let table = RouteTable::from_routes(vec![
        make_route(HttpMethod::Get, "/items/{id}"),
        make_route(HttpMethod::Get, "/items/new"),
    ]);
    let m = table.match_route(&HttpMethod::Get, "/items/new").unwrap();
    assert_eq!(m.route.path, "/items/new");
    let m = table.match_route(&HttpMethod::Get, "/items/7").unwrap();
    assert_eq!(m.route.path, "/items/{id}");
}

#[test]
fn trailing_slash_and_double_slashes_match_declared_route() {
    let table = RouteTable::from_routes(vec![make_route(HttpMethod::Get, "/users/{id}")]);
    let m = table.match_route(&HttpMethod::Get, "/users/5/").unwrap();
    assert_eq!(param(&m.params, "id").unwrap(), "5");
    assert!(table.match_route(&HttpMethod::Get, "//users//5").is_some());
}
