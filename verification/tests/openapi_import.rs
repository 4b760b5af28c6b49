use albert::canonical::{CanonicalApiCollection, SchemaNode};
use albert::json::JsonValue;
use albert::model::{AuthScheme, HttpMethod, InputSourceKind, MockExampleKind, ParameterLocation, SchemaNodeType};
use albert::parser::detect::{ApiParser, ParseError, ParseSource};
use albert::parser::openapi::{parse_source, OpenApiParser};

fn parse(body: &str) -> Result<CanonicalApiCollection, ParseError> {
    parse_source(ParseSource { name: None, body: body.to_string() })
}

fn prop<'a>(s: &'a SchemaNode, name: &str) -> &'a SchemaNode {
    &s.properties.iter().find(|(k, _)| k == name).unwrap().1
}

fn has_prop(s: &SchemaNode, name: &str) -> bool {
    s.properties.iter().any(|(k, _)| k == name)
}

fn member<'a>(v: &'a JsonValue, key: &str) -> Option<&'a JsonValue> {
    match v {
        JsonValue::Object(m) => m.iter().find(|(k, _)| k == key).map(|(_, x)| x),
        _ => None,
    }
}

const SAMPLE_OPENAPI: &str = r#"{
  "openapi": "3.0.3",
  "info": { "title": "Sample Orders", "version": "1.0.0" },
  "paths": {
    "/api/orders": {
      "get": {
        "operationId": "listOrders",
        "parameters": [
          { "name": "status", "in": "query", "schema": { "type": "string" } }
        ],
        "responses": {
          "200": {
            "description": "Orders",
            "content": {
              "application/json": {
                "schema": {
                  "type": "array",
                  "items": {
                    "type": "object",
                    "properties": { "id": { "type": "string" } }
                  }
                }
              }
            }
          }
        }
      }
    }
  }
}"#;

#[test]
fn parses_openapi_fixture_into_canonical_collection() {
    let collection = parse_source(ParseSource {
        name: Some("fixture".to_string()),
        body: SAMPLE_OPENAPI.to_string(),
    })
    .unwrap();
    assert_eq!(collection.source, InputSourceKind::OpenApi);
    assert_eq!(collection.endpoints.len(), 1);
    let endpoint = &collection.endpoints[0];
    assert_eq!(endpoint.method, HttpMethod::Get);
    assert_eq!(endpoint.path, "/api/orders");
    assert_eq!(endpoint.parameters.len(), 1);
    assert_eq!(endpoint.parameters[0].location, ParameterLocation::Query);
    assert_eq!(endpoint.parameters[0].schema.node_type, SchemaNodeType::String);
    assert_eq!(collection.name, "fixture");
    assert_eq!(collection.id, "fixture");
}

#[test]
fn parses_openapi_components_and_request_body_refs() {
    let source = r#"
openapi: 3.0.3
info:
  title: Orders API
  version: 1.0.0
paths:
  /orders:
    post:
      operationId: createOrder
      requestBody:
        $ref: '#/components/requestBodies/CreateOrder'
      responses:
        "201":
          $ref: '#/components/responses/OrderCreated'
components:
  requestBodies:
    CreateOrder:
      required: true
      content:
        application/json:
          schema:
            $ref: '#/components/schemas/CreateOrderInput'
  responses:
    OrderCreated:
      description: Created
      content:
        application/json:
          schema:
            $ref: '#/components/schemas/Order'
  schemas:
    CreateOrderInput:
      type: object
      required: [customer_id]
      properties:
        customer_id:
          type: string
        note:
          type: string
    Order:
      type: object
      required: [id]
      properties:
        id:
          type: string
        total:
          type: number
"#;
    let collection = parse(source).unwrap();
    let endpoint = &collection.endpoints[0];
    let request_body = endpoint.request_body.as_ref().unwrap();
    assert_eq!(request_body.content_type, "application/json");
    assert_eq!(prop(&request_body.schema, "customer_id").node_type, SchemaNodeType::String);
    assert!(prop(&request_body.schema, "customer_id").required);
    assert_eq!(endpoint.responses[0].status_code, "201");
    assert_eq!(
        prop(endpoint.responses[0].schema.as_ref().unwrap(), "total").node_type,
        SchemaNodeType::Number
    );
    assert_eq!(collection.name, "Orders API");
    assert_eq!(collection.id, "orders-api");
    assert!(request_body.required);
    assert!(!prop(&request_body.schema, "note").required);
}

#[test]
fn parses_openapi_path_parameters_as_required() {
    let source = r#"
openapi: 3.0.3
info:
  title: Users API
  version: 1.0.0
paths:
  /users/{id}:
    parameters:
      - name: id
        in: path
        required: true
        schema:
          type: string
    get:
      responses:
        "200":
          description: OK
"#;
    let collection = parse(source).unwrap();
    let endpoint = &collection.endpoints[0];
    assert_eq!(endpoint.parameters.len(), 1);
    assert_eq!(endpoint.parameters[0].location, ParameterLocation::Path);
    assert!(endpoint.parameters[0].required);
}

#[test]
fn parses_array_response_schema() {
    let source = r#"
openapi: 3.0.3
info: { title: users, version: 1.0.0 }
paths:
  /users:
    get:
      responses:
        "200":
          description: list
          content:
            application/json:
              schema:
                type: array
                items:
                  type: object
                  required: [id]
                  properties:
                    id: { type: string }
                    name: { type: string }
"#;
    let collection = parse(source).unwrap();
    let endpoint = &collection.endpoints[0];
    let response = &endpoint.responses[0];
    let schema = response.schema.as_ref().unwrap();
    assert_eq!(schema.node_type, SchemaNodeType::Array);
    let item = schema.items.as_ref().unwrap();
    assert_eq!(item.node_type, SchemaNodeType::Object);
    assert!(has_prop(item, "id"));
    let success = endpoint.examples.iter().find(|e| e.kind == MockExampleKind::Success).unwrap();
    match &success.payload {
        JsonValue::Array(arr) => {
            assert_eq!(arr.len(), 1);
            assert!(member(&arr[0], "id").is_some());
        },
        other => panic!("expected an array, got {:?}", other),
    }
}

#[test]
fn parses_all_of_merges_properties() {
    let source = r#"
openapi: 3.0.3
info: { title: api, version: 1.0.0 }
paths:
  /thing:
    get:
      responses:
        "200":
          description: ok
          content:
            application/json:
              schema:
                $ref: '#/components/schemas/Thing'
components:
  schemas:
    Base:
      type: object
      required: [id]
      properties:
        id: { type: string }
    Extra:
      type: object
      properties:
        color: { type: string }
    Thing:
      allOf:
        - $ref: '#/components/schemas/Base'
        - $ref: '#/components/schemas/Extra'
"#;
    let collection = parse(source).unwrap();
    let endpoint = &collection.endpoints[0];
    let schema = endpoint.responses[0].schema.as_ref().unwrap();
    assert_eq!(schema.node_type, SchemaNodeType::Object);
    assert!(has_prop(schema, "id"));
    assert!(has_prop(schema, "color"));
}

#[test]
fn parses_parameter_ref_from_components() {
    let source = r#"
openapi: 3.0.3
info: { title: api, version: 1.0.0 }
paths:
  /items:
    get:
      parameters:
        - $ref: '#/components/parameters/PageSize'
      responses:
        "200": { description: ok }
components:
  parameters:
    PageSize:
      name: page_size
      in: query
      required: true
      schema:
        type: integer
"#;
    let collection = parse(source).unwrap();
    let endpoint = &collection.endpoints[0];
    assert_eq!(endpoint.parameters.len(), 1);
    let param = &endpoint.parameters[0];
    assert_eq!(param.name, "page_size");
    assert!(param.required);
    assert_eq!(param.schema.node_type, SchemaNodeType::Integer);
}

#[test]
fn synthesizes_enum_string_example() {
    let source = r#"
openapi: 3.0.3
info: { title: api, version: 1.0.0 }
paths:
  /status:
    get:
      responses:
        "200":
          description: ok
          content:
            application/json:
              schema:
                type: object
                required: [state]
                properties:
                  state:
                    type: string
                    enum: [active, archived, draft]
"#;
    let collection = parse(source).unwrap();
    let endpoint = &collection.endpoints[0];
    let success = endpoint.examples.iter().find(|e| e.kind == MockExampleKind::Success).unwrap();
    match member(&success.payload, "state") {
        Some(JsonValue::String(s)) => assert_eq!(s, "active"),
        other => panic!("unexpected {:?}", other),
    }
}

#[test]
fn empty_openapi_body_is_rejected() {
    let error = OpenApiParser.parse(ParseSource { name: None, body: "  \n ".to_string() }).unwrap_err();
    match error {
        ParseError::InvalidSource(m) => assert_eq!(m, "OpenAPI content cannot be empty"),
        other => panic!("unexpected {:?}", other),
    }
}

#[test]
fn paths_keep_document_order_and_methods_their_fixed_order() {
    let source = r#"
openapi: 3.0.3
info: { title: api, version: 1.0.0 }
paths:
  /zeta:
    post:
      responses: { "200": { description: ok } }
    get:
      responses: { "200": { description: ok } }
  /alpha:
    delete:
      responses: { "204": { description: gone } }
  x-internal: {}
"#;
    let collection = parse(source).unwrap();
    let keys: Vec<(String, HttpMethod)> = collection.endpoints.iter().map(|e| (e.path.clone(), e.method)).collect();
    assert_eq!(
        keys,
        vec![
            ("/zeta".to_string(), HttpMethod::Get),
            ("/zeta".to_string(), HttpMethod::Post),
            ("/alpha".to_string(), HttpMethod::Delete),
        ]
    );
}

#[test]
fn trace_operations_are_refused() {
    let source = r#"
openapi: 3.0.3
info: { title: api, version: 1.0.0 }
paths:
  /a:
    trace:
      responses: { "200": { description: ok } }
"#;
    match parse(source).unwrap_err() {
        ParseError::ParseFailed(m) => assert_eq!(m, "unsupported HTTP method in OpenAPI document: trace"),
        other => panic!("unexpected {:?}", other),
    }
}

#[test]
fn unresolved_parameter_reference_is_an_error() {
    let source = r#"
openapi: 3.0.3
info: { title: api, version: 1.0.0 }
paths:
  /a:
    get:
      parameters:
        - $ref: '#/components/parameters/Missing'
      responses: { "200": { description: ok } }
components:
  parameters: {}
"#;
    match parse(source).unwrap_err() {
        ParseError::ParseFailed(m) => {
            assert_eq!(m, "unresolved OpenAPI parameter reference: #/components/parameters/Missing")
        },
        other => panic!("unexpected {:?}", other),
    }
}

#[test]
fn operations_without_responses_get_the_placeholder() {
    let source = r#"{"openapi":"3.0.3","info":{"title":"T","version":"1"},"paths":{"/p":{"get":{"responses":{}}}}}"#;
    let collection = parse(source).unwrap();
    let responses = &collection.endpoints[0].responses;
    assert_eq!(responses.len(), 1);
    assert_eq!(responses[0].status_code, "200");
    assert_eq!(responses[0].description.as_deref(), Some("Default response placeholder"));
    assert_eq!(responses[0].content_type, "application/json");
    assert!(responses[0].schema.is_none());
}

#[test]
fn security_schemes_become_auth_hints() {
    let source = r#"
openapi: 3.0.3
info: { title: api, version: 1.0.0 }
security:
  - bearerAuth: []
paths:
  /a:
    get:
      responses: { "200": { description: ok } }
  /b:
    get:
      security:
        - apiKey: []
      responses: { "200": { description: ok } }
  /c:
    get:
      security: []
      responses: { "200": { description: ok } }
components:
  securitySchemes:
    bearerAuth: { type: http, scheme: Bearer }
    apiKey: { type: apiKey, in: query, name: key }
"#;
    let collection = parse(source).unwrap();
    let a = collection.endpoints[0].auth.as_ref().unwrap();
    assert_eq!(a.scheme, AuthScheme::HttpBearer);
    assert_eq!(a.header_name, "Authorization");
    assert_eq!(a.value_prefix.as_deref(), Some("Bearer "));
    let b = collection.endpoints[1].auth.as_ref().unwrap();
    assert_eq!(b.scheme, AuthScheme::Other);
    assert_eq!(b.header_name, "key");
    assert_eq!(b.description.as_deref(), Some("API key in Query"));
    assert!(collection.endpoints[2].auth.is_none());
}

#[test]
fn raw_keywords_are_laid_over_typed_schemas() {
    let source = r#"{
  "openapi": "3.0.3",
  "info": { "title": "T", "version": "1" },
  "paths": {
    "/p": {
      "post": {
        "requestBody": {
          "content": {
            "application/json": {
              "schema": {
                "type": "object",
                "additionalProperties": false,
                "properties": { "tags": { "type": "array", "items": { "type": "string" } } },
                "dependentRequired": { "a": ["b", 1, "c"] }
              }
            }
          }
        },
        "responses": { "200": { "description": "ok" } }
      }
    }
  }
}"#;
    let collection = parse(source).unwrap();
    let schema = &collection.endpoints[0].request_body.as_ref().unwrap().schema;
    assert!(!schema.allow_additional_properties);
    assert_eq!(schema.dependent_required.len(), 1);
    assert_eq!(schema.dependent_required[0].0, "a");
    assert_eq!(schema.dependent_required[0].1, vec!["b".to_string(), "c".to_string()]);
    assert_eq!(prop(schema, "tags").items.as_ref().unwrap().node_type, SchemaNodeType::String);
}

#[test]
fn boolean_schemas_are_read_after_rewriting() {
    let source = r#"{
  "openapi": "3.1.0",
  "info": { "title": "T", "version": "1" },
  "paths": {
    "/p": {
      "get": {
        "responses": {
          "200": {
            "description": "ok",
            "content": { "application/json": { "schema": { "type": "object", "properties": { "anything": true } } } }
          }
        }
      }
    }
  }
}"#;
    let collection = parse(source).unwrap();
    let schema = collection.endpoints[0].responses[0].schema.as_ref().unwrap();
    assert_eq!(schema.node_type, SchemaNodeType::Object);
    assert!(has_prop(schema, "anything"));
}

#[test]
fn unreadable_documents_are_refused() {
    match parse("openapi: [unclosed").unwrap_err() {
        ParseError::ParseFailed(m) => assert!(m.starts_with("failed to deserialize OpenAPI: ")),
        other => panic!("unexpected {:?}", other),
    }
}
