use albert::canonical::SchemaNode;
use albert::gateway::validator::{compact, validate};
use albert::json::{JsonNumber, JsonValue};
use albert::model::SchemaNodeType;

fn s(v: &str) -> JsonValue {
    JsonValue::String(v.to_string())
}

fn num(n: u64) -> JsonValue {
    JsonValue::Number(JsonNumber::PosInt(n))
}

fn float(t: &str) -> JsonValue {
    JsonValue::Number(JsonNumber::Float(t.to_string()))
}

fn obj(entries: Vec<(&str, JsonValue)>) -> JsonValue {
    JsonValue::Object(entries.into_iter().map(|(k, v)| (k.to_string(), v)).collect())
}

fn integer_schema() -> SchemaNode {
    let mut n = SchemaNode::string();
    n.node_type = SchemaNodeType::Integer;
    n
}

#[test]
fn flat_primitive_ok_and_fail() {
    assert!(validate(&s("hi"), &SchemaNode::string()).is_ok());
    let err = validate(&num(42), &SchemaNode::string()).unwrap_err();
    assert_eq!(err.path, "$");
    assert!(err.message.contains("expected string"));
}

#[test]
fn integer_accepts_whole_floats() {
    let schema = integer_schema();
    assert!(validate(&num(1), &schema).is_ok());
    assert!(validate(&float("1.0"), &schema).is_ok());
    let err = validate(&float("1.5"), &schema).unwrap_err();
    assert!(err.message.contains("expected integer"));
}

#[test]
fn null_only_when_nullable() {
    let mut schema = SchemaNode::string();
    assert!(validate(&JsonValue::Null, &schema).is_err());
    schema.nullable = true;
    assert!(validate(&JsonValue::Null, &schema).is_ok());
}

#[test]
fn required_object_field_missing_surfaces_path() {
    let mut schema = SchemaNode::object();
    let mut name = SchemaNode::string();
    name.required = true;
    schema.properties.push(("name".to_string(), name));
    let err = validate(&obj(vec![]), &schema).unwrap_err();
    assert_eq!(err.path, "$.name");
    assert!(err.message.contains("missing"));
}

#[test]
fn nested_mismatch_points_at_leaf() {
    let mut schema = SchemaNode::object();
    let mut address = SchemaNode::object();
    let mut zip = SchemaNode::string();
    zip.required = true;
    address.properties.push(("zip".to_string(), zip));
    address.required = true;
    schema.properties.push(("address".to_string(), address));
    let err = validate(&obj(vec![("address", obj(vec![("zip", num(12345))]))]), &schema).unwrap_err();
    assert_eq!(err.path, "$.address.zip");
    assert!(err.message.contains("expected string"));
}

#[test]
fn array_items_validate_by_index() {
    let schema = SchemaNode::array(integer_schema());
    let err = validate(&JsonValue::Array(vec![num(1), num(2), s("oops"), num(4)]), &schema).unwrap_err();
    assert_eq!(err.path, "$[2]");
    assert!(err.message.contains("expected integer"));
}

#[test]
fn enum_rejects_off_list_value() {
    let mut schema = SchemaNode::string();
    schema.enum_values = vec![s("one"), s("two")];
    assert!(validate(&s("one"), &schema).is_ok());
    let err = validate(&s("three"), &schema).unwrap_err();
    assert!(err.message.contains("enum"));
    assert_eq!(err.message, "value \"three\" is not in the declared enum");
}

#[test]
fn unknown_schema_type_accepts_anything() {
    let mut schema = SchemaNode::string();
    schema.node_type = SchemaNodeType::Unknown;
    assert!(validate(&obj(vec![("whatever", JsonValue::Array(vec![num(1), num(2)]))]), &schema).is_ok());
}

#[test]
fn missing_optional_fields_is_ok() {
    let mut schema = SchemaNode::object();
    schema.properties.push(("note".to_string(), SchemaNode::string()));
    assert!(validate(&obj(vec![]), &schema).is_ok());
}

#[test]
fn mismatch_messages_name_both_types() {
    let err = validate(&JsonValue::Bool(true), &SchemaNode::object()).unwrap_err();
    assert_eq!(err.message, "expected object, got boolean");
    let err = validate(&float("2.5"), &SchemaNode::string()).unwrap_err();
    assert_eq!(err.message, "expected string, got number");
    let err = validate(&JsonValue::Null, &integer_schema()).unwrap_err();
    assert_eq!(err.message, "expected integer, got null");
}

#[test]
fn whole_float_with_exponent_is_an_integer() {
    let schema = integer_schema();
    assert!(validate(&float("1e3"), &schema).is_ok());
    assert!(validate(&float("1.25e2"), &schema).is_ok());
    assert!(validate(&float("1.5e-7"), &schema).is_err());
    assert!(validate(&float("-0.0"), &schema).is_ok());
}

#[test]
fn compact_text_cuts_long_values() {
    let long = s("abcdefghijklmnopqrstuvwxyzabcdefghijklmnopqrstuvwxyz");
    let c: String = compact(&long).into_iter().collect();
    assert_eq!(c, "\"abcdefghijklmnopqrstuvwxyzabcdefghijklm…");
    let short: String = compact(&obj(vec![("a", JsonValue::Array(vec![num(1), JsonValue::Null]))])).into_iter().collect();
    assert_eq!(short, "{\"a\":[1,null]}");
}

#[test]
fn missing_required_field_message_quotes_the_name() {
    let mut schema = SchemaNode::object();
    let mut name = SchemaNode::string();
    name.required = true;
    schema.properties.push(("name".to_string(), name));
    let err = validate(&obj(vec![]), &schema).unwrap_err();
    assert_eq!(err.path, "$.name");
    assert_eq!(err.message, "required field \"name\" missing");
}
