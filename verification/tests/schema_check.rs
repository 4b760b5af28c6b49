use albert::canonical::SchemaNode;
use albert::json::{JsonNumber, JsonValue};
use albert::model::SchemaNodeType;
use albert::synth::synthesize_value;
use albert::validate::{validate_at, validate_value};

fn s(v: &str) -> JsonValue {
    JsonValue::String(v.to_string())
}

fn num(n: u64) -> JsonValue {
    JsonValue::Number(JsonNumber::PosInt(n))
}

fn float(t: &str) -> JsonValue {
    JsonValue::Number(JsonNumber::Float(t.to_string()))
}

fn arr(items: Vec<JsonValue>) -> JsonValue {
    JsonValue::Array(items)
}

/// An object whose entries are given in key order, as a parsed document has them.
fn obj(entries: Vec<(&str, JsonValue)>) -> JsonValue {
    let mut e: Vec<(String, JsonValue)> = entries.into_iter().map(|(k, v)| (k.to_string(), v)).collect();
    e.sort_by(|a, b| a.0.cmp(&b.0));
    JsonValue::Object(e)
}

fn typed(t: SchemaNodeType) -> SchemaNode {
    let mut n = SchemaNode::string();
    n.node_type = t;
    n
}

fn schema_with_properties(props: Vec<(&str, SchemaNode, bool)>) -> SchemaNode {
    let mut entries: Vec<(String, SchemaNode)> = Vec::new();
    for (name, mut node, required) in props {
        node.required = required;
        entries.push((name.to_string(), node));
    }
    entries.sort_by(|a, b| a.0.cmp(&b.0));
    let mut schema = SchemaNode::object();
    schema.properties = entries;
    schema
}

#[test]
fn validates_required_properties() {
    let mut schema = schema_with_properties(vec![
        ("id", SchemaNode::string(), true),
        ("active", typed(SchemaNodeType::Boolean), true),
    ]);
    schema.required = true;

    let errs = validate_value(&schema, &obj(vec![("id", s("abc"))]));
    assert_eq!(errs.len(), 1);
    assert!(errs[0].contains("active"));
    assert!(errs[0].contains("required"));

    let errs = validate_value(&schema, &obj(vec![("id", num(42)), ("active", JsonValue::Bool(true))]));
    assert!(errs.iter().any(|e| e.contains("id") && e.contains("string")));

    let errs = validate_value(&schema, &obj(vec![("id", s("abc")), ("active", JsonValue::Bool(true))]));
    assert!(errs.is_empty());
}

#[test]
fn validates_null_only_when_nullable() {
    let mut schema = SchemaNode::string();
    schema.nullable = false;
    assert!(!validate_value(&schema, &JsonValue::Null).is_empty());
    schema.nullable = true;
    assert!(validate_value(&schema, &JsonValue::Null).is_empty());
}

#[test]
fn validates_array_items_recursively() {
    let schema = SchemaNode::array(typed(SchemaNodeType::Integer));
    let errs = validate_value(&schema, &arr(vec![num(1), num(2), s("bad"), num(4)]));
    assert_eq!(errs.len(), 1);
    assert!(errs[0].contains("[2]"));
}

#[test]
fn validates_prefix_items_and_unevaluated_items() {
    let mut tuple = SchemaNode::array(typed(SchemaNodeType::Unknown));
    tuple.items = None;
    tuple.prefix_items = vec![SchemaNode::string(), typed(SchemaNodeType::Integer)];
    tuple.allow_unevaluated_items = false;

    assert!(validate_value(&tuple, &arr(vec![s("status"), num(200)])).is_empty());
    let errs = validate_value(&tuple, &arr(vec![s("status"), s("ok")]));
    assert!(errs.iter().any(|err| err.contains("[1]") && err.contains("integer")));
    let errs = validate_value(&tuple, &arr(vec![s("status"), num(200), s("extra")]));
    assert!(errs.iter().any(|err| err.contains("[2]") && err.contains("unevaluated item")));

    tuple.items = Some(Box::new(SchemaNode::string()));
    assert!(validate_value(&tuple, &arr(vec![s("status"), num(200), s("extra")])).is_empty());
}

#[test]
fn validates_boolean_schemas() {
    assert!(validate_value(&SchemaNode::bool_schema(true), &obj(vec![("any", arr(vec![s("value")]))])).is_empty());

    let errs = validate_value(&SchemaNode::bool_schema(false), &s("blocked"));
    assert!(errs.iter().any(|err| err.contains("false schema")));

    let schema = SchemaNode::array(SchemaNode::bool_schema(false));
    let errs = validate_value(&schema, &arr(vec![s("blocked")]));
    assert!(errs.iter().any(|err| err.contains("$[0]") && err.contains("false schema")));

    let mut object = schema_with_properties(vec![("id", SchemaNode::string(), true)]);
    object.additional_properties = Some(Box::new(SchemaNode::bool_schema(false)));
    let errs = validate_value(&object, &obj(vec![("id", s("u1")), ("blocked", JsonValue::Bool(true))]));
    assert!(errs.iter().any(|err| err.contains("$.blocked") && err.contains("false schema")));
}

#[test]
fn validates_enum_membership() {
    let mut schema = SchemaNode::string();
    schema.enum_values = vec![s("active"), s("archived")];

    assert!(validate_value(&schema, &s("active")).is_empty());
    let errs = validate_value(&schema, &s("pending"));
    assert_eq!(errs.len(), 1);
    assert!(errs[0].contains("enum"));
    assert!(errs[0].contains("pending"));
}

#[test]
fn integer_validation_accepts_whole_floats() {
    let schema = typed(SchemaNodeType::Integer);
    assert!(validate_value(&schema, &num(42)).is_empty());
    assert!(validate_value(&schema, &float("42.0")).is_empty());
    let errs = validate_value(&schema, &float("42.5"));
    assert_eq!(errs.len(), 1);
    assert!(errs[0].contains("integer"));
}

#[test]
fn validates_string_constraints() {
    let mut schema = SchemaNode::string();
    schema.min_length = Some(3);
    schema.max_length = Some(5);
    schema.pattern = Some("^[A-Z]+$".to_string());
    schema.format = Some("email".to_string());

    let errs = validate_value(&schema, &s("ab"));
    assert!(errs.iter().any(|err| err.contains("at least 3")));
    assert!(errs.iter().any(|err| err.contains("pattern")));
    assert!(errs.iter().any(|err| err.contains("email")));

    schema.format = None;
    assert!(validate_value(&schema, &s("ABCDE")).is_empty());
    let errs = validate_value(&schema, &s("ABCDEF"));
    assert!(errs.iter().any(|err| err.contains("at most 5")));
}

#[test]
fn validates_number_and_array_constraints() {
    let mut schema = typed(SchemaNodeType::Integer);
    schema.minimum = Some(JsonNumber::Float("10.0".to_string()));
    schema.maximum = Some(JsonNumber::Float("20.0".to_string()));
    schema.exclusive_minimum = true;
    schema.multiple_of = Some(JsonNumber::Float("2.0".to_string()));

    let errs = validate_value(&schema, &num(10));
    assert!(errs.iter().any(|err| err.contains("> 10")));
    let errs = validate_value(&schema, &num(11));
    assert!(errs.iter().any(|err| err.contains("multiple")));
    assert!(validate_value(&schema, &num(12)).is_empty());
    let errs = validate_value(&schema, &num(21));
    assert!(errs.iter().any(|err| err.contains("<= 20")));

    let mut array = SchemaNode::array(SchemaNode::string());
    array.min_items = Some(2);
    array.max_items = Some(3);
    array.unique_items = true;
    assert!(validate_value(&array, &arr(vec![s("a"), s("b")])).is_empty());
    assert!(validate_value(&array, &arr(vec![s("a")])).iter().any(|err| err.contains("at least 2")));
    assert!(validate_value(&array, &arr(vec![s("a"), s("b"), s("c"), s("d")]))
        .iter()
        .any(|err| err.contains("at most 3")));
    assert!(validate_value(&array, &arr(vec![s("a"), s("a")])).iter().any(|err| err.contains("duplicates")));

    let mut with_contains = SchemaNode::array(typed(SchemaNodeType::Unknown));
    with_contains.contains = Some(Box::new(typed(SchemaNodeType::Integer)));
    with_contains.min_contains = Some(2);
    with_contains.max_contains = Some(2);
    assert!(validate_value(&with_contains, &arr(vec![s("a"), num(1), num(2)])).is_empty());
    let errs = validate_value(&with_contains, &arr(vec![s("a"), num(1)]));
    assert!(errs.iter().any(|err| err.contains("contains schema") && err.contains("at least 2")));
    let errs = validate_value(&with_contains, &arr(vec![num(1), num(2), num(3)]));
    assert!(errs.iter().any(|err| err.contains("contains schema") && err.contains("at most 2")));
}

#[test]
fn validates_additional_properties() {
    let mut schema = schema_with_properties(vec![("id", SchemaNode::string(), true)]);
    schema.allow_additional_properties = false;
    let errs = validate_value(&schema, &obj(vec![("id", s("u1")), ("role", s("admin"))]));
    assert!(errs.iter().any(|err| err.contains("additional property")));

    schema.allow_additional_properties = true;
    schema.additional_properties = Some(Box::new(typed(SchemaNodeType::Integer)));
    let errs = validate_value(&schema, &obj(vec![("id", s("u1")), ("rank", s("high"))]));
    assert!(errs.iter().any(|err| err.contains("rank") && err.contains("integer")));
    assert!(validate_value(&schema, &obj(vec![("id", s("u1")), ("rank", num(2))])).is_empty());
}

#[test]
fn validates_unevaluated_properties_closure() {
    let mut schema = schema_with_properties(vec![("id", SchemaNode::string(), true)]);
    schema.allow_unevaluated_properties = false;

    let errs = validate_value(&schema, &obj(vec![("id", s("u1")), ("role", s("admin"))]));
    assert!(errs.iter().any(|err| err.contains("role") && err.contains("unevaluated property")));

    schema.additional_properties = Some(Box::new(typed(SchemaNodeType::Integer)));
    assert!(validate_value(&schema, &obj(vec![("id", s("u1")), ("rank", num(2))])).is_empty());
}

#[test]
fn validates_object_property_count_constraints() {
    let mut schema = schema_with_properties(vec![("id", SchemaNode::string(), false)]);
    schema.min_properties = Some(2);
    schema.max_properties = Some(3);

    let errs = validate_value(&schema, &obj(vec![("id", s("u1"))]));
    assert!(errs.iter().any(|err| err.contains("at least 2")));
    assert!(errs.iter().any(|err| err.contains("properties")));

    assert!(validate_value(&schema, &obj(vec![("id", s("u1")), ("name", s("Ada"))])).is_empty());

    let errs = validate_value(
        &schema,
        &obj(vec![("id", s("u1")), ("name", s("Ada")), ("role", s("admin")), ("team", s("api"))]),
    );
    assert!(errs.iter().any(|err| err.contains("at most 3")));
}

#[test]
fn validates_dependent_required_and_dependent_schemas() {
    let mut schema = schema_with_properties(vec![
        ("credit_card", SchemaNode::string(), false),
        ("billing_address", SchemaNode::string(), false),
        ("country", SchemaNode::string(), false),
    ]);
    schema.dependent_required.push(("credit_card".to_string(), vec!["billing_address".to_string()]));

    let mut dependent = schema_with_properties(vec![("country", SchemaNode::string(), true)]);
    dependent.min_properties = Some(3);
    schema.dependent_schemas.push(("credit_card".to_string(), dependent));

    assert!(validate_value(
        &schema,
        &obj(vec![("credit_card", s("4111")), ("billing_address", s("1 Main")), ("country", s("US"))])
    )
    .is_empty());

    let errs = validate_value(&schema, &obj(vec![("credit_card", s("4111"))]));
    assert!(errs.iter().any(|err| err.contains("billing_address") && err.contains("credit_card")));
    assert!(errs.iter().any(|err| err.contains("dependent schema") && err.contains("country")));
    assert!(errs.iter().any(|err| err.contains("dependent schema") && err.contains("at least 3")));
}

#[test]
fn validates_if_then_else_conditionals() {
    let mut schema = schema_with_properties(vec![
        ("kind", SchemaNode::string(), true),
        ("admin_code", SchemaNode::string(), false),
        ("guest_token", SchemaNode::string(), false),
    ]);

    let mut if_schema = schema_with_properties(vec![("kind", SchemaNode::string(), true)]);
    if_schema.properties[0].1.enum_values.push(s("admin"));

    let then_schema = schema_with_properties(vec![("admin_code", SchemaNode::string(), true)]);
    let else_schema = schema_with_properties(vec![("guest_token", SchemaNode::string(), true)]);
    schema.if_schema = Some(Box::new(if_schema));
    schema.then_schema = Some(Box::new(then_schema));
    schema.else_schema = Some(Box::new(else_schema));

    assert!(validate_value(&schema, &obj(vec![("kind", s("admin")), ("admin_code", s("A1"))])).is_empty());
    assert!(validate_value(&schema, &obj(vec![("kind", s("guest")), ("guest_token", s("G1"))])).is_empty());

    let errs = validate_value(&schema, &obj(vec![("kind", s("admin"))]));
    assert!(errs.iter().any(|err| err.contains("then schema") && err.contains("admin_code")));

    let errs = validate_value(&schema, &obj(vec![("kind", s("guest"))]));
    assert!(errs.iter().any(|err| err.contains("else schema") && err.contains("guest_token")));
}

#[test]
fn enum_values_win_over_defaults() {
    let mut schema = SchemaNode::string();
    schema.enum_values = vec![s("active"), s("archived")];
    let value = synthesize_value(&schema);
    assert!(matches!(value, JsonValue::String(ref t) if t == "active"));
}

#[test]
fn validation_messages_are_exact() {
    let mut schema = schema_with_properties(vec![("age", typed(SchemaNodeType::Integer), true)]);
    schema.properties[0].1.minimum = Some(JsonNumber::PosInt(18));
    let errs = validate_value(&schema, &obj(vec![("age", num(7))]));
    assert_eq!(errs, vec!["$.age: expected number >= 18 but got 7".to_string()]);

    let errs = validate_value(&schema, &obj(vec![]));
    assert_eq!(errs, vec!["$.age: required property missing".to_string()]);

    let errs = validate_value(&SchemaNode::string(), &JsonValue::Null);
    assert_eq!(errs, vec!["$: expected string but got null".to_string()]);

    let errs = validate_value(&SchemaNode::string(), &num(3));
    assert_eq!(errs, vec!["$: expected string but got number".to_string()]);
}

#[test]
fn numbers_print_as_plain_decimals() {
    let mut schema = typed(SchemaNodeType::Number);
    schema.maximum = Some(JsonNumber::Float("1e-7".to_string()));
    let errs = validate_value(&schema, &float("2.5e3"));
    assert_eq!(errs, vec!["$: expected number <= 0.0000001 but got 2500".to_string()]);

    let mut step = typed(SchemaNodeType::Number);
    step.multiple_of = Some(JsonNumber::Float("0.5".to_string()));
    assert!(validate_value(&step, &float("7.5")).is_empty());
    let errs = validate_value(&step, &float("7.25"));
    assert_eq!(errs, vec!["$: expected number to be a multiple of 0.5 but got 7.25".to_string()]);
}

#[test]
fn enum_message_shortens_long_values() {
    let mut schema = SchemaNode::string();
    schema.enum_values = vec![s("x")];
    let long = "abcdefghijklmnopqrstuvwxyzabcdefghijklmnopqrstuvwxyz";
    let errs = validate_value(&schema, &s(long));
    assert_eq!(errs.len(), 1);
    assert_eq!(errs[0], format!("$: value \"{}... is not in the declared enum", &long[..39]));
}

#[test]
fn date_formats_are_checked() {
    let mut date = SchemaNode::string();
    date.format = Some("date".to_string());
    assert!(validate_value(&date, &s("2026-01-31")).is_empty());
    assert_eq!(
        validate_value(&date, &s("2026-1-31")),
        vec!["$: string is not a valid date format".to_string()]
    );
    let mut stamp = SchemaNode::string();
    stamp.format = Some("date-time".to_string());
    assert!(validate_value(&stamp, &s("2026-01-31T10:00:00Z")).is_empty());
    assert!(validate_value(&stamp, &s("2026-01-31T10:00:00-05:00")).is_empty());
    assert!(!validate_value(&stamp, &s("2026-01-31 10:00:00")).is_empty());
}

#[test]
fn every_message_starts_with_its_path() {
    let mut schema = SchemaNode::object();
    let mut name = SchemaNode::string();
    name.required = true;
    let mut tags = SchemaNode::array(SchemaNode::string());
    tags.min_items = Some(3);
    schema.properties.push(("name".to_string(), name));
    schema.properties.push(("tags".to_string(), tags));
    schema.allow_additional_properties = false;
    let value = JsonValue::Object(vec![
        ("tags".to_string(), JsonValue::Array(vec![num(1)])),
        ("extra".to_string(), s("x")),
    ]);
    let errors = validate_value(&schema, &value);
    assert!(errors.len() >= 3);
    assert!(errors.iter().all(|e| e.starts_with("$")));
    assert!(errors.iter().any(|e| e.starts_with("$.tags[0]")));
}

#[test]
fn validate_at_keeps_earlier_messages() {
    let mut errors = vec!["earlier".to_string()];
    let path: Vec<char> = "$.x".chars().collect();
    validate_at(&SchemaNode::string(), &num(3), &path, &mut errors);
    assert_eq!(errors[0], "earlier");
    assert!(errors.len() >= 2);
    assert!(errors[1..].iter().all(|e| e.starts_with("$.x")));
}
