use albert::gateway::calendar::{epoch_to_civil, rfc3339_of};
use albert::gateway::templating::{
    apply_templates, fake_uuid_v4, is_sensitive_env_name, TemplateContext, TemplateRng,
};
use albert::json::JsonValue;

fn s(v: &str) -> JsonValue {
    JsonValue::String(v.to_string())
}

fn obj(entries: Vec<(&str, JsonValue)>) -> JsonValue {
    JsonValue::Object(entries.into_iter().map(|(k, v)| (k.to_string(), v)).collect())
}

fn field<'a>(v: &'a JsonValue, key: &str) -> &'a JsonValue {
    match v {
        JsonValue::Object(m) => &m.iter().find(|(k, _)| k == key).unwrap().1,
        _ => panic!("not an object"),
    }
}

fn text(v: &JsonValue) -> &str {
    match v {
        JsonValue::String(t) => t.as_str(),
        _ => panic!("not a string"),
    }
}

fn ctx() -> TemplateContext {
    TemplateContext::capture(Vec::new())
}

fn params(pairs: &[(&str, &str)]) -> Vec<(String, String)> {
    pairs.iter().map(|(k, v)| (k.to_string(), v.to_string())).collect()
}

#[test]
fn leaves_plain_strings_untouched() {
    let v = obj(vec![("message", s("hello"))]);
    let out = apply_templates(&v, &Vec::new(), &mut ctx());
    assert_eq!(format!("{:?}", out), format!("{:?}", v));
}

#[test]
fn substitutes_path_params() {
    let v = obj(vec![("id", s("{{path.id}}")), ("name", s("Ada"))]);
    let out = apply_templates(&v, &params(&[("id", "42")]), &mut ctx());
    assert_eq!(text(field(&out, "id")), "42");
    assert_eq!(text(field(&out, "name")), "Ada");
}

#[test]
fn substitutes_unknown_params_with_empty() {
    let v = obj(vec![("id", s("{{path.missing}}"))]);
    let out = apply_templates(&v, &Vec::new(), &mut ctx());
    assert_eq!(text(field(&out, "id")), "");
}

#[test]
fn leaves_unknown_tokens_in_place() {
    let v = obj(vec![("x", s("{{wat.is.this}}"))]);
    let out = apply_templates(&v, &Vec::new(), &mut ctx());
    assert_eq!(text(field(&out, "x")), "{{wat.is.this}}");
}

#[test]
fn handles_mixed_literals_and_tokens() {
    let v = obj(vec![("msg", s("order {{path.id}} @ {{now.epoch_ms}}ms"))]);
    let out = apply_templates(&v, &params(&[("id", "42")]), &mut ctx());
    let msg = text(field(&out, "msg"));
    assert!(msg.starts_with("order 42 @ "));
    assert!(msg.ends_with("ms"));
}

#[test]
fn generates_uuid_shaped_string() {
    let v = obj(vec![("id", s("{{uuid}}"))]);
    let out = apply_templates(&v, &Vec::new(), &mut ctx());
    let id = text(field(&out, "id"));
    let parts: Vec<&str> = id.split('-').collect();
    assert_eq!(parts.len(), 5);
    assert_eq!(parts[0].len(), 8);
    assert_eq!(parts[1].len(), 4);
    assert_eq!(parts[2].len(), 4);
    assert_eq!(parts[3].len(), 4);
    assert_eq!(parts[4].len(), 12);
}

#[test]
fn random_int_respects_bound() {
    let v = s("{{random.int.10}}");
    let mut c = ctx();
    for _ in 0..50 {
        let out = apply_templates(&v, &Vec::new(), &mut c);
        let n: u64 = text(&out).parse().unwrap();
        assert!(n < 10, "{n}");
    }
}

#[test]
fn now_looks_like_rfc3339() {
    let c = ctx();
    let s = c.now_text.as_str();
    assert!(s.ends_with('Z'), "{s}");
    assert!(s.contains('T'));
    assert_eq!(s.split('T').next().unwrap().len(), 10);
}

#[test]
fn env_token_resolves_to_env_var_value() {
    let env = params(&[("ALBERT_TEMPLATE_TEST_NAME", "canary")]);
    let v = s("hello {{env.ALBERT_TEMPLATE_TEST_NAME}}");
    let out = apply_templates(&v, &Vec::new(), &mut TemplateContext::capture(env));
    assert_eq!(text(&out), "hello canary");
}

#[test]
fn env_token_missing_var_expands_to_empty_string() {
    let v = s("value=[{{env.ALBERT_TEMPLATE_DEFINITELY_UNSET}}]");
    let out = apply_templates(&v, &Vec::new(), &mut ctx());
    assert_eq!(text(&out), "value=[]");
}

#[test]
fn env_token_refuses_sensitive_names_even_when_set() {
    let env = params(&[("ALBERT_TEMPLATE_API_KEY", "super-secret"), ("ALBERT_TEMPLATE_AUTH_TOKEN", "bearer-xyz")]);
    for name in ["ALBERT_TEMPLATE_API_KEY", "ALBERT_TEMPLATE_AUTH_TOKEN"] {
        let v = JsonValue::String(format!("[{{{{env.{name}}}}}]"));
        let out = apply_templates(&v, &Vec::new(), &mut TemplateContext::capture(env.clone()));
        assert_eq!(text(&out), "[]", "sensitive env var leaked: {name}");
    }
}

#[test]
fn is_sensitive_env_name_flags_common_secret_shapes() {
    assert!(is_sensitive_env_name("OPENAI_API_KEY"));
    assert!(is_sensitive_env_name("ANTHROPIC_API_KEY"));
    assert!(is_sensitive_env_name("GITHUB_TOKEN"));
    assert!(is_sensitive_env_name("MY_COOKIE_SECRET"));
    assert!(is_sensitive_env_name("DB_PASSWORD"));
    assert!(is_sensitive_env_name("basic_auth_user"));
    assert!(is_sensitive_env_name("TLS_PRIVATE_KEY_PATH"));
    assert!(!is_sensitive_env_name("BUILD_NUMBER"));
    assert!(!is_sensitive_env_name("HOSTNAME"));
    assert!(!is_sensitive_env_name("DEPLOY_ENV"));
}

#[test]
fn context_at_known_instant_renders_time_texts() {
    // 2024-02-29T12:34:56.789Z
    let nanos: u128 = 1_709_210_096_789_000_000;
    let c = TemplateContext::at(nanos, Vec::new());
    assert_eq!(c.now_text, "2024-02-29T12:34:56Z");
    assert_eq!(c.now_ms_text, "1709210096789");
    let v = s("{{now}}|{{now.epoch_ms}}");
    let mut c2 = TemplateContext::at(nanos, Vec::new());
    let out = apply_templates(&v, &Vec::new(), &mut c2);
    assert_eq!(text(&out), "2024-02-29T12:34:56Z|1709210096789");
}

#[test]
fn calendar_conversion_matches_known_dates() {
    assert_eq!(epoch_to_civil(0), (1970, 1, 1, 0, 0, 0));
    assert_eq!(epoch_to_civil(951_782_400), (2000, 2, 29, 0, 0, 0));
    assert_eq!(epoch_to_civil(4_102_444_799), (2099, 12, 31, 23, 59, 59));
    assert_eq!(rfc3339_of(86_399).iter().collect::<String>(), "1970-01-01T23:59:59Z");
}

#[test]
fn uuid_draw_sets_version_and_variant_bits() {
    let mut rng = TemplateRng { state: 7, reseed: 1 };
    let id: String = fake_uuid_v4(&mut rng).into_iter().collect();
    let parts: Vec<&str> = id.split('-').collect();
    assert!(parts[2].starts_with('4'));
    assert!(matches!(parts[3].chars().next().unwrap(), '8' | '9' | 'a' | 'b'));
    assert_ne!(rng.state, 7);
}

#[test]
fn random_stream_is_reproducible_from_its_state() {
    let mut a = TemplateRng { state: 99, reseed: 5 };
    let mut b = TemplateRng { state: 99, reseed: 5 };
    for _ in 0..10 {
        assert_eq!(a.next_random_int(1000), b.next_random_int(1000));
    }
    let mut z = TemplateRng { state: 0, reseed: 5 };
    let mut r = TemplateRng { state: 5, reseed: 5 };
    assert_eq!(z.next_random_int(1_000_000), r.next_random_int(1_000_000));
}

#[test]
fn spaced_unknown_tokens_keep_their_text() {
    let v = obj(vec![("x", s("a {{ wat.is.this }} b"))]);
    let out = apply_templates(&v, &Vec::new(), &mut ctx());
    assert_eq!(text(field(&out, "x")), "a {{ wat.is.this }} b");
}
