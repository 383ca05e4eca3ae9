use pact_mcp_plugin::auth::{
    from_config, interpolate_env, resolve_config, AuthConfig, AuthError, AuthProvider, ResolvedAuth,
};
use pact_mcp_plugin::config::{configure_interaction, configured_parts};
use pact_mcp_plugin::json::Json;
use serde_json::Value;

fn to_json(v: &Value) -> Json {
    match v {
        Value::Null => Json::Null,
        Value::Bool(b) => Json::Bool(*b),
        Value::Number(n) => Json::Number(n.to_string()),
        Value::String(s) => Json::Str(s.clone()),
        Value::Array(a) => Json::Array(a.iter().map(to_json).collect()),
        Value::Object(o) => Json::Object(o.iter().map(|(k, v)| (k.clone(), to_json(v))).collect()),
    }
}

fn to_value(j: &Json) -> Value {
    match j {
        Json::Null => Value::Null,
        Json::Bool(b) => Value::Bool(*b),
        Json::Number(n) => serde_json::from_str(n).unwrap(),
        Json::Str(s) => Value::String(s.clone()),
        Json::Array(a) => Value::Array(a.iter().map(to_value).collect()),
        Json::Object(o) => Value::Object(o.iter().map(|(k, v)| (k.clone(), to_value(v))).collect()),
    }
}

fn j(text: &str) -> Json {
    to_json(&serde_json::from_str::<Value>(text).unwrap())
}

fn no_env() -> Vec<(String, String)> {
    Vec::new()
}

fn env(pairs: &[(&str, &str)]) -> Vec<(String, String)> {
    pairs.iter().map(|(k, v)| (k.to_string(), v.to_string())).collect()
}

fn is_empty(r: &ResolvedAuth) -> bool {
    r.auth_header.is_none() && r.custom_headers.is_empty()
}

#[test]
fn bearer_resolves_to_auth_header() {
    let a = from_config(&j(r#"{ "type": "bearer", "token": "abc123" }"#)).unwrap();
    let r = a.resolve(&no_env()).unwrap();
    assert_eq!(r.auth_header.as_deref(), Some("abc123"));
    assert!(r.custom_headers.is_empty());
}

#[test]
fn api_key_resolves_to_a_custom_header() {
    let a = from_config(&j(r#"{ "type": "apiKey", "header": "X-API-Key", "value": "sekret" }"#)).unwrap();
    let r = a.resolve(&no_env()).unwrap();
    assert_eq!(r.auth_header, None);
    assert_eq!(r.custom_headers, vec![("X-API-Key".to_string(), "sekret".to_string())]);
}

#[test]
fn headers_resolve_verbatim() {
    let a = from_config(&j(r#"{ "type": "headers", "headers": { "X-A": "1" } }"#)).unwrap();
    let r = a.resolve(&no_env()).unwrap();
    assert_eq!(r.custom_headers, vec![("X-A".to_string(), "1".to_string())]);
}

#[test]
fn env_interpolation_resolves_from_the_environment() {
    let snapshot = env(&[("PACT_MCP_TEST_TOKEN", "resolved-secret")]);
    let a = from_config(&j(r#"{ "type": "bearer", "token": "${PACT_MCP_TEST_TOKEN}" }"#)).unwrap();
    let r = a.resolve(&snapshot).unwrap();
    assert_eq!(r.auth_header.as_deref(), Some("resolved-secret"));
}

#[test]
fn missing_env_is_an_error_not_a_silent_empty() {
    let a = from_config(&j(r#"{ "type": "bearer", "token": "${PACT_MCP_DEFINITELY_UNSET}" }"#)).unwrap();
    assert!(matches!(a.resolve(&no_env()), Err(AuthError::MissingEnv(_))));
}

#[test]
fn interpolation_mixes_literal_and_env() {
    let snapshot = env(&[("PACT_MCP_TEST_KEY", "XYZ")]);
    assert_eq!(interpolate_env("key-${PACT_MCP_TEST_KEY}-end", &snapshot).unwrap(), "key-XYZ-end");
}

#[test]
fn no_auth_config_yields_empty() {
    assert_eq!(resolve_config(None, &no_env()).unwrap(), ResolvedAuth::default());
    assert_eq!(resolve_config(Some(&Json::Null), &no_env()).unwrap(), ResolvedAuth::default());
    assert!(is_empty(&ResolvedAuth::default()));
}

#[test]
fn secrets_never_land_in_the_persisted_pact_fragment() {
    let snapshot = env(&[("PACT_MCP_SECRET", "TOPSECRET")]);
    let auth = resolve_config(Some(&j(r#"{ "type": "bearer", "token": "${PACT_MCP_SECRET}" }"#)), &snapshot).unwrap();
    assert_eq!(auth.auth_header.as_deref(), Some("TOPSECRET"));

    let configured = configure_interaction(&j(r#"{
        "operation": "tools/call",
        "request": { "name": "get_weather", "arguments": { "city": "Melbourne" } },
        "response": { "content": [ { "type": "text", "text": "Sunny" } ], "isError": false }
    }"#))
    .unwrap();

    let body = String::from_utf8(configured.body_bytes.clone()).unwrap();
    assert!(!body.contains("TOPSECRET"));
    assert!(body.contains("get_weather"));
    let (request, response) = configured_parts(&configured);
    let request_json = String::from_utf8(request.body_bytes).unwrap();
    let response_json = String::from_utf8(response.body_bytes).unwrap();
    assert!(!request_json.contains("TOPSECRET"));
    assert!(!response_json.contains("TOPSECRET"));
    assert!(!serde_json::to_string(&to_value(&configured.fragment.to_json())).unwrap().contains("TOPSECRET"));
}

#[test]
fn missing_env_error_names_the_variable() {
    match interpolate_env("${NOPE}", &no_env()) {
        Err(AuthError::MissingEnv(v)) => assert_eq!(v, "NOPE"),
        other => panic!("unexpected {other:?}"),
    }
    let e = interpolate_env("${NOPE}", &no_env()).unwrap_err();
    assert_eq!(e.message(), "environment variable `NOPE` referenced by auth config is not set");
}

#[test]
fn unterminated_variable_is_invalid() {
    let e = interpolate_env("a-${OPEN", &no_env()).unwrap_err();
    assert!(matches!(e, AuthError::Invalid(_)));
    assert_eq!(e.message(), "invalid auth config: unterminated ${ in `a-${OPEN`");
}

#[test]
fn literal_without_variables_is_unchanged() {
    assert_eq!(interpolate_env("plain $ value {}", &no_env()).unwrap(), "plain $ value {}");
    assert_eq!(interpolate_env("", &no_env()).unwrap(), "");
}

#[test]
fn several_variables_and_first_match_in_the_snapshot() {
    let snapshot = env(&[("A", "1"), ("B", "2"), ("A", "shadowed")]);
    assert_eq!(interpolate_env("${A}/${B}/${A}", &snapshot).unwrap(), "1/2/1");
}

#[test]
fn config_errors_say_what_is_missing() {
    let cases = [
        (r#"{}"#, "invalid auth config: missing `type`"),
        (r#"{ "type": 3 }"#, "invalid auth config: missing `type`"),
        (r#"{ "type": "bearer" }"#, "invalid auth config: bearer auth requires `token`"),
        (r#"{ "type": "apiKey", "value": "v" }"#, "invalid auth config: apiKey auth requires `header`"),
        (r#"{ "type": "apiKey", "header": "h" }"#, "invalid auth config: apiKey auth requires `value`"),
        (r#"{ "type": "headers", "headers": [] }"#, "invalid auth config: headers auth requires `headers` object"),
        (r#"{ "type": "oauth" }"#, "invalid auth config: unknown auth type `oauth`"),
    ];
    for (config, message) in cases {
        let e = from_config(&j(config)).unwrap_err();
        assert_eq!(e.message(), message, "for {config}");
    }
}

#[test]
fn headers_keep_only_string_values_and_interpolate_each() {
    let snapshot = env(&[("B", "bee")]);
    let a = from_config(&j(r#"{ "type": "headers", "headers": { "X-A": "1", "X-B": "${B}", "X-C": 3 } }"#)).unwrap();
    match &a {
        AuthConfig::Headers(h) => assert_eq!(h.headers.len(), 2),
        other => panic!("unexpected {other:?}"),
    }
    let r = a.resolve(&snapshot).unwrap();
    assert_eq!(
        r.custom_headers,
        vec![("X-A".to_string(), "1".to_string()), ("X-B".to_string(), "bee".to_string())]
    );
}

#[test]
fn headers_report_the_first_unset_variable() {
    let a = from_config(&j(r#"{ "type": "headers", "headers": { "X-A": "${FIRST}", "X-B": "${SECOND}" } }"#)).unwrap();
    match a.resolve(&no_env()) {
        Err(AuthError::MissingEnv(v)) => assert_eq!(v, "FIRST"),
        other => panic!("unexpected {other:?}"),
    }
}

#[test]
fn resolve_config_parses_then_resolves() {
    let snapshot = env(&[("K", "key-9")]);
    let r = resolve_config(Some(&j(r#"{ "type": "apiKey", "header": "X-Key", "value": "${K}" }"#)), &snapshot).unwrap();
    assert_eq!(r.custom_headers, vec![("X-Key".to_string(), "key-9".to_string())]);
    let e = resolve_config(Some(&j(r#"{ "type": "nope" }"#)), &snapshot).unwrap_err();
    assert!(matches!(e, AuthError::Invalid(_)));
}
