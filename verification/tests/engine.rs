use pact_mcp_plugin::auth::AuthError;
use pact_mcp_plugin::cli::{compare_fixture, interaction_description, verify_step, verify_target, VerifyReport, VerifyTarget};
use pact_mcp_plugin::content::{match_structural_request, Rules};
use pact_mcp_plugin::model::{McpInteraction, Operation};
use pact_mcp_plugin::transport::{call_tool_params, list_result, normalize_call_result, TransportError, SUPPORTED_PROTOCOL_VERSION};
use pact_mcp_plugin::verify::{provider_env, stdio_server_config, StdioServerConfig, VerifyError, PROVIDER_STATES_VAR};
use pact_mcp_plugin::json::Json;
use serde_json::Value;

fn to_json(v: &Value) -> Json {
    match v {
        Value::Null => Json::Null,
        Value::Bool(b) => Json::Bool(*b),
        Value::Number(n) => Json::Number(n.to_string()),
        Value::String(s) => Json::Str(s.clone()),
        Value::Array(a) => Json::Array(a.iter().map(to_json).collect()),
        Value::Object(o) => Json::Object(o.iter().map(|(k, v)| (k.clone(), to_json(v))).collect()),
    }
}

fn to_value(j: &Json) -> Value {
    match j {
        Json::Null => Value::Null,
        Json::Bool(b) => Value::Bool(*b),
        Json::Number(n) => serde_json::from_str(n).unwrap(),
        Json::Str(s) => Value::String(s.clone()),
        Json::Array(a) => Value::Array(a.iter().map(to_value).collect()),
        Json::Object(o) => Value::Object(o.iter().map(|(k, v)| (k.clone(), to_value(v))).collect()),
    }
}

fn v(text: &str) -> Value {
    serde_json::from_str(text).unwrap()
}

fn j(text: &str) -> Json {
    to_json(&v(text))
}

#[test]
fn call_tool_params_need_a_name() {
    let p = call_tool_params(&j(r#"{ "name": "get_weather", "arguments": { "city": "Melbourne" } }"#)).unwrap();
    assert_eq!(p.name, "get_weather");
    assert_eq!(p.arguments.unwrap().len(), 1);
    let no_args = call_tool_params(&j(r#"{ "name": "n", "arguments": [1] }"#)).unwrap();
    assert!(no_args.arguments.is_none());
    let e = call_tool_params(&j(r#"{ "arguments": {} }"#)).unwrap_err();
    assert_eq!(e.message(), "request failed: mcp.request.name is required for tools/call");
}

#[test]
fn call_results_state_is_error() {
    let r = normalize_call_result(j(r#"{ "content": [] }"#));
    assert_eq!(to_value(&r), v(r#"{ "content": [], "isError": false }"#));
    let kept = normalize_call_result(j(r#"{ "content": [], "isError": true }"#));
    assert_eq!(to_value(&kept), v(r#"{ "content": [], "isError": true }"#));
    assert_eq!(to_value(&normalize_call_result(j("[]"))), v("[]"));
}

#[test]
fn the_supported_protocol_version_is_pinned() {
    assert_eq!(SUPPORTED_PROTOCOL_VERSION, "2025-06-18");
}

#[test]
fn list_results_sit_under_their_field() {
    assert_eq!(to_value(&list_result("tools", j(r#"[ { "name": "t" } ]"#))), v(r#"{ "tools": [ { "name": "t" } ] }"#));
}

#[test]
fn transport_and_verify_errors_describe_themselves() {
    assert_eq!(TransportError::Connect("x".to_string()).message(), "failed to spawn/connect transport: x");
    assert_eq!(TransportError::Handshake("y".to_string()).message(), "initialize handshake failed: y");
    let v = VerifyError::Transport(TransportError::Request("z".to_string()));
    assert_eq!(v.message(), "request failed: z");
    let a = VerifyError::Auth(AuthError::MissingEnv("T".to_string()));
    assert_eq!(a.message(), "environment variable `T` referenced by auth config is not set");
}

#[test]
fn verification_config_needs_a_command() {
    let c = stdio_server_config(&j(r#"{ "command": "node", "args": ["server.mjs", 3, "--flag"] }"#)).unwrap();
    assert_eq!(c.command, "node");
    assert_eq!(c.args, vec!["server.mjs".to_string(), "--flag".to_string()]);
    assert!(c.env.is_empty());
    assert!(stdio_server_config(&j(r#"{ "command": "node" }"#)).unwrap().args.is_empty());
    assert_eq!(
        stdio_server_config(&j(r#"{ "args": [] }"#)).unwrap_err(),
        "verification config.command is required for stdio verification"
    );
}

#[test]
fn provider_states_are_handed_over_in_the_environment() {
    let server = StdioServerConfig {
        command: "node".to_string(),
        args: vec![],
        env: vec![("A".to_string(), "1".to_string()), (PROVIDER_STATES_VAR.to_string(), "old".to_string())],
    };
    let mut i = McpInteraction::new(Operation::ToolsCall, j("{}"), j("{}"));
    assert_eq!(provider_env(&i, &server), server.env);
    i.provider_states = Some(j(r#"[ { "name": "the Hobart weather is known", "params": { "city": "Hobart" } } ]"#));
    let env = provider_env(&i, &server);
    assert_eq!(env.len(), 2);
    assert_eq!(env[0], ("A".to_string(), "1".to_string()));
    assert_eq!(env[1].0, "PACT_MCP_PROVIDER_STATES");
    assert_eq!(serde_json::from_str::<Value>(&env[1].1).unwrap(), to_value(i.provider_states.as_ref().unwrap()));
    let fresh = StdioServerConfig { command: "node".to_string(), args: vec![], env: vec![] };
    assert_eq!(provider_env(&i, &fresh).len(), 1);
}

#[test]
fn compare_fixture_reports_a_pass() {
    let fixture = j(r#"{
        "operation": "tools/call",
        "interaction": {
            "mcp": { "response": { "content": [ { "type": "text", "text": "Sunny, 22C" } ], "isError": false } },
            "matchingRules": { "response": { "$.content[0].text": { "matchers": [ { "match": "type" } ] } } }
        },
        "actual": { "content": [ { "type": "text", "text": "Cloudy" } ], "isError": false }
    }"#);
    let out = compare_fixture(&fixture).unwrap();
    assert!(out.is_match);
    assert!(out.mismatch_paths.is_empty());
}

#[test]
fn compare_fixture_reports_a_mismatch_with_paths() {
    let fixture = j(r#"{
        "interaction": { "mcp": { "response": { "content": [ { "type": "text", "text": "Sunny, 22C" } ], "isError": false } } },
        "actual": { "content": [ { "type": "text", "text": "Raining" } ], "isError": false }
    }"#);
    let out = compare_fixture(&fixture).unwrap();
    assert!(!out.is_match);
    assert_eq!(out.mismatch_paths, vec!["$.content[0].text".to_string()]);
}

#[test]
fn compare_fixture_rejects_an_unknown_operation() {
    let out = compare_fixture(&j(r#"{ "operation": "tools/dance" }"#));
    assert_eq!(out.unwrap_err(), "unknown operation tools/dance");
}

#[test]
fn verify_target_prefers_the_url_and_needs_one_of_them() {
    let env = vec![("TOKEN".to_string(), "t-1".to_string())];
    let auth = j(r#"{ "type": "bearer", "token": "${TOKEN}" }"#);
    match verify_target(Some("http://x/".to_string()), Some("node".to_string()), vec![], Some(&auth), &env).unwrap() {
        VerifyTarget::Http { url, auth } => {
            assert_eq!(url, "http://x/");
            assert_eq!(auth.auth_header.as_deref(), Some("t-1"));
        }
        other => panic!("unexpected {other:?}"),
    }
    match verify_target(None, Some("node".to_string()), vec!["s.mjs".to_string()], None, &env).unwrap() {
        VerifyTarget::Stdio(c) => {
            assert_eq!(c.command, "node");
            assert_eq!(c.args, vec!["s.mjs".to_string()]);
        }
        other => panic!("unexpected {other:?}"),
    }
    assert_eq!(
        verify_target(None, None, vec![], None, &env).unwrap_err(),
        "verify requires either --url <url> (http) or --command <cmd> (stdio)"
    );
    assert_eq!(
        verify_target(Some("u".to_string()), None, vec![], Some(&j(r#"{ "type": "x" }"#)), &env).unwrap_err(),
        "invalid auth config: unknown auth type `x`"
    );
}

#[test]
fn verify_report_lists_each_interaction_and_overall_success() {
    let mut report = VerifyReport::new();
    assert_eq!(to_value(&report.to_json()), v(r#"{ "interactions": [], "success": true }"#));
    let same = match_structural_request(&j(r#"{ "a": 1 }"#), &j(r#"{ "a": 1 }"#), &Rules::none());
    report.add_result("first", &same);
    assert_eq!(to_value(&report.to_json())["success"], true);
    let differ = match_structural_request(&j(r#"{ "a": 1 }"#), &j(r#"{ "a": 2 }"#), &Rules::none());
    report.add_result("second", &differ);
    report.add_error("third", "request failed: boom");
    let out = to_value(&report.to_json());
    assert_eq!(out["success"], false);
    assert_eq!(out["interactions"][0], v(r#"{ "description": "first", "success": true, "mismatches": [] }"#));
    assert_eq!(out["interactions"][1]["success"], false);
    assert_eq!(out["interactions"][1]["mismatches"][0]["path"], "$.a");
    assert_eq!(out["interactions"][2], v(r#"{ "description": "third", "success": false, "error": "request failed: boom" }"#));
}

#[test]
fn interaction_description_defaults_to_empty() {
    assert_eq!(interaction_description(&j(r#"{ "description": "d" }"#)), "d");
    assert_eq!(interaction_description(&j(r#"{ "description": 1 }"#)), "");
    assert_eq!(interaction_description(&j("{}")), "");
}

#[test]
fn verify_step_decodes_an_interaction_with_its_description_and_rules() {
    let interaction = j(r#"{
        "description": "weather",
        "pluginConfiguration": { "mcp": { "operation": "tools/call" } },
        "request": { "contents": { "content": { "name": "get_weather", "arguments": {} } } },
        "response": [ { "contents": { "content": { "content": [], "isError": false } },
                        "matchingRules": { "body": { "$.isError": { "matchers": [ { "match": "type" } ] } } } } ]
    }"#);
    let step = verify_step(&interaction).expect("decodable");
    assert_eq!(step.description, "weather");
    assert_eq!(step.interaction.operation, Operation::ToolsCall);
    assert_eq!(to_value(&step.interaction.request), v(r#"{ "name": "get_weather", "arguments": {} }"#));
    assert_eq!(
        to_value(step.response_rules.as_ref().unwrap()),
        v(r#"{ "$.isError": { "matchers": [ { "match": "type" } ] } }"#)
    );
    assert!(verify_step(&j(r#"{ "description": "no operation" }"#)).is_none());
}

#[test]
fn add_outcome_records_a_result_or_an_error() {
    let mut report = VerifyReport::new();
    let same = match_structural_request(&j(r#"{ "a": 1 }"#), &j(r#"{ "a": 1 }"#), &Rules::none());
    report.add_outcome("ok", &Ok(same));
    assert_eq!(to_value(&report.to_json())["success"], true);
    report.add_outcome("down", &Err(VerifyError::Transport(TransportError::Request("boom".to_string()))));
    let out = to_value(&report.to_json());
    assert_eq!(out["success"], false);
    assert_eq!(out["interactions"][0], v(r#"{ "description": "ok", "success": true, "mismatches": [] }"#));
    assert_eq!(out["interactions"][1], v(r#"{ "description": "down", "success": false, "error": "request failed: boom" }"#));
}
