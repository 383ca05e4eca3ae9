use pact_mcp_plugin::config::{MatchingRule, MatchingRules, RuleMap};
use pact_mcp_plugin::mock::MockResult;
use pact_mcp_plugin::model::{McpInteraction, Operation, CONTENT_TYPE};
use pact_mcp_plugin::server::{
    compare_contents, content_mismatch, extract_interaction, interaction_from_value, mock_transport, request_matching_rules,
    response_matching_rules, results_ok, server_key_accepted, stdio_handoff, to_proto_result, verification_body, MockServerResult, MockTransport,
};
use pact_mcp_plugin::content::Mismatch;
use pact_mcp_plugin::json::Json;
use serde_json::Value;

fn to_json(v: &Value) -> Json {
    match v {
        Value::Null => Json::Null,
        Value::Bool(b) => Json::Bool(*b),
        Value::Number(n) => Json::Number(n.to_string()),
        Value::String(s) => Json::Str(s.clone()),
        Value::Array(a) => Json::Array(a.iter().map(to_json).collect()),
        Value::Object(o) => Json::Object(o.iter().map(|(k, v)| (k.clone(), to_json(v))).collect()),
    }
}

fn to_value(j: &Json) -> Value {
    match j {
        Json::Null => Value::Null,
        Json::Bool(b) => Value::Bool(*b),
        Json::Number(n) => serde_json::from_str(n).unwrap(),
        Json::Str(s) => Value::String(s.clone()),
        Json::Array(a) => Value::Array(a.iter().map(to_value).collect()),
        Json::Object(o) => Value::Object(o.iter().map(|(k, v)| (k.clone(), to_value(v))).collect()),
    }
}

fn v(text: &str) -> Value {
    serde_json::from_str(text).unwrap()
}

fn j(text: &str) -> Json {
    to_json(&v(text))
}

fn two_part() -> Json {
    j(r#"{
        "description": "weather for any city",
        "key": "k-1",
        "pluginConfiguration": { "mcp": { "operation": "tools/call", "server": { "transport": "stdio" } } },
        "request": {
            "contents": { "content": { "name": "get_weather", "arguments": { "city": "Melbourne" } } },
            "matchingRules": { "body": { "$.arguments.city": { "matchers": [ { "match": "type" } ] } } }
        },
        "response": [
            {
                "contents": { "content": { "content": [ { "type": "text", "text": "Sunny, 22C" } ], "isError": false } },
                "matchingRules": { "body": { "$.content[0].text": { "matchers": [ { "match": "type" } ] } } }
            }
        ]
    }"#)
}

#[test]
fn reads_the_two_part_shape() {
    let i = interaction_from_value(&two_part()).unwrap();
    assert_eq!(i.operation, Operation::ToolsCall);
    assert_eq!(to_value(&i.request), v(r#"{ "name": "get_weather", "arguments": { "city": "Melbourne" } }"#));
    assert_eq!(to_value(&i.response)["content"][0]["text"], "Sunny, 22C");
    assert_eq!(i.server.unwrap().transport, "stdio");
    assert_eq!(i.schema_version, "0");
    assert!(i.provider_states.is_none());
}

#[test]
fn reads_the_single_fragment_shape() {
    let i = interaction_from_value(&j(r#"{ "contents": { "mcp": {
        "schemaVersion": "0", "operation": "resources/read",
        "request": { "uri": "weather://melbourne/report" }, "response": { "contents": [] } } } }"#))
    .unwrap();
    assert_eq!(i.operation, Operation::ResourcesRead);
    let bare = interaction_from_value(&j(r#"{ "mcp": { "schemaVersion": "0", "operation": "prompts/list",
        "request": {}, "response": {} } }"#))
    .unwrap();
    assert_eq!(bare.operation, Operation::PromptsList);
    let bad = interaction_from_value(&j(r#"{ "mcp": { "schemaVersion": "0", "operation": "nope", "request": {}, "response": {} } }"#));
    assert_eq!(bad.unwrap_err(), "unknown mcp operation `nope`");
}

#[test]
fn two_part_defaults_operation_from_the_response_and_response_to_null() {
    let listed = interaction_from_value(&j(r#"{
        "request": { "contents": {} },
        "response": { "contents": { "content": { "tools": [] } } }
    }"#))
    .unwrap();
    assert_eq!(listed.operation, Operation::ToolsList);
    assert_eq!(to_value(&listed.request), v("{}"));
    let called = interaction_from_value(&j(r#"{ "request": { "contents": { "content": { "name": "x" } } } }"#)).unwrap();
    assert_eq!(called.operation, Operation::ToolsCall);
    assert_eq!(to_value(&called.response), Value::Null);
    assert!(called.server.is_none());
}

#[test]
fn neither_shape_is_an_error() {
    assert_eq!(
        interaction_from_value(&j(r#"{ "description": "http" }"#)).unwrap_err(),
        "interaction has neither contents.mcp nor request.contents.content"
    );
}

#[test]
fn extracts_by_description_or_key() {
    let pact = Json::Array(vec![]);
    assert_eq!(extract_interaction(&pact, "x").unwrap_err(), "pact has no interactions");
    let pact = Json::Object(vec![("interactions".to_string(), Json::Array(vec![two_part()]))]);
    assert!(extract_interaction(&pact, "weather for any city").is_ok());
    assert!(extract_interaction(&pact, "k-1").is_ok());
    assert_eq!(extract_interaction(&pact, "other").unwrap_err(), "no interaction found for key `other`");
}

#[test]
fn matching_rules_are_read_from_either_side() {
    let i = two_part();
    assert_eq!(
        to_value(&request_matching_rules(&i).unwrap()),
        v(r#"{ "$.arguments.city": { "matchers": [ { "match": "type" } ] } }"#)
    );
    assert_eq!(
        to_value(&response_matching_rules(&i).unwrap()),
        v(r#"{ "$.content[0].text": { "matchers": [ { "match": "type" } ] } }"#)
    );
    let single = j(r#"{ "matchingRules": { "request": { "a": 1 }, "response": { "b": 2 } } }"#);
    assert_eq!(to_value(&request_matching_rules(&single).unwrap()), v(r#"{ "a": 1 }"#));
    assert_eq!(to_value(&response_matching_rules(&single).unwrap()), v(r#"{ "b": 2 }"#));
    assert!(request_matching_rules(&j("{}")).is_none());
    assert!(response_matching_rules(&j("{}")).is_none());
}

#[test]
fn mock_results_map_to_plugin_records() {
    let ok = to_proto_result(MockResult { path: "tools/list".to_string(), error: None, mismatches: vec![] });
    assert_eq!(ok.path, "tools/list");
    assert_eq!(ok.error, "");
    assert!(ok.mismatches.is_empty());
    let miss = to_proto_result(MockResult {
        path: "tools/call".to_string(),
        error: Some("unexpected".to_string()),
        mismatches: vec!["$.arguments.city".to_string()],
    });
    assert_eq!(miss.error, "unexpected");
    assert_eq!(miss.mismatches.len(), 1);
    assert_eq!(miss.mismatches[0].path, "$.arguments.city");
    assert_eq!(miss.mismatches[0].mismatch, "no interaction matched at $.arguments.city");
    assert_eq!(miss.mismatches[0].mismatch_type, "body");
    assert!(miss.mismatches[0].expected.is_none());
    assert!(results_ok(&vec![ok]));
    let records: Vec<MockServerResult> = vec![miss];
    assert!(!results_ok(&records));
    assert!(results_ok(&vec![]));
}

#[test]
fn compare_contents_reports_mismatches_with_json_bytes() {
    let mut rules = RuleMap::new();
    rules.insert(
        "$.content[0].text".to_string(),
        MatchingRules { rule: vec![MatchingRule { rule_type: "type".to_string() }] },
    );
    let expected = j(r#"{ "content": [ { "type": "text", "text": "a" } ], "isError": false }"#);
    let other_text = j(r#"{ "content": [ { "type": "text", "text": "b" } ], "isError": false }"#);
    assert!(compare_contents(&expected, &other_text, Some("tools/call"), &rules).is_empty());
    let wrong_flag = j(r#"{ "content": [ { "type": "text", "text": "b" } ], "isError": true }"#);
    let found = compare_contents(&expected, &wrong_flag, None, &rules);
    assert_eq!(found.len(), 1);
    assert_eq!(found[0].path, "$.isError");

    let plain = RuleMap::new();
    let found = compare_contents(&expected, &other_text, Some("bogus"), &plain);
    assert_eq!(found.len(), 1);
    assert_eq!(found[0].path, "$.content[0].text");
    assert_eq!(found[0].expected.as_deref(), Some(&b"\"a\""[..]));
    assert_eq!(found[0].actual.as_deref(), Some(&b"\"b\""[..]));
    assert_eq!(found[0].mismatch_type, "body");
    assert_eq!(found[0].diff, "");
}

#[test]
fn content_mismatch_renders_both_values() {
    let m = Mismatch { path: "$.x".to_string(), expected: j(r#"{"a":[1,true,null]}"#), actual: Json::Null, message: "m".to_string() };
    let c = content_mismatch(&m);
    assert_eq!(c.expected.unwrap(), br#"{"a":[1,true,null]}"#.to_vec());
    assert_eq!(c.actual.unwrap(), b"null".to_vec());
    assert_eq!(c.mismatch, "m");
}

#[test]
fn mock_transport_is_http_only_when_asked() {
    assert_eq!(mock_transport(None), MockTransport::Stdio);
    assert_eq!(mock_transport(Some(&j(r#"{ "transport": "http" }"#))), MockTransport::Http);
    assert_eq!(mock_transport(Some(&j(r#"{ "transport": "stdio" }"#))), MockTransport::Stdio);
    assert_eq!(mock_transport(Some(&j(r#"{ "transport": 1 }"#))), MockTransport::Stdio);
}

#[test]
fn stdio_handoff_names_the_mock_command() {
    let h = to_value(&stdio_handoff("/bin/plugin", "/tmp/p.json", "/tmp/r.json"));
    assert_eq!(h, v(r#"{ "transport": "stdio", "command": "/bin/plugin",
        "args": ["mock", "--pact", "/tmp/p.json", "--results", "/tmp/r.json"], "env": {} }"#));
}

#[test]
fn verification_body_is_the_request_json() {
    let i = McpInteraction::new(Operation::ToolsCall, j(r#"{"name":"n"}"#), j("{}"));
    let b = verification_body(&i);
    assert_eq!(b.content_type, CONTENT_TYPE);
    assert_eq!(b.content.unwrap(), br#"{"name":"n"}"#.to_vec());
}

#[test]
fn server_key_must_be_present_and_equal() {
    assert!(server_key_accepted(Some("k-1"), "k-1"));
    assert!(!server_key_accepted(Some("k-2"), "k-1"));
    assert!(!server_key_accepted(None, "k-1"));
    assert!(!server_key_accepted(Some(""), "k-1"));
}
