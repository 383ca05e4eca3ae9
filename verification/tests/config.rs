use pact_mcp_plugin::config::{
    body_content_type, configure_interaction, configure_response, configured_parts, interaction_configuration,
    rules_value, rules_value_for_root, strip_root, to_proto_rules, Body, ConfigureError,
};
use pact_mcp_plugin::matchers::{parse_matcher, strip_matchers};
use pact_mcp_plugin::json::Json;
use pact_mcp_plugin::model::{McpFragment, Operation};
use serde_json::Value;

fn to_json(v: &Value) -> Json {
    match v {
        Value::Null => Json::Null,
        Value::Bool(b) => Json::Bool(*b),
        Value::Number(n) => Json::Number(n.to_string()),
        Value::String(s) => Json::Str(s.clone()),
        Value::Array(a) => Json::Array(a.iter().map(to_json).collect()),
        Value::Object(o) => Json::Object(o.iter().map(|(k, v)| (k.clone(), to_json(v))).collect()),
    }
}

fn to_value(j: &Json) -> Value {
    match j {
        Json::Null => Value::Null,
        Json::Bool(b) => Value::Bool(*b),
        Json::Number(n) => serde_json::from_str(n).unwrap(),
        Json::Str(s) => Value::String(s.clone()),
        Json::Array(a) => Value::Array(a.iter().map(to_value).collect()),
        Json::Object(o) => Value::Object(o.iter().map(|(k, v)| (k.clone(), to_value(v))).collect()),
    }
}

fn v(text: &str) -> Value {
    serde_json::from_str(text).unwrap()
}

fn j(text: &str) -> Json {
    to_json(&v(text))
}

#[test]
fn configures_a_tools_call_interaction_and_round_trips_through_our_own_matcher() {
    let contents_config = j(r#"{
        "operation": "tools/call",
        "request": { "name": "get_weather", "arguments": { "city": "Melbourne" } },
        "response": { "content": [ { "type": "text", "text": "Sunny, 22C" } ], "isError": false },
        "matchingRules": { "response": { "$.content[0].text": { "matchers": [ { "match": "type" } ] } } }
    }"#);

    let configured = configure_interaction(&contents_config).expect("valid config");
    assert_eq!(configured.fragment.mcp.operation, Operation::ToolsCall);
    assert!(configured.rules.contains_key("$.response.content[0].text"));

    let response_rules_value = rules_value_for_root(&configured.rules, "response");
    assert_eq!(
        to_value(&response_rules_value),
        v(r#"{ "$.content[0].text": { "matchers": [ { "match": "type" } ] } }"#)
    );
}

#[test]
fn rejects_an_unknown_operation() {
    let contents_config = j(r#"{ "operation": "prompts/summon", "request": {}, "response": {} }"#);
    let err = configure_interaction(&contents_config).unwrap_err();
    assert!(matches!(err, ConfigureError::UnknownOperation(_)));
    assert_eq!(err.message(), "unknown mcp operation `prompts/summon`");
}

#[test]
fn missing_fields_are_reported_in_order() {
    let cases = [
        (r#"{ "request": {}, "response": {} }"#, "operation"),
        (r#"{ "operation": 1, "request": {}, "response": {} }"#, "operation"),
        (r#"{ "operation": "tools/list", "response": {} }"#, "request"),
        (r#"{ "operation": "tools/list", "request": {} }"#, "response"),
    ];
    for (config, field) in cases {
        match configure_interaction(&j(config)) {
            Err(ConfigureError::MissingField(f)) => assert_eq!(f, field),
            other => panic!("unexpected {other:?}"),
        }
    }
    let e = configure_interaction(&j(r#"{}"#)).unwrap_err();
    assert_eq!(e.message(), "missing required field `operation` in contentsConfig");
}

#[test]
fn body_bytes_are_the_fragment_json_and_decode_back() {
    let configured = configure_interaction(&j(r#"{
        "operation": "tools/list",
        "request": {},
        "response": { "tools": [ { "name": "t", "inputSchema": { "type": "object" } } ] },
        "server": { "transport": "stdio" }
    }"#))
    .unwrap();
    let body: Value = serde_json::from_slice(&configured.body_bytes).unwrap();
    assert_eq!(body["pact:content-type"], "application/mcp+json");
    assert_eq!(body["mcp"]["schemaVersion"], "0");
    assert_eq!(body["mcp"]["operation"], "tools/list");
    assert_eq!(body["mcp"]["server"]["transport"], "stdio");
    let back = McpFragment::from_json(&to_json(&body)).unwrap();
    assert_eq!(back.mcp.operation, Operation::ToolsList);
    assert_eq!(back.mcp.server.unwrap().transport, "stdio");
}

#[test]
fn request_and_response_rules_are_namespaced() {
    let configured = configure_interaction(&j(r#"{
        "operation": "tools/call",
        "request": { "name": "n", "arguments": { "a": 1 } },
        "response": {},
        "matchingRules": {
            "request": { "$.arguments.a": { "matchers": [ { "match": "type" }, { "nomatch": 1 }, { "match": "integer" } ] } },
            "response": { "$content": { "matchers": [] }, "plain": {} }
        }
    }"#))
    .unwrap();
    assert_eq!(configured.rules.len(), 3);
    let r = configured.rules.get("$.request.arguments.a").unwrap();
    let types: Vec<&str> = r.rule.iter().map(|m| m.rule_type.as_str()).collect();
    assert_eq!(types, vec!["type", "integer"]);
    assert!(configured.rules.contains_key("$.response.content"));
    assert!(configured.rules.contains_key("$.response.plain"));
    assert!(configured.rules.get("$.response.plain").unwrap().rule.is_empty());
    assert_eq!(to_value(&rules_value_for_root(&configured.rules, "request")), v(
        r#"{ "$.arguments.a": { "matchers": [ { "match": "type" }, { "match": "integer" } ] } }"#
    ));
    assert_eq!(to_value(&rules_value(&configured.rules))["$.request.arguments.a"]["matchers"][1]["match"], "integer");
}

#[test]
fn strip_root_takes_off_the_root_only() {
    assert_eq!(strip_root("$.a.b"), "a.b");
    assert_eq!(strip_root("$a"), "a");
    assert_eq!(strip_root("$"), "");
    assert_eq!(strip_root("a.$"), "a.$");
    assert_eq!(strip_root(""), "");
}

#[test]
fn to_proto_rules_reads_match_types() {
    let r = to_proto_rules(&j(r#"{ "matchers": [ { "match": "regex", "regex": "x" }, { "match": 3 } ] }"#));
    assert_eq!(r.rule.len(), 1);
    assert_eq!(r.rule[0].rule_type, "regex");
    assert!(to_proto_rules(&j(r#"{ "matchers": {} }"#)).rule.is_empty());
}

#[test]
fn body_content_type_reads_the_content_type() {
    let b = Body { content_type: "application/mcp+json".to_string(), content: None };
    assert_eq!(body_content_type(&b), "application/mcp+json");
}

#[test]
fn configure_interaction_returns_two_part_sync_message_with_stripped_matchers() {
    let contents_config = j(r#"{
        "pact:content-type": "application/mcp+json",
        "mcp": {
            "operation": "tools/call",
            "request": { "name": "get_weather", "arguments": { "city": "Melbourne" } },
            "response": { "content": [ { "type": "text", "text": "matching(type, 'Sunny, 22C')" } ], "isError": false },
            "server": { "transport": "stdio" }
        }
    }"#);

    let response = configure_response(&contents_config);
    assert!(response.is_ok(), "expected no configure error");
    let (request_part, response_part, interaction_config) = response.unwrap();
    let parts = vec![&request_part, &response_part];
    assert_eq!(parts.len(), 2, "expected request + response parts");
    assert_eq!(request_part.part_name, "request");
    assert_eq!(response_part.part_name, "response");

    let request_body: Value = serde_json::from_slice(&request_part.body_bytes).unwrap();
    assert_eq!(request_body, v(r#"{ "name": "get_weather", "arguments": { "city": "Melbourne" } }"#));
    assert_eq!(to_value(&request_part.rules), v("{}"), "request part has no matchers");

    let response_body: Value = serde_json::from_slice(&response_part.body_bytes).unwrap();
    assert_eq!(
        response_body,
        v(r#"{ "content": [ { "type": "text", "text": "Sunny, 22C" } ], "isError": false }"#)
    );
    let rules = to_value(&response_part.rules);
    assert!(rules.get("$.content[0].text").is_some(), "expected a type matcher rule at $.content[0].text");
    assert_eq!(rules["$.content[0].text"]["matchers"][0]["match"], "type");

    assert_eq!(to_value(&interaction_config)["operation"], "tools/call");
}

#[test]
fn nested_config_is_read_under_mcp_and_persists_the_stripped_fragment() {
    let configured = configure_interaction(&j(r#"{
        "pact:content-type": "application/mcp+json",
        "mcp": {
            "operation": "tools/call",
            "request": { "name": "get_weather", "arguments": { "city": "matching(type, 'Melbourne')" } },
            "response": { "content": [ { "type": "text", "text": "Sunny" } ], "isError": false }
        }
    }"#))
    .expect("nested config");
    assert_eq!(configured.fragment.mcp.operation, Operation::ToolsCall);
    assert_eq!(to_value(&configured.fragment.mcp.request), v(r#"{ "name": "get_weather", "arguments": { "city": "Melbourne" } }"#));
    let body: Value = serde_json::from_slice(&configured.body_bytes).unwrap();
    assert_eq!(body["mcp"]["request"]["arguments"]["city"], "Melbourne");
    assert!(configured.rules.contains_key("$.request.arguments.city"));
    assert_eq!(
        to_value(&rules_value_for_root(&configured.rules, "request")),
        v(r#"{ "$.arguments.city": { "matchers": [ { "match": "type" } ] } }"#)
    );
    assert_eq!(to_value(&rules_value_for_root(&configured.rules, "response")), v("{}"));
}

#[test]
fn nested_config_without_operation_is_refused_with_its_message() {
    let response = configure_response(&j(r#"{ "mcp": { "request": {}, "response": {} } }"#));
    match response {
        Err(message) => assert_eq!(message, "missing required field `operation` in contentsConfig"),
        Ok(_) => panic!("expected a refusal"),
    }
    let unknown = configure_response(&j(r#"{ "mcp": { "operation": "tools/summon", "request": {}, "response": {} } }"#));
    assert_eq!(unknown.err().as_deref(), Some("unknown mcp operation `tools/summon`"));
}

#[test]
fn parts_carry_each_side_and_its_rules_rooted_at_the_part() {
    let configured = configure_interaction(&j(r#"{
        "operation": "tools/call",
        "request": { "name": "t", "arguments": { "n": 1 } },
        "response": { "content": [], "isError": false },
        "matchingRules": {
            "request": { "$.arguments.n": { "matchers": [ { "match": "type" } ] } },
            "response": { "$.isError": { "matchers": [ { "match": "type" } ] } }
        }
    }"#))
    .unwrap();
    let (request, response) = configured_parts(&configured);
    assert_eq!(serde_json::from_slice::<Value>(&request.body_bytes).unwrap(), v(r#"{ "name": "t", "arguments": { "n": 1 } }"#));
    assert_eq!(serde_json::from_slice::<Value>(&response.body_bytes).unwrap(), v(r#"{ "content": [], "isError": false }"#));
    assert_eq!(to_value(&request.rules), v(r#"{ "$.arguments.n": { "matchers": [ { "match": "type" } ] } }"#));
    assert_eq!(to_value(&response.rules), v(r#"{ "$.isError": { "matchers": [ { "match": "type" } ] } }"#));
}

#[test]
fn interaction_configuration_holds_the_operation_and_the_server_when_set() {
    let with_server = configure_interaction(&j(r#"{
        "operation": "tools/list", "request": {}, "response": { "tools": [] },
        "server": { "transport": "stdio" }
    }"#))
    .unwrap();
    assert_eq!(
        to_value(&interaction_configuration(&with_server)),
        v(r#"{ "operation": "tools/list", "server": { "transport": "stdio" } }"#)
    );
    let without = configure_interaction(&j(r#"{ "operation": "prompts/get", "request": {}, "response": {} }"#)).unwrap();
    assert_eq!(to_value(&interaction_configuration(&without)), v(r#"{ "operation": "prompts/get" }"#));
}

#[test]
fn without_inline_matchers_the_rules_are_those_of_the_matching_rules_block() {
    let flat = configure_interaction(&j(r#"{
        "operation": "tools/call",
        "request": { "name": "t", "arguments": {} },
        "response": { "content": [ { "type": "text", "text": "x" } ], "isError": false },
        "matchingRules": { "response": { "$.content[0].text": { "matchers": [ { "match": "type" } ] } } }
    }"#))
    .unwrap();
    assert_eq!(
        to_value(&rules_value(&flat.rules)),
        v(r#"{ "$.response.content[0].text": { "matchers": [ { "match": "type" } ] } }"#)
    );
}

#[test]
fn inline_and_block_rules_are_both_recorded() {
    let configured = configure_interaction(&j(r#"{
        "operation": "tools/call",
        "request": { "name": "t", "arguments": { "zoom": "matching(number, 5)" } },
        "response": { "content": [], "isError": false },
        "matchingRules": { "request": { "$.name": { "matchers": [ { "match": "type" } ] } } }
    }"#))
    .unwrap();
    assert_eq!(to_value(&configured.fragment.mcp.request), v(r#"{ "name": "t", "arguments": { "zoom": 5 } }"#));
    assert_eq!(
        to_value(&rules_value(&configured.rules)),
        v(r#"{ "$.request.name": { "matchers": [ { "match": "type" } ] },
               "$.request.arguments.zoom": { "matchers": [ { "match": "number" } ] } }"#)
    );
}

#[test]
fn parses_inline_matcher_definitions() {
    let (ty, example) = parse_matcher("matching(type, 'Sunny, 22C')").unwrap();
    assert_eq!(ty, "type");
    assert_eq!(to_value(&example), Value::String("Sunny, 22C".to_string()));
    let (ty, example) = parse_matcher("matching( number ,5 )").unwrap();
    assert_eq!(ty, "number");
    assert_eq!(to_value(&example), v("5"));
    assert!(parse_matcher("Sunny").is_none());
    assert!(parse_matcher("matching(type, 'x'").is_none());
    assert!(parse_matcher("matching(type 'x')").is_none());
    assert!(parse_matcher("matching(type, x)").is_none());
    assert!(parse_matcher("matching(integer, 1.5)").is_none());
    assert!(parse_matcher("matching(regex, 'a')").is_none());
    assert!(parse_matcher("matching(bogus, 'a')").is_none());
}

#[test]
fn parses_every_form_the_configure_convention_lists() {
    let parsed = |s: &str| parse_matcher(s).map(|(t, e)| (t, to_value(&e)));
    assert_eq!(parsed("matching(regex, '^[A-Z].*', 'Sunny')"), Some(("regex".to_string(), v(r#""Sunny""#))));
    assert_eq!(parsed("notEmpty('x')"), Some(("notEmpty".to_string(), v(r#""x""#))));
    assert_eq!(parsed("matching(number, 5)"), Some(("number".to_string(), v("5"))));
    assert_eq!(parsed("matching(number, -2.50)"), Some(("number".to_string(), v("-2.5"))));
    assert_eq!(parsed("matching(decimal, 22.0)"), Some(("decimal".to_string(), v("22.0"))));
    assert_eq!(parsed("matching(integer, -7)"), Some(("integer".to_string(), v("-7"))));
    assert_eq!(parsed("matching(equalTo, 'exact')"), Some(("equality".to_string(), v(r#""exact""#))));
    assert_eq!(parsed("matching(type, true)"), Some(("type".to_string(), v("true"))));
    assert_eq!(parsed("matching(boolean, false)"), Some(("boolean".to_string(), v("false"))));
    assert_eq!(parsed("matching(datetime, 'yyyy-MM-dd', '2024-01-02')"), Some(("datetime".to_string(), v(r#""2024-01-02""#))));
    assert_eq!(parsed("matching(include, 'Sun')"), Some(("include".to_string(), v(r#""Sun""#))));
    assert_eq!(parsed("notEmpty(3)"), Some(("notEmpty".to_string(), v("3"))));
}

#[test]
fn strips_matchers_to_examples_and_records_their_paths() {
    let mut rules: Vec<(String, String)> = Vec::new();
    let body = j(r#"{ "content": [ { "type": "text", "text": "matching(type, 'Sunny')" },
                                    { "type": "text", "text": "plain" } ],
                      "count": "matching(integer, 3)" }"#);
    let stripped = strip_matchers("$", &body, &mut rules);
    assert_eq!(
        to_value(&stripped),
        v(r#"{ "content": [ { "type": "text", "text": "Sunny" }, { "type": "text", "text": "plain" } ], "count": 3 }"#)
    );
    let mut found = rules.clone();
    found.sort();
    assert_eq!(
        found,
        vec![
            ("$.content[0].text".to_string(), "type".to_string()),
            ("$.count".to_string(), "integer".to_string()),
        ]
    );
}
