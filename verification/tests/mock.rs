use pact_mcp_plugin::mock::{add_tool, AdvertisedTool, MockLoadError, MockServer, SYNTHESIZED_TOOL_DESCRIPTION};
use pact_mcp_plugin::model::{McpInteraction, Operation};
use pact_mcp_plugin::json::Json;
use serde_json::Value;

fn to_json(v: &Value) -> Json {
    match v {
        Value::Null => Json::Null,
        Value::Bool(b) => Json::Bool(*b),
        Value::Number(n) => Json::Number(n.to_string()),
        Value::String(s) => Json::Str(s.clone()),
        Value::Array(a) => Json::Array(a.iter().map(to_json).collect()),
        Value::Object(o) => Json::Object(o.iter().map(|(k, v)| (k.clone(), to_json(v))).collect()),
    }
}

fn to_value(j: &Json) -> Value {
    match j {
        Json::Null => Value::Null,
        Json::Bool(b) => Value::Bool(*b),
        Json::Number(n) => serde_json::from_str(n).unwrap(),
        Json::Str(s) => Value::String(s.clone()),
        Json::Array(a) => Value::Array(a.iter().map(to_value).collect()),
        Json::Object(o) => Value::Object(o.iter().map(|(k, v)| (k.clone(), to_value(v))).collect()),
    }
}

fn v(text: &str) -> Value {
    serde_json::from_str(text).unwrap()
}

fn j(text: &str) -> Json {
    to_json(&v(text))
}

fn pact_json() -> Json {
    j(r#"{
        "interactions": [
            {
                "description": "melbourne weather",
                "contents": { "mcp": {
                    "schemaVersion": "0",
                    "operation": "tools/call",
                    "request": { "name": "get_weather", "arguments": { "city": "Melbourne" } },
                    "response": { "content": [ { "type": "text", "text": "Sunny, 22C" } ], "isError": false }
                }}
            }
        ]
    }"#)
}

fn args(text: &str) -> Vec<(String, Json)> {
    match j(text) {
        Json::Object(o) => o,
        _ => panic!("not an object"),
    }
}

fn first_text(response: &Json) -> String {
    to_value(response)["content"][0]["text"].as_str().unwrap().to_string()
}

#[test]
fn loads_interactions_and_advertises_the_tool() {
    let mock = MockServer::from_pact_json(&pact_json()).unwrap();
    let tools = mock.advertised_tools();
    assert_eq!(tools.len(), 1);
    assert_eq!(tools[0].name, "get_weather");
}

#[test]
fn matching_call_returns_configured_response_and_records_success() {
    let mut mock = MockServer::from_pact_json(&pact_json()).unwrap();
    let result = mock.handle_call("get_weather", Some(&args(r#"{ "city": "Melbourne" }"#))).expect("should match");
    assert_eq!(first_text(&result), "Sunny, 22C");
    let results = mock.results();
    assert_eq!(results.len(), 1);
    assert!(results[0].error.is_none());
}

#[test]
fn unexpected_call_is_recorded_as_a_mismatch() {
    let mut mock = MockServer::from_pact_json(&pact_json()).unwrap();
    let err = mock.handle_call("get_weather", Some(&args(r#"{ "city": "Atlantis" }"#))).expect_err("should not match");
    assert!(err.message.contains("no matching interaction"));
    let results = mock.results();
    assert_eq!(results.len(), 1);
    assert!(results[0].error.is_some());
    assert!(results[0].mismatches.contains(&"$.arguments.city".to_string()));
}

fn pact_json_with_request_matcher() -> Json {
    j(r#"{
        "interactions": [
            {
                "description": "weather for any city",
                "type": "Synchronous/Messages",
                "pluginConfiguration": { "mcp": { "operation": "tools/call" } },
                "request": {
                    "contents": { "content": { "name": "get_weather", "arguments": { "city": "Melbourne" } } },
                    "matchingRules": { "body": { "$.arguments.city": { "combine": "AND", "matchers": [ { "match": "type" } ] } } }
                },
                "response": [
                    { "contents": { "content": { "content": [ { "type": "text", "text": "Sunny, 22C" } ], "isError": false } } }
                ]
            }
        ]
    }"#)
}

#[test]
fn request_side_type_matcher_selects_the_interaction_for_a_different_argument() {
    let mut mock = MockServer::from_pact_json(&pact_json_with_request_matcher()).unwrap();
    let result = mock
        .handle_call("get_weather", Some(&args(r#"{ "city": "Reykjavik" }"#)))
        .expect("type matcher should accept any city");
    assert_eq!(first_text(&result), "Sunny, 22C");

    let err = mock
        .handle_call("get_weather", Some(&args(r#"{ "city": 42 }"#)))
        .expect_err("a number should not satisfy a string type matcher");
    assert!(err.message.contains("no matching interaction"));
}

#[test]
fn miss_messages_quote_the_tool_name() {
    let mut mock = MockServer::from_pact_json(&pact_json()).unwrap();
    let err = mock.handle_call("say \"hi\"", None).unwrap_err();
    assert_eq!(err.message, "no matching interaction for tools/call \"say \\\"hi\\\"\"");
    assert_eq!(err.mismatches, vec!["$.name".to_string()]);
    let results = mock.results();
    assert_eq!(
        results[0].error.as_deref(),
        Some("unexpected tools/call: no configured interaction matches tool \"say \\\"hi\\\"\"")
    );
    assert_eq!(results[0].mismatches, err.mismatches);
}

#[test]
fn the_closest_miss_beyond_the_name_is_reported() {
    let pact = j(r#"{ "interactions": [
        { "contents": { "mcp": { "schemaVersion": "0", "operation": "tools/call",
            "request": { "name": "a", "arguments": { "x": 1 } }, "response": {} } } },
        { "contents": { "mcp": { "schemaVersion": "0", "operation": "tools/call",
            "request": { "name": "b", "arguments": { "x": 1, "y": 2 } }, "response": {} } } },
        { "contents": { "mcp": { "schemaVersion": "0", "operation": "tools/call",
            "request": { "name": "c", "arguments": {} }, "response": {} } } }
    ] }"#);
    let mut mock = MockServer::from_pact_json(&pact).unwrap();
    let err = mock.handle_call("b", Some(&args(r#"{ "x": 5 }"#))).unwrap_err();
    assert_eq!(err.mismatches, vec!["$.arguments.x".to_string(), "$.arguments.y".to_string()]);
}

#[test]
fn first_matching_interaction_wins() {
    let pact = j(r#"{ "interactions": [
        { "contents": { "mcp": { "schemaVersion": "0", "operation": "tools/list",
            "request": {}, "response": { "tools": [ { "name": "t", "inputSchema": { "type": "object" } } ] } } } },
        { "contents": { "mcp": { "schemaVersion": "0", "operation": "tools/call",
            "request": { "name": "t", "arguments": {} }, "response": { "content": [ { "type": "text", "text": "first" } ] } } } },
        { "contents": { "mcp": { "schemaVersion": "0", "operation": "tools/call",
            "request": { "name": "t", "arguments": {} }, "response": { "content": [ { "type": "text", "text": "second" } ] } } } }
    ] }"#);
    let mut mock = MockServer::from_pact_json(&pact).unwrap();
    let r = mock.handle_call("t", None).unwrap();
    assert_eq!(first_text(&r), "first");
}

#[test]
fn advertised_tools_keep_the_first_of_each_name() {
    let pact = j(r#"{ "interactions": [
        { "contents": { "mcp": { "schemaVersion": "0", "operation": "tools/call",
            "request": { "name": "get_weather", "arguments": {} }, "response": {} } } },
        { "contents": { "mcp": { "schemaVersion": "0", "operation": "tools/list",
            "request": {}, "response": { "tools": [
                { "name": "get_weather", "inputSchema": { "type": "object" } },
                { "name": "list_stations", "inputSchema": { "type": "object" } },
                { "noname": true }
            ] } } } },
        { "contents": { "mcp": { "schemaVersion": "0", "operation": "resources/list",
            "request": {}, "response": { "resources": [] } } } }
    ] }"#);
    let mut mock = MockServer::from_pact_json(&pact).unwrap();
    let tools = mock.list_tools();
    let names: Vec<&str> = tools.iter().map(|t| t.name.as_str()).collect();
    assert_eq!(names, vec!["get_weather", "list_stations"]);
    assert!(tools[0].definition.is_none());
    assert!(tools[1].definition.is_some());
    assert_eq!(mock.results().len(), 1);
    assert_eq!(mock.results()[0].path, "tools/list");
    assert_eq!(SYNTHESIZED_TOOL_DESCRIPTION, "Synthesized by the pact mock");
}

#[test]
fn pacts_without_mcp_interactions_yield_no_mock() {
    assert!(matches!(MockServer::from_pact_json(&j("{}")), Err(MockLoadError::NoInteractions)));
    let none = MockServer::from_pact_json(&j(r#"{ "interactions": [ { "description": "http" } ] }"#));
    assert!(matches!(none, Err(MockLoadError::NoMcpInteractions)));
    assert_eq!(MockLoadError::NoMcpInteractions.message(), "no mcp interactions found in pact");
    assert_eq!(MockLoadError::NoInteractions.message(), "pact has no interactions array");
}

#[test]
fn a_mock_built_from_interactions_answers_them() {
    let i = McpInteraction::new(
        Operation::ToolsCall,
        j(r#"{ "name": "n", "arguments": { "k": [1, 2] } }"#),
        j(r#"{ "content": [ { "type": "text", "text": "ok" } ] }"#),
    );
    let mut mock = MockServer::new(vec![i]);
    assert!(mock.results().is_empty());
    let r = mock.handle_call("n", Some(&args(r#"{ "k": [1, 2] }"#))).unwrap();
    assert_eq!(first_text(&r), "ok");
}

#[test]
fn add_tool_appends_a_new_name_and_keeps_the_first_of_a_name() {
    let mut tools: Vec<AdvertisedTool> = Vec::new();
    add_tool(&mut tools, "get_weather".to_string(), None);
    add_tool(&mut tools, "list_stations".to_string(), Some(j(r#"{ "name": "list_stations" }"#)));
    add_tool(&mut tools, "get_weather".to_string(), Some(j(r#"{ "name": "get_weather", "description": "later" }"#)));
    assert_eq!(tools.len(), 2);
    assert_eq!(tools[0].name, "get_weather");
    assert!(tools[0].definition.is_none());
    assert_eq!(tools[1].name, "list_stations");
    assert!(tools[1].definition.is_some());
}
