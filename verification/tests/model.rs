use pact_mcp_plugin::catalogue::{entries, EntryType, CONTENT_TYPE_PATTERN};
use pact_mcp_plugin::json::json_equal;
use pact_mcp_plugin::model::{McpFragment, McpInteraction, Operation, CONTENT_TYPE};
use pact_mcp_plugin::json::Json;
use serde_json::Value;

fn to_json(v: &Value) -> Json {
    match v {
        Value::Null => Json::Null,
        Value::Bool(b) => Json::Bool(*b),
        Value::Number(n) => Json::Number(n.to_string()),
        Value::String(s) => Json::Str(s.clone()),
        Value::Array(a) => Json::Array(a.iter().map(to_json).collect()),
        Value::Object(o) => Json::Object(o.iter().map(|(k, v)| (k.clone(), to_json(v))).collect()),
    }
}

fn to_value(j: &Json) -> Value {
    match j {
        Json::Null => Value::Null,
        Json::Bool(b) => Value::Bool(*b),
        Json::Number(n) => serde_json::from_str(n).unwrap(),
        Json::Str(s) => Value::String(s.clone()),
        Json::Array(a) => Value::Array(a.iter().map(to_value).collect()),
        Json::Object(o) => Value::Object(o.iter().map(|(k, v)| (k.clone(), to_value(v))).collect()),
    }
}

fn v(text: &str) -> Value {
    serde_json::from_str(text).unwrap()
}

fn j(text: &str) -> Json {
    to_json(&v(text))
}


fn round_trip(fragment: &McpFragment) -> McpFragment {
    let text = serde_json::to_string(&to_value(&fragment.to_json())).unwrap();
    McpFragment::from_json(&j(&text)).unwrap()
}

#[test]
fn round_trips_tools_call_fragment_losslessly() {
    let fragment = McpFragment::new(McpInteraction::new(
        Operation::ToolsCall,
        j(r#"{ "name": "get_weather", "arguments": { "city": "Melbourne" } }"#),
        j(r#"{ "content": [ { "type": "text", "text": "Sunny, 22C" } ], "isError": false }"#),
    ));
    let back = round_trip(&fragment);
    assert_eq!(fragment, back);
    assert!(json_equal(&back.to_json(), &fragment.to_json()));
    assert_eq!(back.pact_content_type, CONTENT_TYPE);
    assert_eq!(back.mcp.operation, Operation::ToolsCall);
}

#[test]
fn round_trips_tools_list_fragment_losslessly() {
    let fragment = McpFragment::new(McpInteraction::new(
        Operation::ToolsList,
        j("{}"),
        j(r#"{ "tools": [ { "name": "get_weather", "inputSchema": { "type": "object" } } ] }"#),
    ));
    let back = round_trip(&fragment);
    assert_eq!(fragment, back);
    assert_eq!(back.mcp.operation, Operation::ToolsList);
}

#[test]
fn operation_serializes_to_the_wire_method_name() {
    assert_eq!(Operation::ToolsCall.method(), "tools/call");
    assert_eq!(Operation::parse("tools/call"), Some(Operation::ToolsCall));
    assert_eq!(Operation::parse("bogus"), None);
}

#[test]
fn unknown_operation_is_a_hard_deserialize_error() {
    let bad = j(r#"{
        "pact:content-type": "application/mcp+json",
        "mcp": { "schemaVersion": "0", "operation": "prompts/summon", "request": {}, "response": {} }
    }"#);
    let result = McpFragment::from_json(&bad);
    assert!(result.is_err());
    assert_eq!(result.unwrap_err().message(), "unknown mcp operation `prompts/summon`");
}

#[test]
fn every_operation_round_trips_through_its_method_name() {
    let all = [
        (Operation::ToolsCall, "tools/call"),
        (Operation::ToolsList, "tools/list"),
        (Operation::ResourcesRead, "resources/read"),
        (Operation::ResourcesList, "resources/list"),
        (Operation::PromptsGet, "prompts/get"),
        (Operation::PromptsList, "prompts/list"),
    ];
    for (op, name) in all {
        assert_eq!(op.method(), name);
        assert_eq!(Operation::parse(name), Some(op));
    }
    assert_eq!(Operation::parse("Tools/Call"), None);
}

#[test]
fn fragment_json_has_the_persisted_shape() {
    let mut i = McpInteraction::new(Operation::PromptsGet, j(r#"{ "name": "p" }"#), j(r#"{ "messages": [] }"#));
    i.provider_states = Some(j(r#"[ { "name": "state" } ]"#));
    let fragment = McpFragment::new(i);
    let value = to_value(&fragment.to_json());
    assert_eq!(value, v(r#"{
        "pact:content-type": "application/mcp+json",
        "mcp": { "schemaVersion": "0", "operation": "prompts/get", "request": { "name": "p" }, "response": { "messages": [] } }
    }"#));
}

#[test]
fn decode_errors_name_the_field() {
    let cases = [
        (r#"5"#, "expected an object at `$`"),
        (r#"[]"#, "invalid length for `$`"),
        (r#"{ "mcp": {} }"#, "missing field `pact:content-type`"),
        (r#"{ "pact:content-type": 1, "mcp": {} }"#, "invalid type for field `pact:content-type`"),
    ];
    for (text, message) in cases {
        assert_eq!(McpFragment::from_json(&j(text)).unwrap_err().message(), message, "for {text}");
    }
    let no_request = j(r#"{ "schemaVersion": "0", "operation": "tools/call", "response": {} }"#);
    assert_eq!(McpInteraction::from_json(&no_request).unwrap_err().message(), "missing field `request`");
}

#[test]
fn catalogue_advertises_the_mcp_matcher_generator_and_stdio_transport() {
    let e = entries();
    assert_eq!(e.len(), 3);
    assert_eq!(e[0].entry_type, EntryType::ContentMatcher);
    assert_eq!(e[0].key, "mcp");
    assert_eq!(e[0].values, vec![("content-types".to_string(), CONTENT_TYPE_PATTERN.to_string())]);
    assert_eq!(e[1].entry_type, EntryType::ContentGenerator);
    assert_eq!(e[2].entry_type, EntryType::Transport);
    assert_eq!(e[2].key, "mcp-stdio");
    assert!(e[2].values.is_empty());
    assert_eq!(CONTENT_TYPE_PATTERN, r"application/mcp\+json");
}

#[test]
fn interaction_reads_the_array_form_of_its_fields() {
    let i = McpInteraction::from_json(&j(r#"["0", "tools/call", { "name": "t" }, { "isError": false }, null]"#)).unwrap();
    assert_eq!(i.operation, Operation::ToolsCall);
    assert_eq!(i.schema_version, "0");
    assert!(i.server.is_none());
    let with_server = McpInteraction::from_json(&j(r#"["0", "tools/list", {}, { "tools": [] }, ["stdio"]]"#)).unwrap();
    assert_eq!(with_server.server.unwrap().transport, "stdio");
    let short = McpInteraction::from_json(&j(r#"["0", "tools/call", {}, {}]"#)).unwrap_err();
    assert_eq!(short.message(), "invalid length for `mcp`");
    assert!(McpInteraction::from_json(&j(r#"["0", "tools/call", {}, {}, null, 1]"#)).is_err());
    assert!(McpInteraction::from_json(&j(r#"["0", "tools/call", {}, {}, []]"#)).is_err());
}

#[test]
fn operation_reads_the_map_form_of_a_unit_variant() {
    let i = McpInteraction::from_json(&j(r#"{ "schemaVersion": "0", "operation": { "prompts/get": null }, "request": {}, "response": {} }"#)).unwrap();
    assert_eq!(i.operation, Operation::PromptsGet);
    assert!(McpInteraction::from_json(&j(r#"{ "schemaVersion": "0", "operation": { "prompts/get": 1 }, "request": {}, "response": {} }"#)).is_err());
    let unknown = McpInteraction::from_json(&j(r#"{ "schemaVersion": "0", "operation": { "prompts/summon": null }, "request": {}, "response": {} }"#)).unwrap_err();
    assert_eq!(unknown.message(), "unknown mcp operation `prompts/summon`");
}

#[test]
fn fragment_reads_the_array_form() {
    let f = McpFragment::from_json(&j(r#"["application/mcp+json", { "schemaVersion": "0", "operation": "tools/list", "request": {}, "response": {}, "server": { "transport": "http" } }]"#)).unwrap();
    assert_eq!(f.pact_content_type, CONTENT_TYPE);
    assert_eq!(f.mcp.server.unwrap().transport, "http");
    assert_eq!(McpFragment::from_json(&j(r#"["application/mcp+json"]"#)).unwrap_err().message(), "invalid length for `$`");
}
