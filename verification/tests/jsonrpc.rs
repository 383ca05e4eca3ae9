use pact_mcp_plugin::jsonrpc::{protocol_error_value, IdAllocator, JsonRpcError, JsonRpcRequest, JsonRpcResponse};
use pact_mcp_plugin::model::Operation;
use pact_mcp_plugin::json::Json;
use serde_json::Value;

fn to_json(v: &Value) -> Json {
    match v {
        Value::Null => Json::Null,
        Value::Bool(b) => Json::Bool(*b),
        Value::Number(n) => Json::Number(n.to_string()),
        Value::String(s) => Json::Str(s.clone()),
        Value::Array(a) => Json::Array(a.iter().map(to_json).collect()),
        Value::Object(o) => Json::Object(o.iter().map(|(k, v)| (k.clone(), to_json(v))).collect()),
    }
}

fn to_value(j: &Json) -> Value {
    match j {
        Json::Null => Value::Null,
        Json::Bool(b) => Value::Bool(*b),
        Json::Number(n) => serde_json::from_str(n).unwrap(),
        Json::Str(s) => Value::String(s.clone()),
        Json::Array(a) => Value::Array(a.iter().map(to_value).collect()),
        Json::Object(o) => Value::Object(o.iter().map(|(k, v)| (k.clone(), to_value(v))).collect()),
    }
}

fn v(text: &str) -> Value {
    serde_json::from_str(text).unwrap()
}

fn j(text: &str) -> Json {
    to_json(&v(text))
}


#[test]
fn synthesizes_tools_call_envelope_from_operation_and_request() {
    let req = JsonRpcRequest::for_operation(
        Operation::ToolsCall,
        7,
        j(r#"{ "name": "get_weather", "arguments": { "city": "Melbourne" } }"#),
    );
    assert_eq!(req.jsonrpc, "2.0");
    assert_eq!(req.method, "tools/call");
    assert_eq!(to_value(&req.id), v("7"));
    assert_eq!(to_value(&req.params.unwrap()), v(r#"{ "name": "get_weather", "arguments": { "city": "Melbourne" } }"#));
}

#[test]
fn ids_are_monotonically_increasing() {
    let mut ids = IdAllocator::new();
    let a = ids.next_id();
    let b = ids.next_id();
    assert!(b > a);
}

#[test]
fn error_response_maps_to_mcp_error_shape() {
    let resp = JsonRpcResponse {
        jsonrpc: "2.0".to_string(),
        id: j("1"),
        result: None,
        error: Some(JsonRpcError { code: -32602, message: "Invalid params".to_string(), data: None }),
    };
    assert_eq!(
        to_value(&resp.to_mcp_response_value()),
        v(r#"{ "error": { "code": -32602, "message": "Invalid params", "data": null } }"#)
    );
}

#[test]
fn result_response_maps_to_the_result_value_directly() {
    let resp = JsonRpcResponse {
        jsonrpc: "2.0".to_string(),
        id: j("1"),
        result: Some(j(r#"{ "content": [], "isError": false }"#)),
        error: None,
    };
    assert_eq!(to_value(&resp.to_mcp_response_value()), v(r#"{ "content": [], "isError": false }"#));
}

#[test]
fn ids_start_at_one_and_count_up() {
    let mut ids = IdAllocator::new();
    assert_eq!(ids.next_id(), 1);
    assert_eq!(ids.next_id(), 2);
    assert_eq!(ids.next_id(), 3);
}

#[test]
fn a_result_less_response_is_null_and_ids_correlate() {
    let resp = JsonRpcResponse { jsonrpc: "2.0".to_string(), id: j("5"), result: None, error: None };
    assert_eq!(to_value(&resp.to_mcp_response_value()), Value::Null);
    assert!(resp.correlates(5));
    assert!(!resp.correlates(6));
    let text_id = JsonRpcResponse { jsonrpc: "2.0".to_string(), id: j(r#""5""#), result: None, error: None };
    assert!(!text_id.correlates(5));
}

#[test]
fn protocol_error_value_carries_data() {
    let data = j(r#"{ "why": "x" }"#);
    assert_eq!(
        to_value(&protocol_error_value(-32000, "boom", Some(&data))),
        v(r#"{ "error": { "code": -32000, "message": "boom", "data": { "why": "x" } } }"#)
    );
}
