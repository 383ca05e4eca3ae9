use pact_mcp_plugin::content::{compare_response, match_structural_request, match_tools_call_request, Rules};
use pact_mcp_plugin::model::Operation;
use pact_mcp_plugin::json::Json;
use serde_json::Value;

fn to_json(v: &Value) -> Json {
    match v {
        Value::Null => Json::Null,
        Value::Bool(b) => Json::Bool(*b),
        Value::Number(n) => Json::Number(n.to_string()),
        Value::String(s) => Json::Str(s.clone()),
        Value::Array(a) => Json::Array(a.iter().map(to_json).collect()),
        Value::Object(o) => Json::Object(o.iter().map(|(k, v)| (k.clone(), to_json(v))).collect()),
    }
}

fn to_value(j: &Json) -> Value {
    match j {
        Json::Null => Value::Null,
        Json::Bool(b) => Value::Bool(*b),
        Json::Number(n) => serde_json::from_str(n).unwrap(),
        Json::Str(s) => Value::String(s.clone()),
        Json::Array(a) => Value::Array(a.iter().map(to_value).collect()),
        Json::Object(o) => Value::Object(o.iter().map(|(k, v)| (k.clone(), to_value(v))).collect()),
    }
}

fn v(text: &str) -> Value {
    serde_json::from_str(text).unwrap()
}

fn j(text: &str) -> Json {
    to_json(&v(text))
}


fn paths(r: &pact_mcp_plugin::content::MatchResult) -> Vec<String> {
    r.mismatch_paths()
}

#[test]
fn request_matches_on_name_and_exact_arguments() {
    let expected = j(r#"{ "name": "get_weather", "arguments": { "city": "Melbourne" } }"#);
    let actual = j(r#"{ "name": "get_weather", "arguments": { "city": "Melbourne" } }"#);
    let result = match_tools_call_request(&expected, &actual, &Rules::default());
    assert!(result.is_match());
}

#[test]
fn request_mismatch_on_wrong_tool_name() {
    let expected = j(r#"{ "name": "get_weather", "arguments": {} }"#);
    let actual = j(r#"{ "name": "list_stations", "arguments": {} }"#);
    let result = match_tools_call_request(&expected, &actual, &Rules::default());
    assert!(!result.is_match());
    assert!(paths(&result).contains(&"$.name".to_string()));
}

#[test]
fn request_mismatch_on_wrong_argument_value() {
    let expected = j(r#"{ "name": "get_weather", "arguments": { "city": "Melbourne" } }"#);
    let actual = j(r#"{ "name": "get_weather", "arguments": { "city": "Sydney" } }"#);
    let result = match_tools_call_request(&expected, &actual, &Rules::default());
    assert!(!result.is_match());
    assert!(paths(&result).contains(&"$.arguments.city".to_string()));
}

#[test]
fn request_argument_type_matcher_accepts_any_string() {
    let expected = j(r#"{ "name": "get_weather", "arguments": { "city": "Melbourne" } }"#);
    let actual = j(r#"{ "name": "get_weather", "arguments": { "city": "Perth" } }"#);
    let rules_value = j(r#"{ "$.arguments.city": { "matchers": [ { "match": "type" } ] } }"#);
    let rules = Rules::new(Some(&rules_value));
    let result = match_tools_call_request(&expected, &actual, &rules);
    assert!(result.is_match(), "type matcher should accept a different string: {:?}", result.mismatches);
}

#[test]
fn wrong_tool_name_is_the_only_mismatch_reported() {
    let expected = j(r#"{ "name": "a", "arguments": { "x": 1 } }"#);
    let actual = j(r#"{ "name": "b", "arguments": { "x": 2 } }"#);
    let result = match_tools_call_request(&expected, &actual, &Rules::default());
    assert_eq!(paths(&result), vec!["$.name".to_string()]);
    assert_eq!(result.mismatches[0].message, "expected tool name \"a\" but got \"b\"");
}

#[test]
fn tools_call_text_mismatch_and_extra_actual_keys() {
    let expected = j(r#"{ "content": [ { "type": "text", "text": "Sunny, 22C" } ], "isError": false }"#);
    let same = j(r#"{ "content": [ { "type": "text", "text": "Sunny, 22C", "extra": 1 } ], "isError": false, "more": true }"#);
    let other = j(r#"{ "content": [ { "type": "text", "text": "Raining, 9C" } ], "isError": false }"#);
    assert!(compare_response(Operation::ToolsCall, &expected, &same, &Rules::default()).is_match());
    let r = compare_response(Operation::ToolsCall, &expected, &other, &Rules::default());
    assert_eq!(paths(&r), vec!["$.content[0].text".to_string()]);
}

#[test]
fn tools_call_type_rule_and_is_error_flag() {
    let expected = j(r#"{ "content": [ { "type": "text", "text": "x" } ], "isError": false }"#);
    let actual = j(r#"{ "content": [ { "type": "text", "text": "y" } ], "isError": true }"#);
    let rules_value = j(r#"{ "$.content[0].text": { "matchers": [ { "match": "type" } ] } }"#);
    let r = compare_response(Operation::ToolsCall, &expected, &actual, &Rules::new(Some(&rules_value)));
    assert_eq!(paths(&r), vec!["$.isError".to_string()]);
}

#[test]
fn protocol_error_against_a_result_is_one_root_mismatch() {
    let expected = j(r#"{ "content": [], "isError": false }"#);
    let actual = j(r#"{ "error": { "code": -32602, "message": "bad", "data": null } }"#);
    let r = compare_response(Operation::ToolsCall, &expected, &actual, &Rules::default());
    assert_eq!(paths(&r), vec!["$".to_string()]);
}

#[test]
fn tools_list_is_keyed_by_name_in_any_order() {
    let expected = j(r#"{ "tools": [ { "name": "a" }, { "name": "b" } ] }"#);
    let actual = j(r#"{ "tools": [ { "name": "b", "inputSchema": {} }, { "name": "a" }, { "name": "c" } ] }"#);
    assert!(compare_response(Operation::ToolsList, &expected, &actual, &Rules::default()).is_match());
    let missing = j(r#"{ "tools": [ { "name": "a" } ] }"#);
    assert!(!compare_response(Operation::ToolsList, &expected, &missing, &Rules::default()).is_match());
}

#[test]
fn resources_and_prompts_lists_are_subsets() {
    let expected = j(r#"{ "resources": [ { "uri": "weather://melbourne/report" } ] }"#);
    let actual = j(r#"{ "resources": [ { "uri": "x" }, { "uri": "weather://melbourne/report", "name": "r" } ] }"#);
    assert!(compare_response(Operation::ResourcesList, &expected, &actual, &Rules::default()).is_match());
    let expected = j(r#"{ "prompts": [ { "name": "weather-report" } ] }"#);
    let actual = j(r#"{ "prompts": [] }"#);
    assert!(!compare_response(Operation::PromptsList, &expected, &actual, &Rules::default()).is_match());
}

#[test]
fn resources_read_compares_structurally() {
    let expected = j(r#"{ "contents": [ { "uri": "weather://melbourne/report", "text": "Sunny all week" } ] }"#);
    let actual = j(r#"{ "contents": [ { "uri": "weather://melbourne/report", "text": "Raining all week" } ] }"#);
    let r = compare_response(Operation::ResourcesRead, &expected, &actual, &Rules::default());
    assert_eq!(paths(&r), vec!["$.contents[0].text".to_string()]);
    assert!(compare_response(Operation::PromptsGet, &expected, &expected, &Rules::default()).is_match());
}

#[test]
fn structural_request_matching_is_rooted_at_dollar() {
    let expected = j(r#"{ "uri": "weather://a" }"#);
    let actual = j(r#"{ "uri": "weather://b" }"#);
    let r = match_structural_request(&expected, &actual, &Rules::default());
    assert_eq!(paths(&r), vec!["$.uri".to_string()]);
}

#[test]
fn mismatch_paths_are_sorted_and_distinct() {
    let expected = j(r#"{ "b": 1, "a": [1, 2], "c": { "d": 1 } }"#);
    let actual = j(r#"{ "b": 2, "a": [3], "c": { "d": "1" } }"#);
    let r = match_structural_request(&expected, &actual, &Rules::default());
    let p = paths(&r);
    let mut sorted = p.clone();
    sorted.sort();
    sorted.dedup();
    assert_eq!(p, sorted);
    assert!(p.contains(&"$.a[0]".to_string()));
    assert!(p.contains(&"$.a[1]".to_string()));
    assert!(p.contains(&"$.b".to_string()));
    assert!(p.contains(&"$.c.d".to_string()));
    let _ = to_value(&actual);
}

#[test]
fn omitted_is_error_is_read_as_false() {
    let expected = j(r#"{ "content": [ { "type": "text", "text": "x" } ] }"#);
    let flagged = j(r#"{ "content": [ { "type": "text", "text": "x" } ], "isError": true }"#);
    let plain = j(r#"{ "content": [ { "type": "text", "text": "x" } ] }"#);
    let r = compare_response(Operation::ToolsCall, &expected, &flagged, &Rules::default());
    assert_eq!(paths(&r), vec!["$.isError".to_string()]);
    assert!(compare_response(Operation::ToolsCall, &expected, &plain, &Rules::default()).is_match());
}

#[test]
fn extra_trailing_content_blocks_are_ignored_but_missing_ones_are_not() {
    let expected = j(r#"{ "content": [ { "type": "text", "text": "a" } ], "isError": false }"#);
    let more = j(r#"{ "content": [ { "type": "text", "text": "a" }, { "type": "image", "data": "x", "mimeType": "image/png" } ], "isError": false }"#);
    assert!(compare_response(Operation::ToolsCall, &expected, &more, &Rules::default()).is_match());
    let none = j(r#"{ "content": [], "isError": false }"#);
    let r = compare_response(Operation::ToolsCall, &expected, &none, &Rules::default());
    assert_eq!(paths(&r), vec!["$.content".to_string()]);
}

#[test]
fn error_data_keys_are_matched_by_type_and_extra_keys_ignored() {
    let expected = j(r#"{ "error": { "code": -32602, "message": "Invalid params", "data": { "field": "city" } } }"#);
    let actual = j(r#"{ "error": { "code": -32603, "message": "Bad", "data": { "field": "country", "extra": true } } }"#);
    let result = compare_response(Operation::ToolsCall, &expected, &actual, &Rules::new(None));
    assert_eq!(result.mismatches.len(), 1, "{:?}", result.mismatches);
    assert_eq!(result.mismatches[0].path, "$.error.code");
}

#[test]
fn error_data_of_another_kind_is_a_mismatch() {
    let expected = j(r#"{ "error": { "code": 1, "message": "m", "data": { "field": "city" } } }"#);
    let actual = j(r#"{ "error": { "code": 1, "message": "m", "data": { "field": 7 } } }"#);
    let result = compare_response(Operation::ResourcesRead, &expected, &actual, &Rules::none());
    assert_eq!(paths(&result), vec!["$.error.data.field".to_string()]);
}

#[test]
fn tools_list_input_schema_uses_the_consumers_rules() {
    let expected = j(r#"{ "tools": [ { "name": "get_weather", "inputSchema": { "type": "object" } } ] }"#);
    let actual = j(r#"{ "tools": [ { "name": "get_weather", "inputSchema": { "type": "array" } } ] }"#);
    let rules_value = j(r#"{ "$.tools[?(@.name=='get_weather')].inputSchema.type": { "matchers": [ { "match": "type" } ] } }"#);
    let result = compare_response(Operation::ToolsList, &expected, &actual, &Rules::new(Some(&rules_value)));
    assert!(result.is_match(), "{:?}", result.mismatches);
    let equality = j(r#"{ "$.tools[?(@.name=='get_weather')].inputSchema.type": { "matchers": [ { "match": "equality" } ] } }"#);
    let exact = compare_response(Operation::ToolsList, &expected, &actual, &Rules::new(Some(&equality)));
    assert_eq!(paths(&exact), vec!["$.tools[?(@.name=='get_weather')].inputSchema.type".to_string()]);
}

#[test]
fn tools_list_input_schema_scalars_are_type_compatible_by_default() {
    let expected = j(r#"{ "tools": [ { "name": "t", "inputSchema": { "type": "object", "properties": { "city": { "type": "string" } } } } ] }"#);
    let same_kinds = j(r#"{ "tools": [ { "name": "t", "inputSchema": { "type": "object", "properties": { "city": { "type": "integer" } }, "required": [] } } ] }"#);
    assert!(compare_response(Operation::ToolsList, &expected, &same_kinds, &Rules::none()).is_match());
    let other_kind = j(r#"{ "tools": [ { "name": "t", "inputSchema": { "type": 7, "properties": { "city": { "type": "string" } } } } ] }"#);
    let result = compare_response(Operation::ToolsList, &expected, &other_kind, &Rules::none());
    assert_eq!(paths(&result), vec!["$.tools[?(@.name=='get_weather')].inputSchema.type".replace("get_weather", "t")]);
}

#[test]
fn a_value_matches_itself_under_type_rules() {
    let value = j(r#"{ "contents": [ { "uri": "file:///a", "text": "hello" } ], "n": 3 }"#);
    let rules_value = j(r#"{ "$.contents[0].text": { "matchers": [ { "match": "type" } ] }, "$.n": { "matchers": [ { "match": "regex" } ] } }"#);
    let result = compare_response(Operation::ResourcesRead, &value, &value, &Rules::new(Some(&rules_value)));
    assert!(result.is_match(), "{:?}", result.mismatches);
}

#[test]
fn extra_actual_keys_change_no_mismatch() {
    let expected = j(r#"{ "messages": [ { "role": "user", "content": { "type": "text", "text": "hi" } } ] }"#);
    let actual = j(r#"{ "messages": [ { "role": "assistant", "content": { "type": "text", "text": "hi" } } ] }"#);
    let extended = j(r#"{ "messages": [ { "role": "assistant", "content": { "type": "text", "text": "hi" } } ], "description": "d" }"#);
    let a = compare_response(Operation::PromptsGet, &expected, &actual, &Rules::none());
    let b = compare_response(Operation::PromptsGet, &expected, &extended, &Rules::none());
    assert_eq!(paths(&a), vec!["$.messages[0].role".to_string()]);
    assert_eq!(paths(&a), paths(&b));
}

#[test]
fn content_block_mismatches_stay_under_their_block() {
    let expected = j(r#"{ "content": [ { "type": "text", "text": "a" }, { "type": "image", "mimeType": "image/png", "data": "x" } ], "isError": false }"#);
    let actual = j(r#"{ "content": [ { "type": "text", "text": "b" }, { "type": "image", "mimeType": "image/gif", "data": 1 } ], "isError": false }"#);
    let result = compare_response(Operation::ToolsCall, &expected, &actual, &Rules::none());
    let found = paths(&result);
    assert_eq!(found.len(), 3, "{found:?}");
    assert!(found.contains(&"$.content[0].text".to_string()));
    assert!(found.contains(&"$.content[1].mimeType".to_string()));
    assert!(found.contains(&"$.content[1].data".to_string()));
    assert!(result.mismatches.iter().all(|m| m.path.starts_with("$.content[0]") || m.path.starts_with("$.content[1]")));
}

#[test]
fn unexpected_extra_items_change_nothing_even_when_mismatched() {
    let expected = j(r#"{ "resources": [ { "uri": "file:///a", "name": "a" } ] }"#);
    let actual = j(r#"{ "resources": [ { "uri": "file:///a", "name": "b" } ] }"#);
    let extended = j(r#"{ "resources": [ { "uri": "file:///z", "name": "z" }, { "uri": "file:///a", "name": "b" } ] }"#);
    let a = compare_response(Operation::ResourcesList, &expected, &actual, &Rules::none());
    let b = compare_response(Operation::ResourcesList, &expected, &extended, &Rules::none());
    assert!(!a.is_match());
    assert_eq!(paths(&a), paths(&b));
}
