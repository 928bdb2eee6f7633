use llmwiki::json_repair::{
    close_unclosed_brackets, extract_json_block, fix_missing_commas, fix_python_literals,
    fix_single_quoted_strings, fix_unclosed_strings, repair_json, repair_json_is_safe,
    try_validate_and_repair_json, validate_and_repair_json,
};

#[test]
fn test_repair_unclosed_brace() {
    let input = r#"{"name": "test""#;
    let result = repair_json(input);
    let val: serde_json::Value = serde_json::from_str(&result).unwrap();
    assert_eq!(val["name"], "test");
}

#[test]
fn test_repair_trailing_comma() {
    let input = r#"{"name": "test",}"#;
    let result = repair_json(input);
    let val: serde_json::Value = serde_json::from_str(&result).unwrap();
    assert_eq!(val["name"], "test");
}

#[test]
fn test_extract_json_from_markdown() {
    let input = "```json\n{\"key\": \"value\"}\n```";
    let block = extract_json_block(input).unwrap();
    assert_eq!(block, r#"{"key": "value"}"#);
}

#[test]
fn test_validate_and_repair_valid_json() {
    let result = validate_and_repair_json(r#"{"a": 1}"#).unwrap();
    assert_eq!(result["a"], 1);
}

#[test]
fn test_validate_and_repair_broken_json() {
    let result = validate_and_repair_json(r#"{"a": 1"#).unwrap();
    assert_eq!(result["a"], 1);
}

#[test]
fn extract_plain_fence_needs_brace() {
    assert_eq!(extract_json_block("```\n[1, 2]\n```").unwrap(), "[1, 2]");
    assert_eq!(extract_json_block("```\nhello\n``` {\"a\": {\"b\": 1}} tail").unwrap(), "{\"a\": {\"b\": 1}}");
}

#[test]
fn extract_braced_object_skips_braces_in_strings() {
    assert_eq!(extract_json_block("say {\"x\": \"}\"} done").unwrap(), "{\"x\": \"}\"}");
    assert!(extract_json_block("no json here").is_none());
    assert!(extract_json_block("{ unclosed").is_none());
}

#[test]
fn python_literals_are_replaced_outside_strings() {
    assert_eq!(fix_python_literals("{\"a\": True, \"b\": None, \"c\": False}"), "{\"a\": true, \"b\": null, \"c\": false}");
    assert_eq!(fix_python_literals("{\"a\": \"True\"}"), "{\"a\": \"True\"}");
    assert_eq!(fix_python_literals("None"), "null");
    assert_eq!(fix_python_literals("False"), "false");
    assert_eq!(fix_python_literals("[Non"), "[Non");
}

#[test]
fn single_quotes_become_double_quotes() {
    assert_eq!(fix_single_quoted_strings("{'a': 'it\\'s'}"), "{\"a\": \"it's\"}");
    assert_eq!(fix_single_quoted_strings("{\"a\": \"don't\"}"), "{\"a\": \"don't\"}");
}

#[test]
fn missing_commas_are_inserted() {
    assert_eq!(fix_missing_commas("{\"a\": 1}\n{\"b\": 2}"), "{\"a\": 1},\n{\"b\": 2}");
    assert_eq!(fix_missing_commas("[\"x\"  \r\n  \"y\"]"), "[\"x\",\n\"y\"]");
    assert_eq!(fix_missing_commas("{\"a\": 1}"), "{\"a\": 1}");
}

#[test]
fn unclosed_strings_are_closed_and_newlines_escaped() {
    assert_eq!(fix_unclosed_strings("{\"a\": \"x\ny"), "{\"a\": \"x\\ny\"");
    assert_eq!(fix_unclosed_strings("{\"a\": 1}\n"), "{\"a\": 1}\n");
}

#[test]
fn brackets_are_closed_innermost_first() {
    assert_eq!(close_unclosed_brackets("{\"a\": [1, {\"b\": 2"), "{\"a\": [1, {\"b\": 2}]}");
    assert_eq!(close_unclosed_brackets("{\"a\": \"tr"), "{\"a\": \"tr\"}");
}

#[test]
fn repair_full_pipeline() {
    let input = "```json\n{'ok': True, 'items': [1, 2,],\n'x': None";
    let out = repair_json(input);
    let val: serde_json::Value = serde_json::from_str(&out).unwrap();
    assert_eq!(val["ok"], true);
    assert!(val["x"].is_null());
}

#[test]
fn repair_safety_detects_panicking_inputs() {
    assert!(repair_json_is_safe("{\"a\": 1}"));
    assert!(!repair_json_is_safe("} x {"));
    assert!(repair_json_is_safe("{中 None: 1}"));
    assert!(try_validate_and_repair_json("{\"a\": 1}").is_some());
    assert!(try_validate_and_repair_json("} x {").is_none());
}

#[test]
fn validate_reports_failure_prefix() {
    let err = validate_and_repair_json("not json at all").unwrap_err();
    assert!(err.starts_with("JSON 解析失败（已尝试修复）: "));
}

#[test]
fn python_literals_after_non_ascii_text() {
    assert_eq!(fix_python_literals("{\"名称\": True}"), "{\"名称\": true}");
    assert_eq!(fix_python_literals("{\"é\": None, \"ü\": False}"), "{\"é\": null, \"ü\": false}");
}

#[test]
fn repaired_value_is_the_first_candidate_that_parses() {
    let whole: serde_json::Value = serde_json::from_str(r#"{"a": 1}"#).unwrap();
    assert_eq!(validate_and_repair_json(r#"{"a": 1}"#).unwrap(), whole);
    let block: serde_json::Value = serde_json::from_str(r#"{"a": 2}"#).unwrap();
    assert_eq!(validate_and_repair_json("Here:\n```json\n{\"a\": 2}\n```\nDone").unwrap(), block);
    let fixed: serde_json::Value = serde_json::from_str(r#"{"a": true}"#).unwrap();
    assert_eq!(validate_and_repair_json("{'a': True}").unwrap(), fixed);
}
