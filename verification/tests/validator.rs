use llmwiki::validator::{
    validate_ingest_result, validate_query_result, validate_resolution_result, validate_update_plan, JsonValue,
};

fn s(x: &str) -> JsonValue {
    JsonValue::Str(x.to_string())
}

fn obj(entries: Vec<(&str, JsonValue)>) -> JsonValue {
    JsonValue::Object(entries.into_iter().map(|(k, v)| (k.to_string(), v)).collect())
}

#[test]
fn non_object_roots_are_errors() {
    let r = validate_query_result(&JsonValue::Array(vec![]));
    assert!(!r.valid);
    assert_eq!(r.errors, vec!["根元素必须是 JSON 对象".to_string()]);
    assert!(validate_ingest_result(&JsonValue::Null).warnings.is_empty());
}

#[test]
fn query_needs_an_answer() {
    assert!(validate_query_result(&obj(vec![("answer", s("42"))])).valid);
    let r = validate_query_result(&obj(vec![]));
    assert_eq!(r.errors, vec!["缺少必需字段: answer".to_string()]);
}

#[test]
fn ingest_result_errors_and_warnings() {
    let json = obj(vec![
        ("source_summary", obj(vec![("title", s("T"))])),
        ("claims", JsonValue::Array(vec![obj(vec![("claim", s("c")), ("confidence", s("high"))])])),
        (
            "relationships",
            JsonValue::Array(vec![
                obj(vec![("source", s("a")), ("target", s("b")), ("relation", s("uses")), ("confidence", s("m"))]),
                obj(vec![("source", s("a")), ("target", s("b")), ("relation", s("likes")), ("confidence", s("m"))]),
            ]),
        ),
    ]);
    let r = validate_ingest_result(&json);
    assert!(!r.valid);
    assert_eq!(
        r.errors,
        vec![
            "缺少必需字段: coverage_report".to_string(),
            "缺少必需字段: entities".to_string(),
            "缺少必需字段: concepts".to_string(),
            "缺少必需字段: topics".to_string(),
            "缺少必需字段: proposed_wiki_updates".to_string(),
        ]
    );
    assert_eq!(
        r.warnings,
        vec![
            "source_summary 缺少字段: short_summary".to_string(),
            "claims[0] 缺少字段: citation_status".to_string(),
            "relationships[1] 的 relation 'likes' 不在标准枚举中".to_string(),
        ]
    );
}

#[test]
fn resolution_and_update_plan_checks() {
    let r = validate_resolution_result(&obj(vec![(
        "resolutions",
        JsonValue::Array(vec![obj(vec![("input_name", s("x")), ("decision", s("delete"))])]),
    )]));
    assert!(r.valid);
    assert_eq!(
        r.warnings,
        vec![
            "resolutions[0] 缺少字段: confidence".to_string(),
            "resolutions[0] 的 decision 'delete' 不在标准枚举中".to_string(),
        ]
    );
    let r = validate_update_plan(&obj(vec![("wiki_update_plan", s("not an array"))]));
    assert!(r.valid);
    assert!(r.warnings.is_empty());
    let r = validate_update_plan(&obj(vec![("plan", JsonValue::Bool(true))]));
    assert_eq!(r.errors, vec!["缺少必需字段: wiki_update_plan".to_string()]);
}
