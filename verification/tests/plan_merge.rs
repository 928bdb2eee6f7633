use llmwiki::dedup::DedupService;
use llmwiki::validator::JsonValue;

fn obj(entries: Vec<(&str, JsonValue)>) -> JsonValue {
    JsonValue::Object(entries.into_iter().map(|(k, v)| (k.to_string(), v)).collect())
}

fn s(t: &str) -> JsonValue {
    JsonValue::Str(t.to_string())
}

fn arr(items: &[&str]) -> JsonValue {
    JsonValue::Array(items.iter().map(|t| s(t)).collect())
}

#[test]
fn plans_with_the_same_name_are_merged() {
    let plans = vec![
        obj(vec![("title", s("Vector DB")), ("evidence", arr(&["e1"]))]),
        obj(vec![("title", s("Other"))]),
        obj(vec![("title", s("vector_db")), ("evidence", arr(&["e2", "e3"]))]),
        obj(vec![("canonical_name", s("other")), ("evidence", arr(&["x"]))]),
        obj(vec![("title", JsonValue::Number("5".to_string()))]),
        obj(vec![]),
    ];
    let merged = DedupService::dedup_update_plans(plans);
    assert_eq!(merged.len(), 2);
    assert_eq!(merged[0], obj(vec![("title", s("Vector DB")), ("evidence", arr(&["e1", "e2", "e3"]))]));
    assert_eq!(merged[1], obj(vec![("title", s("Other")), ("evidence", arr(&["x"]))]));
}

#[test]
fn evidence_that_is_not_an_array_stays() {
    let plans = vec![
        obj(vec![("title", s("A")), ("evidence", s("note"))]),
        obj(vec![("title", s("a")), ("evidence", arr(&["e"]))]),
        obj(vec![("title", s("B")), ("evidence", arr(&["b1"]))]),
        obj(vec![("title", s("b")), ("evidence", s("text"))]),
        obj(vec![("title", s("b"))]),
    ];
    let merged = DedupService::dedup_update_plans(plans);
    assert_eq!(merged.len(), 2);
    assert_eq!(merged[0], obj(vec![("title", s("A")), ("evidence", s("note"))]));
    assert_eq!(merged[1], obj(vec![("title", s("B")), ("evidence", arr(&["b1"]))]));
}
