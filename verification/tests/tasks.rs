use llmwiki::candidates::{close_similarity, CandidateSearchEngine, ItemRow, WikiPageRow};
use llmwiki::tasks::{cancel_plan, resume_target, status_change, task_passes_filter, ResumeTarget, StatusStamp, Task};
use llmwiki::validator::JsonValue;

fn task(status: &str, archived: bool, handled: bool) -> Task {
    Task {
        id: "t".to_string(),
        kb_id: "kb".to_string(),
        task_type: "ingest".to_string(),
        task_name: String::new(),
        status: status.to_string(),
        current_agent: String::new(),
        model_profile_id: String::new(),
        input_ref: String::new(),
        output_ref: String::new(),
        review_id: String::new(),
        error_message: String::new(),
        failure_reason: String::new(),
        recoverable: false,
        resume_from_stage: String::new(),
        last_success_stage: String::new(),
        next_action: String::new(),
        retry_count: 0,
        cancel_reason: String::new(),
        created_at: String::new(),
        updated_at: String::new(),
        locked_at: None,
        completed_at: None,
        archived_at: if archived { Some("now".to_string()) } else { None },
        handled_at: if handled { Some("now".to_string()) } else { None },
    }
}

#[test]
fn cancelling_depends_on_the_status() {
    for s in ["applied", "failed", "pipeline_failed", "cancelled", "cancelled_after_model_return", "interrupted"] {
        assert_eq!(cancel_plan(s).unwrap_err(), "任务已处于终态，无法取消");
    }
    let p = cancel_plan("queued").unwrap();
    assert_eq!((p.new_status.as_str(), p.completes, p.event_type.as_str()), ("cancelled", true, "task_cancelled"));
    assert_eq!(p.event_message, "任务已取消（无活跃运行器，直接终止）");
    let p = cancel_plan("sent_to_model").unwrap();
    assert_eq!((p.new_status.as_str(), p.completes), ("cancelling", false));
    assert_eq!(p.event_message, "用户请求取消任务，等待 Pipeline 响应");
}

#[test]
fn status_changes() {
    assert_eq!(status_change("locked", "ingest", ""), (StatusStamp::Locked, "状态更新: ingest -> locked".to_string()));
    assert_eq!(status_change("failed", "a", "boom"), (StatusStamp::Completed, "任务失败: boom".to_string()));
    assert_eq!(status_change("applied", "", "").0, StatusStamp::Completed);
    assert_eq!(status_change("queued", "x", "").0, StatusStamp::Unchanged);
    assert_eq!(resume_target(true), ResumeTarget::Review);
    assert_eq!(resume_target(false), ResumeTarget::Queue);
}

#[test]
fn task_filters() {
    assert!(task_passes_filter("running", &task("json_valid", false, false)));
    assert!(!task_passes_filter("running", &task("json_valid", true, false)));
    assert!(task_passes_filter("failed", &task("pipeline_failed", false, false)));
    assert!(!task_passes_filter("failed", &task("failed", false, true)));
    assert!(task_passes_filter("archived", &task("applied", true, false)));
    assert!(task_passes_filter("all", &task("applied", false, false)));
    assert!(task_passes_filter("whatever", &task("applied", false, false)));
    assert!(task_passes_filter("cancelled", &task("cancelling", false, false)));
    assert!(!task_passes_filter("pending_review", &task("queued", false, false)));
}

#[test]
fn candidate_names_in_order() {
    let item = |n: JsonValue| JsonValue::Object(vec![("name".to_string(), n)]);
    let json = JsonValue::Object(vec![
        ("topics".to_string(), JsonValue::Array(vec![item(JsonValue::Str("T".to_string()))])),
        (
            "entities".to_string(),
            JsonValue::Array(vec![item(JsonValue::Str("E1".to_string())), item(JsonValue::Null), item(JsonValue::Str("E2".to_string()))]),
        ),
        ("concepts".to_string(), JsonValue::Str("not a list".to_string())),
    ]);
    let names = CandidateSearchEngine::names_to_check(&json);
    assert_eq!(
        names,
        vec![
            ("E1".to_string(), "entity".to_string()),
            ("E2".to_string(), "entity".to_string()),
            ("T".to_string(), "topic".to_string()),
        ]
    );
    assert!(CandidateSearchEngine::names_to_check(&JsonValue::Null).is_empty());
}

fn item_row(id: &str, name: &str) -> ItemRow {
    ItemRow { id: id.into(), canonical_name: name.into(), item_type: "concept".into(), page_path: String::new() }
}

fn page_row(id: &str, title: &str, canonical: &str) -> WikiPageRow {
    WikiPageRow {
        id: id.into(),
        title: title.into(),
        canonical_name: canonical.into(),
        page_type: "concept".into(),
        path: format!("wiki/{}.md", id),
    }
}

#[test]
fn candidates_exact_first_then_most_similar() {
    let exact_pages = vec![page_row("p1", "Vector Database", "vector-database")];
    let items = vec![item_row("k1", "vector databse"), item_row("k2", "graph"), item_row("k3", "Vector Database")];
    let pages = vec![
        page_row("p1", "Vector Database", "vector-database"),
        page_row("p2", "Vector Databases", "vector-databases"),
    ];
    let r = CandidateSearchEngine::search_name("Vector Database", &vec![], &exact_pages, &items, &pages);
    let got: Vec<(&str, &str, usize, usize)> =
        r.iter().map(|m| (m.item_id.as_str(), m.match_type.as_str(), m.distance, m.max_len)).collect();
    assert_eq!(got, vec![("p1", "exact_wp", 0, 1), ("p2", "fuzzy_wp_title", 1, 16), ("k1", "fuzzy_ki", 1, 15)]);
    assert_eq!(r[1].page_path, "wiki/p2.md");
}

#[test]
fn candidates_are_at_most_ten() {
    let exact: Vec<ItemRow> = (0..12).map(|i| item_row(&format!("k{}", i), "Same")).collect();
    let r = CandidateSearchEngine::search_name("Same", &exact, &vec![], &vec![], &vec![]);
    assert_eq!(r.len(), 10);
    assert_eq!(r[9].item_id, "k9");
}

#[test]
fn closeness_thresholds() {
    assert_eq!(close_similarity(1, 15, 14), Some((1, 15)));
    assert_eq!(close_similarity(2, 5, 5), None);
    assert_eq!(close_similarity(1, 3, 5), Some((1, 5)));
    assert_eq!(close_similarity(0, 3, 3), None);
    assert_eq!(close_similarity(1, 0, 0), None);
}
