use llmwiki::review::{DedupFinding, ReviewEngine};

fn op(
    llm_operation: &str,
    title: &str,
    path: &str,
    old: &str,
    new: &str,
    found: Option<DedupFinding>,
) -> (String, String, String) {
    ReviewEngine::resolve_operation(llm_operation, title, "原因", path, old, new, found)
}

#[test]
fn update_of_missing_page_becomes_create() {
    let r = op("update", "T", "wiki/a.md", "", "x", None);
    assert_eq!(r.0, "create");
    assert_eq!(r.1, "create_page");
    assert_eq!(r.2, "[自动降级] 原计划更新页面，但目标文件不存在。原原因: 原因");
    let r = op("update", "T", "wiki/a.md", "old", "x", None);
    assert_eq!((r.0.as_str(), r.1.as_str(), r.2.as_str()), ("update", "update_page", "原因"));
}

#[test]
fn append_and_delete_downgrades() {
    let r = op("append", "T", "wiki/a.md", "", "x", None);
    assert_eq!(r.2, "[自动降级] 原计划追加内容，但目标文件不存在。原原因: 原因");
    let r = op("append", "T", "wiki/a.md", "old", "x", None);
    assert_eq!(r.1, "append_section");
    let r = op("delete", "T", "", "old", "x", None);
    assert_eq!(r.0, "unresolved");
    assert_eq!(r.2, "[自动降级] 删除操作缺少目标路径。原原因: 原因");
    let r = op("delete", "T", "wiki/a.md", "", "x", None);
    assert_eq!(r.2, "[自动降级] 目标页面不存在，无法删除。原原因: 原因");
    let r = op("delete", "T", "wiki/a.md", "old", "x", None);
    assert_eq!(r.1, "delete_page");
}

#[test]
fn unknown_operation_depends_on_content_length() {
    let r = op("rewrite", "T", "p", "", "短内容", None);
    assert_eq!(r.0, "unresolved");
    assert_eq!(r.2, "内容过短(仅9字符)，需要人工审核。原操作: rewrite");
    let long = "x".repeat(50);
    let r = op("rewrite", "T", "p", "", &long, None);
    assert_eq!(r.1, "create_page");
    assert_eq!(r.2, "未知操作类型「rewrite」，默认转为创建页面");
}

#[test]
fn create_with_duplicate_becomes_update_and_note_reads_back() {
    assert!(ReviewEngine::checks_duplicates("create", "向量数据库"));
    assert!(!ReviewEngine::checks_duplicates("create", "Untitled"));
    assert!(!ReviewEngine::checks_duplicates("update", "向量数据库"));
    let found = DedupFinding {
        is_duplicate: true,
        suggested_operation: "update_page".to_string(),
        best_match: Some(("向量库".to_string(), "wiki/concepts/vdb.md".to_string(), "92".to_string())),
    };
    let r = op("create", "向量数据库", "", "", "x", Some(found));
    assert_eq!(r.0, "update");
    assert_eq!(
        r.2,
        "[去重检测] 与已有页面「向量库」(路径: wiki/concepts/vdb.md, 相似度: 92%) 高度相似，已自动转为更新页面"
    );
    let (page, path, merge, auto) = ReviewEngine::parse_dedup_reason(&r.2);
    assert_eq!(page.as_deref(), Some("向量库"));
    assert_eq!(path.as_deref(), Some("wiki/concepts/vdb.md"));
    assert!(!merge);
    assert!(auto);
}

#[test]
fn create_with_merge_suggestion() {
    let found = DedupFinding {
        is_duplicate: true,
        suggested_operation: "merge_suggestion".to_string(),
        best_match: Some(("A".to_string(), "wiki/a.md".to_string(), "75".to_string())),
    };
    let r = op("create", "A2", "", "", "x", Some(found));
    assert_eq!(r.0, "merge_suggestion");
    let (page, path, merge, auto) = ReviewEngine::parse_dedup_reason(&r.2);
    assert_eq!(page.as_deref(), Some("A"));
    assert_eq!(path.as_deref(), Some("wiki/a.md"));
    assert!(merge);
    assert!(!auto);
    let unique = DedupFinding { is_duplicate: false, suggested_operation: "create_page".to_string(), best_match: None };
    let r = op("create", "A2", "", "", "x", Some(unique));
    assert_eq!((r.0.as_str(), r.1.as_str()), ("create", "create_page"));
}

#[test]
fn reason_without_note_yields_nothing() {
    let r = ReviewEngine::parse_dedup_reason("普通原因「x」路径: y,");
    assert_eq!(r, (None, None, false, false));
}

#[test]
fn new_content_gets_title_heading() {
    assert_eq!(ReviewEngine::full_new_content("T", "body", "create_page"), "# T\n\nbody");
    assert_eq!(ReviewEngine::full_new_content("T", "# H\nbody", "create_page"), "# H\nbody");
    assert_eq!(ReviewEngine::full_new_content("T", "---\na: b\n---", "update_page"), "---\na: b\n---");
    assert_eq!(ReviewEngine::full_new_content("T", "alias", "add_alias"), "alias");
}

#[test]
fn max_risk_prefers_high_then_last_among_equals() {
    let v = |xs: &[&str]| xs.iter().map(|s| s.to_string()).collect::<Vec<_>>();
    assert_eq!(ReviewEngine::max_risk(&v(&[])), "medium");
    assert_eq!(ReviewEngine::max_risk(&v(&["low", "high", "medium"])), "high");
    assert_eq!(ReviewEngine::max_risk(&v(&["low", "other"])), "other");
}

#[test]
fn best_title_fallbacks() {
    assert_eq!(ReviewEngine::extract_best_title(Some("T"), Some("C"), None, None), "T");
    assert_eq!(ReviewEngine::extract_best_title(Some(""), Some("C"), None, None), "C");
    assert_eq!(
        ReviewEngine::extract_best_title(None, None, Some("intro\n# # 标题  \ntext"), None),
        "标题"
    );
    assert_eq!(
        ReviewEngine::extract_best_title(None, Some(""), Some("no heading"), Some("wiki/concepts/rag.md.md")),
        "rag"
    );
    assert_eq!(ReviewEngine::extract_best_title(None, None, None, None), "Untitled");
}

#[test]
fn review_summary_counts_items() {
    assert_eq!(ReviewEngine::review_summary("task_1", 3), "任务 task_1 的 Wiki 更新审阅，共 3 项");
}

#[test]
fn review_item_flags() {
    let known = vec!["wiki/a.md".to_string(), "wiki/b.md".to_string()];
    let f = ReviewEngine::item_flags("[去重检测] 疑似重复", "wiki/c.md", "merge_suggestion", &known);
    assert_eq!(f, (true, true, true));
    let f = ReviewEngine::item_flags("普通原因", "wiki/a.md", "update_page", &known);
    assert_eq!(f, (false, false, false));
    let f = ReviewEngine::item_flags("普通原因", "", "unresolved", &known);
    assert_eq!(f, (false, false, true));
}

#[test]
fn accepting_items_that_need_their_own_action_is_refused() {
    assert!(ReviewEngine::accept_check("create_page").is_ok());
    assert!(ReviewEngine::accept_check("update_page").is_ok());
    assert_eq!(
        ReviewEngine::accept_check("skip"),
        Err("无法通过 accept_item 处理 operation_type=skip，请使用对应的审阅操作".to_string())
    );
    assert!(ReviewEngine::accept_check("invalid").is_err());
    assert!(ReviewEngine::accept_check("merge_suggestion").is_err());
}
