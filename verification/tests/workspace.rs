use llmwiki::workspace::WorkspaceService;
use llmwiki::tasks::CancellationToken;
use llmwiki::recovery::{RecoveryCheck, WorkspaceReconcile};
use llmwiki::files::{FileArea, FileTreeService};

#[test]
fn workspace_dirs_are_joined_onto_root() {
    let ws = WorkspaceService::new();
    assert_eq!(ws.get_tasks_dir("/kb"), "/kb/.runtime/tasks");
    assert_eq!(ws.get_documents_dir("/kb/"), "/kb/raw/sources/documents");
    assert_eq!(ws.get_images_dir("kb"), "kb/raw/assets/images");
    assert_eq!(ws.get_versions_dir(""), "versions");
    assert_eq!(ws.get_wiki_dir("/kb"), "/kb/wiki");
}

#[test]
fn validate_workspace_lists_missing_dirs_in_order() {
    let ws = WorkspaceService::new();
    assert_eq!(ws.required_dir_paths("/kb")[2], "/kb/.runtime/tasks");
    let missing = ws.validate_workspace(&vec![true, false, true, false, true]);
    assert_eq!(missing, vec!["wiki".to_string(), "db".to_string()]);
    assert!(ws.validate_workspace(&vec![true; 5]).is_empty());
    assert_eq!(ws.validate_workspace(&vec![false; 5]).len(), 5);
}

#[test]
fn cancellation_token_is_shared_by_clones() {
    let t = CancellationToken::new();
    let c = t.clone();
    assert!(!t.is_cancelled());
    c.cancel();
    assert!(t.is_cancelled());
}

#[test]
fn interrupted_tasks_are_recovered_by_status() {
    let r = RecoveryCheck::task_recovery("queued", "t1", "ingest").unwrap();
    assert!(r.mark_interrupted);
    assert_eq!(r.action, "任务 t1 (ingest) 标记为中断，可重试");
    let r = RecoveryCheck::task_recovery("review_pending", "t2", "ingest").unwrap();
    assert!(!r.mark_interrupted);
    assert_eq!(r.action, "任务 t2 有待审阅，恢复审阅状态");
    let r = RecoveryCheck::task_recovery("applying", "t3", "ingest").unwrap();
    assert_eq!(r.action, "任务 t3 应用中断，标记为可恢复");
    assert!(RecoveryCheck::task_recovery("completed", "t4", "ingest").is_none());
}

#[test]
fn missing_page_remedies() {
    assert_eq!(
        WorkspaceReconcile::missing_page_remedy(true, true),
        ("可从版本快照恢复 或 可重新应用审阅项".to_string(), "recover_from_snapshot".to_string())
    );
    assert_eq!(
        WorkspaceReconcile::missing_page_remedy(false, true),
        ("可重新应用审阅项".to_string(), "reapply_review".to_string())
    );
    assert_eq!(
        WorkspaceReconcile::missing_page_remedy(false, false),
        ("无恢复来源，建议删除数据库记录".to_string(), "delete_record".to_string())
    );
}

#[test]
fn files_are_classified_by_area() {
    assert!(FileTreeService::file_area("raw/sources/documents/a.pdf", "pdf") == FileArea::Source);
    assert!(FileTreeService::file_area("raw/assets/images/a.png", "png") == FileArea::Asset);
    assert!(FileTreeService::file_area("wiki/concepts/a.md", "md") == FileArea::WikiPage);
    assert!(FileTreeService::file_area("wiki/concepts/a.txt", "txt") == FileArea::Unknown);
    assert!(FileTreeService::file_area(".runtime/logs/x.log", "log") == FileArea::RuntimeLog);
    assert!(FileTreeService::needs_record_lookup(FileArea::WikiPage));
    assert!(!FileTreeService::needs_record_lookup(FileArea::Config));
    let r = FileTreeService::classify_file(FileArea::Source, None);
    assert_eq!(r, ("source_orphan".to_string(), String::new(), "warning".to_string()));
    let r = FileTreeService::classify_file(FileArea::Asset, Some(("a1".to_string(), "x".to_string())));
    assert_eq!(r, ("asset".to_string(), "a1".to_string(), "ok".to_string()));
    let r = FileTreeService::classify_file(FileArea::Database, None);
    assert_eq!(r, ("database".to_string(), String::new(), "ok".to_string()));
}

#[test]
fn directory_entries_directories_first_then_by_name() {
    use_order();
}

fn use_order() {
    let e = vec![
        ("b.md".to_string(), false),
        ("z".to_string(), true),
        ("a.md".to_string(), false),
        ("A".to_string(), true),
        ("B.md".to_string(), false),
    ];
    let r = llmwiki::files::FileTreeService::order_entries(e);
    let names: Vec<&str> = r.iter().map(|x| x.0.as_str()).collect();
    assert_eq!(names, vec!["A", "z", "B.md", "a.md", "b.md"]);
    assert_eq!(llmwiki::files::FileTreeService::tree_path(""), ".");
    assert_eq!(llmwiki::files::FileTreeService::tree_path("wiki/a.md"), "wiki/a.md");
    let (node, warning) =
        llmwiki::files::FileTreeService::error_node("x".to_string(), "raw/x".to_string(), "denied");
    assert_eq!(node.status, "error");
    assert_eq!(warning, "无法读取元数据 raw/x: denied");
}
