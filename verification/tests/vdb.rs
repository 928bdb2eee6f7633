use llmwiki::vdb::{check_reindex_sources, finish_reindex, start_reindex_state, ReindexEnd, ReindexTally, VdbState};

#[test]
fn reindex_needs_text() {
    assert_eq!(check_reindex_sources(3, 1), Ok(()));
    assert_eq!(
        check_reindex_sources(0, 0),
        Err("该知识库尚无文档，请先上传并处理文档".to_string())
    );
    assert_eq!(
        check_reindex_sources(4, 0),
        Err("4 个文档中均无已提取的文本，请先运行文档处理任务".to_string())
    );
}

#[test]
fn reindex_tally_counts() {
    let mut t = ReindexTally::new();
    t.record(true, true);
    t.record(true, true);
    t.record(false, false);
    t.record(true, false);
    assert_eq!(t.chunks_stored, 2);
    assert_eq!(t.embed_errors, 1);
}

#[test]
fn reindex_reports() {
    let (s, e, level, msg) =
        finish_reindex(ReindexEnd::Finished { sources: 2, chunks_stored: 7, embed_errors: 0 });
    assert_eq!(s, VdbState::Idle);
    assert!(e.is_none());
    assert_eq!(level, "info");
    assert_eq!(msg, "索引构建完成: 2 个文档 → 7 chunks");
    let (_, _, _, msg) =
        finish_reindex(ReindexEnd::Finished { sources: 2, chunks_stored: 7, embed_errors: 3 });
    assert_eq!(msg, "索引构建完成: 2 个文档 → 7 chunks, 3 次失败");
    let (s, e, level, msg) = finish_reindex(ReindexEnd::Failed("boom".to_string()));
    assert_eq!(s, VdbState::Error);
    assert_eq!(e, Some("boom".to_string()));
    assert_eq!(level, "error");
    assert_eq!(msg, "索引构建失败: boom");
    let (_, e, _, msg) = finish_reindex(ReindexEnd::Crashed("x".to_string()));
    assert_eq!(e, Some("后台任务异常: x".to_string()));
    assert_eq!(msg, "后台任务异常: x");
}

#[test]
fn reindex_needs_a_loaded_engine() {
    assert_eq!(start_reindex_state(false), Err("请先在推理引擎设置中保存配置以加载模型".to_string()));
    assert_eq!(start_reindex_state(true), Ok((VdbState::Indexing, None)));
}
