use llmwiki::extractors::{AvailabilityAction, AvailabilityEvent, MarkitdownAvailability, MarkitdownSkill};
use llmwiki::health::HealthSnapshot;
use llmwiki::sandbox::{validate_parameter_schema, RunEnd, SkillRun, SkillSandbox};
use llmwiki::search::{FullTextSearch, SearchHit};

#[test]
fn template_placeholders_are_replaced_in_order() {
    let params = vec![("name".to_string(), "世界".to_string()), ("n".to_string(), "3".to_string())];
    assert_eq!(SkillSandbox::render_template("你好 {{name}}，{{n}} 次 {{name}} {{x}}", &params), "你好 世界，3 次 世界 {{x}}");
    assert_eq!(SkillSandbox::render_template("{{a}}", &vec![]), "{{a}}");
}

#[test]
fn registered_transforms() {
    assert_eq!(
        SkillSandbox::run_transform("sha256_hash", "abc").unwrap(),
        "ba7816bf8f01cfea414140de5dae2223b00361a396177a9cb410ff61f20015ad"
    );
    assert_eq!(SkillSandbox::run_transform("count_words", "  a bb\tccc\n ").unwrap(), "3");
    assert_eq!(SkillSandbox::run_transform("count_words", "").unwrap(), "0");
    assert_eq!(
        SkillSandbox::run_transform("rm", "x").unwrap_err(),
        "未注册的系统函数 'rm'，仅支持白名单内的 transform 操作"
    );
}

#[test]
fn run_results_report_errors_and_timeouts() {
    let r = SkillSandbox::template_result(RunEnd::Finished(Ok("out".to_string())), 7);
    assert!(r.success && r.output == "out" && r.error.is_none() && r.duration_ms == 7);
    let r = SkillSandbox::template_result(RunEnd::TimedOut, 5000);
    assert_eq!(r.error.as_deref(), Some("Skill 执行超时 (5s)，沙箱已自动熔断保护"));
    let r = SkillSandbox::transform_result(RunEnd::Crashed("panic".to_string()), 1);
    assert_eq!(r.error.as_deref(), Some("Transform Skill 执行异常: panic"));
    let r = SkillSandbox::transform_result(RunEnd::Finished(Err("bad".to_string())), 1);
    assert_eq!(r.error.as_deref(), Some("bad"));
}

#[test]
fn mock_runs_are_dispatched_by_skill_type() {
    match SkillSandbox::mock_execute_skill("prompt", "{\"user_prompt_template\": \"Hi {{x}}\"}") {
        SkillRun::Template(t) => assert_eq!(t, "Hi {{x}}"),
        _ => panic!("expected a template"),
    }
    match SkillSandbox::mock_execute_skill("prompt", "plain {{x}}") {
        SkillRun::Template(t) => assert_eq!(t, "plain {{x}}"),
        _ => panic!("expected a template"),
    }
    match SkillSandbox::mock_execute_skill("transform", "{}") {
        SkillRun::Transform(f) => assert_eq!(f, "unknown"),
        _ => panic!("expected a transform"),
    }
    match SkillSandbox::mock_execute_skill("agent", "") {
        SkillRun::Done(r) => assert_eq!(r.error.as_deref(), Some("未知的 skill_type: agent")),
        _ => panic!("expected a refusal"),
    }
}

#[test]
fn markitdown_availability_is_probed_installed_once_and_cached() {
    let mut s = MarkitdownAvailability::new();
    assert!(s.step(AvailabilityEvent::Query) == AvailabilityAction::ProbeCommand);
    assert!(s.step(AvailabilityEvent::CommandFound(false)) == AvailabilityAction::Install);
    assert!(s.step(AvailabilityEvent::InstallFinished) == AvailabilityAction::ProbeCommand);
    assert!(s.step(AvailabilityEvent::CommandFound(false)) == AvailabilityAction::Report(false));
    assert!(s.step(AvailabilityEvent::Query) == AvailabilityAction::Report(false));
    MarkitdownSkill::reset_cache(&mut s);
    assert!(s.step(AvailabilityEvent::Query) == AvailabilityAction::ProbeCommand);
    assert!(s.step(AvailabilityEvent::CommandFound(false)) == AvailabilityAction::Report(false));
    MarkitdownSkill::reset_install_state(&mut s);
    assert!(s.step(AvailabilityEvent::Query) == AvailabilityAction::ProbeCommand);
    assert!(s.step(AvailabilityEvent::CommandFound(true)) == AvailabilityAction::Report(true));
    assert!(s.step(AvailabilityEvent::Query) == AvailabilityAction::Report(true));
}

#[test]
fn markitdown_outcomes() {
    assert_eq!(MarkitdownSkill::convert(true, " # 标题\n".as_bytes(), b""), Ok("# 标题".to_string()));
    assert_eq!(
        MarkitdownSkill::convert(true, b"  \n", b""),
        Err("MarkItDown 返回了空内容，该文件可能不包含可提取的文本。".to_string())
    );
    assert_eq!(MarkitdownSkill::convert(false, b"out", b" err \n"), Err("MarkItDown 转换失败: err".to_string()));
    assert_eq!(MarkitdownSkill::convert(false, b" out ", b"  "), Err("MarkItDown 转换失败: out".to_string()));
    assert_eq!(MarkitdownSkill::auto_install(true, b""), Ok("MarkItDown 安装成功".to_string()));
    assert_eq!(MarkitdownSkill::auto_install(false, b" no pip "), Err("pip install 失败: no pip".to_string()));
}

#[test]
fn health_checks() {
    assert_eq!(HealthSnapshot::probe_url("https://api.deepseek.com//"), "https://api.deepseek.com/models");
    assert!(HealthSnapshot::reachable_status(204));
    assert!(HealthSnapshot::reachable_status(401));
    assert!(!HealthSnapshot::reachable_status(403));
    let s = HealthSnapshot::from_checks(false, 12, 10485761, "t".to_string());
    assert!(s.wal_checkpoint_triggered && !s.subsystems_healthy);
    let n = s.notifications();
    assert_eq!(n.len(), 2);
    assert_eq!(n[0].2, "DeepSeek API 不可达，请检查网络连接和 API 配置");
    assert_eq!(n[1].2, "SQLite WAL 文件已超过 10MB，自动执行 checkpoint");
    assert!(HealthSnapshot::from_checks(true, 1, 10485760, "t".to_string()).notifications().is_empty());
}

#[test]
fn search_results_are_unique_by_path() {
    let mut results = Vec::new();
    let hit = SearchHit::Title {
        page_id: "p1".to_string(),
        title: "RAG".to_string(),
        path: "wiki/rag.md".to_string(),
        page_type: "concept".to_string(),
        tags: " ai  retrieval ".to_string(),
        updated_at: "d".to_string(),
        status: "broken".to_string(),
    };
    let r = FullTextSearch::hit_to_result(hit, "rag");
    assert_eq!(r.tags, vec!["ai".to_string(), "retrieval".to_string()]);
    assert!(r.is_broken);
    assert_eq!(r.snippet, "RAG");
    assert!(FullTextSearch::add_result(&mut results, r));
    let alias = FullTextSearch::hit_to_result(
        SearchHit::Alias { alias: "rag".to_string(), canonical_name: "RAG".to_string(), page_path: "wiki/rag.md".to_string() },
        "rag",
    );
    assert_eq!(alias.snippet, "别名: rag");
    assert!(!FullTextSearch::add_result(&mut results, alias));
    assert_eq!(results.len(), 1);
    assert_eq!(results[0].matched_field, "title");
    assert!(!FullTextSearch::wants_fuzzy(&results, "rag"));
    assert!(FullTextSearch::wants_fuzzy(&Vec::new(), "ra"));
    assert!(!FullTextSearch::wants_fuzzy(&Vec::new(), "r"));
}

#[test]
fn parameter_schema_must_be_json() {
    assert_eq!(validate_parameter_schema("{\"type\": \"object\"}"), Ok(()));
    assert_eq!(validate_parameter_schema("[]"), Ok(()));
    let e = validate_parameter_schema("{type: object}").unwrap_err();
    assert!(e.starts_with("parameter_schema 不是合法 JSON: "));
    assert!(e.len() > "parameter_schema 不是合法 JSON: ".len());
    assert_eq!(e, "parameter_schema 不是合法 JSON: key must be a string at line 1 column 2");
}

#[test]
fn snippet_try_versions_refuse_uncuttable_windows() {
    let content = "数据库的索引很重要，请在添加新表的时候同时为外键与常用查询列建立索引abc end";
    let made = FullTextSearch::make_snippet("hello world", "world");
    assert_eq!(FullTextSearch::try_make_snippet("hello world", "world"), Some(made));
    // Twenty three-byte characters put the match at byte 60, so the window
    // would start at byte 10, inside a character.
    let long = format!("{}abc", "中".repeat(20));
    assert_eq!(FullTextSearch::try_make_snippet(&long, "abc"), None);
    assert!(FullTextSearch::try_make_snippet(content, "nothing").is_some());
    let hit = SearchHit::Content {
        title: "T".to_string(),
        path: "wiki/t.md".to_string(),
        page_type: "concept".to_string(),
        updated_at: "".to_string(),
        content: long.clone(),
    };
    assert!(FullTextSearch::try_hit_to_result(hit, "abc").is_none());
    let hit = SearchHit::Content {
        title: "T".to_string(),
        path: "wiki/t.md".to_string(),
        page_type: "concept".to_string(),
        updated_at: "".to_string(),
        content: "hello world".to_string(),
    };
    let r = FullTextSearch::try_hit_to_result(hit, "world").unwrap();
    assert_eq!(r.snippet, "hello world");
    assert_eq!(r.matched_field, "content");
}
