use llmwiki::config::{default_allow_ai_generation, ConfigService, DatabaseService};
use llmwiki::documents::DocumentProcessor;
use llmwiki::extractors::MdSkill;
use llmwiki::prompts::{PromptBuilder, RELATIONSHIP_SYSTEM_PROMPT, RESOLUTION_SYSTEM_PROMPT, WIKI_UPDATE_SYSTEM_PROMPT};
use llmwiki::tokens::{estimate_tokens, DailyTokenLimit, TokenLogger};

#[test]
fn resolution_relationship_and_update_prompts() {
    let (s, m) = PromptBuilder::build_resolution_prompt("A", "B");
    assert_eq!(s, RESOLUTION_SYSTEM_PROMPT);
    assert_eq!(m, "## 需要消歧的新项目\n\nA\n\n## 候选已有页面\n\nB\n\n---\n\n请判断每个新项目的处理决策。");
    let (s, m) = PromptBuilder::build_relationship_prompt("R");
    assert_eq!(s, RELATIONSHIP_SYSTEM_PROMPT);
    assert_eq!(m, "## 候选关系\n\nR\n\n请标准化这些关系，确保映射到 canonical Wiki page。");
    let (s, m) = PromptBuilder::build_wiki_update_prompt("X", "Y", "Z");
    assert_eq!(s, WIKI_UPDATE_SYSTEM_PROMPT);
    assert_eq!(
        m,
        "## 消歧结果\n\nX\n\n## 标准化关系\n\nY\n\n## 已有页面内容（需要更新的页面）\n\nZ\n\n---\n\n请生成 Wiki 更新计划。"
    );
}

#[test]
fn quota_disabled_enabled_and_exhausted() {
    let s = TokenLogger::check_quota(&DailyTokenLimit::default(), 123);
    assert!(s.allowed);
    assert_eq!((s.today_used, s.limit, s.remaining), (0, 0, 0));
    assert_eq!(s.message, "每日限额未启用");
    let limit = DailyTokenLimit { enabled: true, limit: 1000 };
    let s = TokenLogger::check_quota(&limit, 400);
    assert!(s.allowed);
    assert_eq!(s.remaining, 600);
    assert_eq!(s.message, "今日已消耗 400 tokens，剩余 600 tokens");
    let s = TokenLogger::check_quota(&limit, 1000);
    assert!(!s.allowed);
    assert_eq!(s.remaining, 0);
    assert_eq!(s.message, "今日 Token 额度已耗尽！已消耗 1000 / 1000 tokens");
}

#[test]
fn services_keep_their_paths() {
    assert!(default_allow_ai_generation());
    assert_eq!(ConfigService::new("/cfg").get_config_dir(), "/cfg");
    assert_eq!(DatabaseService::from_path("/data/app.db").path(), "/data/app.db");
}

#[test]
fn supported_and_document_extensions() {
    assert!(DocumentProcessor::is_supported("pdf"));
    assert!(DocumentProcessor::is_supported("PNG"));
    assert!(!DocumentProcessor::is_supported("exe"));
    assert!(DocumentProcessor::is_document_type("docx"));
    assert!(!DocumentProcessor::is_document_type("png"));
}

#[test]
fn frontmatter_between_dashes() {
    assert_eq!(MdSkill::extract_frontmatter("---\ntitle: A\n---\nbody"), Some("title: A".to_string()));
    assert_eq!(MdSkill::extract_frontmatter("  ---\nx: 1\n"), Some("x: 1".to_string()));
    assert_eq!(MdSkill::extract_frontmatter("# no frontmatter"), None);
}

#[test]
fn token_estimates() {
    assert_eq!(estimate_tokens(""), 0);
    assert_eq!(estimate_tokens("abcd"), 1);
    assert_eq!(estimate_tokens("abcde"), 2);
    assert_eq!(estimate_tokens("中文中"), 2);
    assert_eq!(estimate_tokens("你好hello"), 3);
}
