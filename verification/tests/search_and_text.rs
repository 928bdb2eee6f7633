use llmwiki::chunking::chunk_text;
use llmwiki::diff_engine::DiffEngine;
use llmwiki::prompts::{PromptBuilder, PromptRegistry, WIKI_ONLY_CONSTRAINT};
use llmwiki::search::{urlencoding, FullTextSearch};

#[test]
fn test_urlencoding_ascii() {
    assert_eq!(urlencoding("hello world"), "hello+world");
}

#[test]
fn test_urlencoding_chinese() {
    let encoded = urlencoding("知识图谱");
    assert!(encoded.contains("%E7%9F%A5%E8%AF%86"));
}

#[test]
fn urlencoding_reserved_bytes() {
    assert_eq!(urlencoding("a&b=c~d"), "a%26b%3Dc~d");
}

#[test]
fn fuzzy_pattern_surrounds_each_char() {
    assert_eq!(FullTextSearch::build_fuzzy_pattern("ab"), "%a%b%");
    assert_eq!(FullTextSearch::build_fuzzy_pattern(""), "%");
}

#[test]
fn snippet_around_match() {
    let content = format!("{}needle{}", "x".repeat(60), "y".repeat(60));
    let s = FullTextSearch::make_snippet(&content, "needle");
    assert_eq!(s, format!("...{}needle{}...", "x".repeat(50), "y".repeat(50)));
    assert_eq!(FullTextSearch::make_snippet("short text", "zzz"), "short text");
    assert_eq!(FullTextSearch::make_snippet("Hello World", "world"), "Hello World");
}

#[test]
fn chunks_cut_at_sentence_ends() {
    let chunks = chunk_text("一二。三四五。六", 5);
    assert_eq!(chunks, vec!["一二。".to_string(), "三四五。六".to_string()]);
    let chunks = chunk_text("abcdefgh", 3);
    assert_eq!(chunks, vec!["abc", "def", "gh"]);
    let chunks = chunk_text("ab\n   \ncd", 3);
    assert_eq!(chunks, vec!["ab\n", "\ncd"]);
}

#[test]
fn diff_reports_change_delete_add() {
    let hunks = DiffEngine::generate_diff("a\nb\nc\n", "a\nx\nc\nd\n");
    assert_eq!(hunks.len(), 2);
    assert_eq!((hunks[0].old_start, hunks[0].old_lines, hunks[0].new_start, hunks[0].new_lines), (1, 1, 1, 1));
    assert_eq!(hunks[0].change_type, "change");
    assert_eq!(hunks[0].content, "- b\n+ x\n");
    assert_eq!(hunks[1].change_type, "add");
    assert_eq!(hunks[1].content, "+ d\n");
    let del = DiffEngine::generate_diff("a\nb\n", "a\n");
    assert_eq!(del.len(), 1);
    assert_eq!(del[0].change_type, "delete");
    assert!(DiffEngine::generate_diff("same\r\ntext", "same\ntext").is_empty());
}

#[test]
fn prompts_fill_templates() {
    let (sys, user) = PromptBuilder::build_query_prompt("Q", "C", "S", false);
    assert_eq!(sys, format!("{}{}", PromptRegistry::get_query_system_prompt(), WIKI_ONLY_CONSTRAINT));
    assert_eq!(user, "## 问答范围\nS\n\n## 相关 Wiki 内容\n\nC\n\n## 用户问题\n\nQ\n\n---\n\n请基于提供的 Wiki 内容回答问题。");
    let (_, ingest) = PromptBuilder::build_ingest_prompt("doc", "s1", "");
    assert!(ingest.contains("- source_id: s1\n- 文档长度: 3 字符"));
    assert!(ingest.contains("暂无已有页面。"));
    let long = "中".repeat(30000);
    let (_, ingest) = PromptBuilder::build_ingest_prompt(&long, "s", "p");
    assert!(ingest.contains("[文档内容已截断，原始长度 90000 字节，显示前 79998 字节]"));
}
