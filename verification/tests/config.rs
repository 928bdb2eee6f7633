use llmwiki::config::{KbConfig, WebSearchConfig};
use llmwiki::local_fs::{LocalFileEntry, LocalFsService};

#[test]
fn test_kb_config_default() {
    let config = KbConfig::default();
    assert_eq!(config.name, "我的知识库");
    assert_eq!(config.template_name, "general");
    assert_eq!(config.language, "zh-CN");
    assert_eq!(config.review_mode, "balanced");
}

#[test]
fn test_web_search_config_default() {
    let config = WebSearchConfig::default();
    assert_eq!(config.engine, "duckduckgo");
    assert_eq!(config.max_results, 10);
}

#[test]
fn test_get_default_local_root() {
    let root = LocalFsService::get_default_local_root(Some("/home/user"));
    assert!(root.ends_with("LLMWiki"));
    let root = LocalFsService::get_default_local_root(None);
    assert!(root.ends_with("LLMWiki"));
}

#[test]
fn default_local_root_is_under_documents() {
    assert_eq!(LocalFsService::get_default_local_root(Some("/home/user")), "/home/user/Documents/LLMWiki");
    assert_eq!(LocalFsService::get_default_local_root(Some("/root/")), "/root/Documents/LLMWiki");
    assert_eq!(LocalFsService::get_default_local_root(None), "LLMWiki");
}

#[test]
fn local_snippet_is_first_nonblank_line_cut_at_200_bytes() {
    assert_eq!(LocalFsService::snippet("\n  \n# Page A\nContent"), "# Page A");
    assert_eq!(LocalFsService::snippet(""), "");
    let long = "x".repeat(250);
    assert_eq!(LocalFsService::snippet(&long), format!("{}...", "x".repeat(200)));
}

#[test]
fn local_listing_takes_markdown_files_by_stem() {
    assert_eq!(LocalFsService::markdown_title("notes.md"), Some("notes".to_string()));
    assert_eq!(LocalFsService::markdown_title("a.b.md"), Some("a.b".to_string()));
    assert_eq!(LocalFsService::markdown_title("..md"), Some(".".to_string()));
    assert_eq!(LocalFsService::markdown_title(".md"), None);
    assert_eq!(LocalFsService::markdown_title("notes.MD"), None);
    assert_eq!(LocalFsService::markdown_title("notes.md.txt"), None);
    assert_eq!(LocalFsService::markdown_title("README"), None);
}

fn entry(rel: &str) -> LocalFileEntry {
    LocalFileEntry { relative_path: rel.to_string(), absolute_path: format!("/r/{}", rel), title: rel.to_string(), snippet: String::new() }
}

#[test]
fn local_listing_is_ordered_by_relative_path() {
    let es = vec![entry("b.md"), entry("a/z.md"), entry("B.md"), entry("a.md"), entry("中.md")];
    let sorted: Vec<String> = LocalFsService::sort_by_relative_path(es).into_iter().map(|e| e.relative_path).collect();
    assert_eq!(sorted, vec!["B.md", "a.md", "a/z.md", "b.md", "中.md"]);
}
