use llmwiki::documents::DocumentParseResult;
use llmwiki::file_preview::{PreviewKind, TextRead, WorkspaceFilePreviewService as W};
use llmwiki::gateway::{parse_http_error, resolve_provider, ResolvedProvider};
use llmwiki::source_preview::SourcePreviewService as S;

#[test]
fn txt_preview_of_small_and_empty_files() {
    assert_eq!(S::txt_to_markdown("", "a.txt"), "# a.txt\n\n*文件内容为空*\n");
    assert_eq!(S::txt_to_markdown("  one \n\ntwo", "a.txt"), "# a.txt\n\none\n\ntwo\n");
    let long_line = "a".repeat(81);
    assert_eq!(S::txt_to_markdown(&long_line, "b"), format!("# b\n\n{}\n\n", long_line));
    let many = "x\n".repeat(101);
    assert_eq!(S::txt_to_markdown(&many, "c"), format!("# c\n\n```\n{}\n```\n", many));
}

#[test]
fn plain_text_headings_and_paragraphs() {
    assert_eq!(S::plain_text_to_markdown("Intro\n\n\nThis is a sentence.\n- item"), "## Intro\n\n\nThis is a sentence.\n\n- item\n\n");
    let html = S::html_to_markdown("a.html", Ok("Title".to_string())).unwrap();
    assert_eq!(html, "# a.html\n\n> 此预览由 HTML 文档转换生成\n\n## Title\n\n");
    assert_eq!(S::html_to_markdown("a.html", Err("bad".to_string())), Err("bad".to_string()));
}

#[test]
fn preview_kinds_by_extension() {
    assert!(W::preview_kind("md", false) == PreviewKind::Markdown);
    assert!(W::preview_kind("json", false) == PreviewKind::Json);
    assert!(W::preview_kind("csv", false) == PreviewKind::Unsupported);
    assert!(W::preview_kind("csv", true) == PreviewKind::Text);
    assert!(W::preview_kind("svg", false) == PreviewKind::Image);
    assert!(W::preview_kind("xlsx", false) == PreviewKind::Document);
    assert!(W::hashes_file(10));
    assert!(!W::hashes_file(104857600));
    assert!(W::reads_partially(2097153));
    assert!(!W::reads_partially(2097152));
}

#[test]
fn text_previews_and_json_validity() {
    let (c, t, n) = W::read_text_safe(5, TextRead::Whole(b"{\"a\":1}".to_vec()));
    assert_eq!((c.as_str(), t, n), ("{\"a\":1}", false, 0));
    let b = W::text_body(PreviewKind::Json, 5, (c, t, n));
    assert_eq!(b.preview_type, "json");
    assert!(b.render_hint.can_format_json);
    assert!(b.error.is_none());
    let b = W::text_body(PreviewKind::Json, 5, ("{oops".to_string(), false, 0));
    assert_eq!(b.error.as_deref(), Some("JSON 格式无效"));
    let (c, t, n) = W::read_text_safe(3 * 1024 * 1024, TextRead::PartialFailed);
    assert_eq!((c.as_str(), t, n), ("文件过大无法直接预览（3 MB）", true, 0));
    let (c, t, n) = W::read_text_safe(3 * 1024 * 1024, TextRead::Partial(vec![104, 105]));
    assert_eq!((c.as_str(), t, n), ("hi", true, 2));
    let b = W::text_body(PreviewKind::Markdown, 3 * 1024 * 1024, (c, t, n));
    assert!(b.render_hint.is_large_file && b.render_hint.can_render_markdown && b.render_hint.truncated);
    let b = W::image_body(10485761);
    assert!(b.render_hint.is_large_file);
    assert_eq!(W::unsupported_body().error.as_deref(), Some("该文件类型暂不支持内置预览"));
}

#[test]
fn document_previews_are_cut_at_8000_bytes() {
    let r = DocumentParseResult {
        file_name: "a.pdf".to_string(),
        file_type: "pdf".to_string(),
        text: "y".repeat(8001),
        text_length: 8001,
        page_count: None,
        warnings: vec!["w".to_string()],
    };
    let b = W::document_body("a.pdf", "pdf", Ok(r));
    let expected = format!(
        "# a.pdf\n\n> 此预览由 PDF 文件自动转换生成\n\n> ⚠️ w\n\n{}\n\n*... 文本过长，已截断（完整长度 8001 字符）*",
        "y".repeat(8000)
    );
    assert_eq!(b.content, expected);
    assert!(b.render_hint.truncated);
    assert_eq!(b.render_hint.truncated_length, 8000);
    let b = W::document_body("a.pdf", "pdf", Err("坏".to_string()));
    assert_eq!(b.preview_type, "unsupported");
    assert_eq!(b.error.as_deref(), Some("文件解析失败: 坏"));
}

#[test]
fn http_errors_are_read() {
    assert_eq!(parse_http_error("HTTP 401: {\"error\":1}"), Some((401, "{\"error\":1}".to_string())));
    assert_eq!(parse_http_error("HTTP 500"), Some((500, String::new())));
    assert_eq!(parse_http_error("HTTP +429: a: b"), Some((429, "a: b".to_string())));
    assert_eq!(parse_http_error("HTTP 70000: x"), None);
    assert_eq!(parse_http_error("HTTP : x"), None);
    assert_eq!(parse_http_error("timeout"), None);
}

#[test]
fn providers_are_resolved_by_key() {
    assert!(matches!(resolve_provider("anthropic"), ResolvedProvider::Anthropic(_)));
    match resolve_provider("ollama") {
        ResolvedProvider::OpenAiCompatible(p) => assert_eq!(p.provider_name(), "Ollama"),
        _ => panic!("expected an OpenAI-compatible provider"),
    }
    match resolve_provider("whatever") {
        ResolvedProvider::OpenAiCompatible(p) => assert_eq!(p.provider_name(), "DeepSeek"),
        _ => panic!("expected an OpenAI-compatible provider"),
    }
}

#[test]
fn preview_paths_must_lie_in_the_workspace() {
    assert_eq!(W::check_within_workspace("/home/u/kb/wiki/a.md", "/home/u/kb"), Ok(()));
    assert_eq!(W::check_within_workspace("/home/u/kb", "/home/u/kb/"), Ok(()));
    assert_eq!(W::check_within_workspace("/home//u/kb/./a", "/home/u/kb"), Ok(()));
    assert_eq!(
        W::check_within_workspace("/home/u/kbx/a.md", "/home/u/kb"),
        Err("安全校验失败：路径不在工作区内".to_string())
    );
    assert!(W::check_within_workspace("home/u/kb/a", "/home/u/kb").is_err());
}
