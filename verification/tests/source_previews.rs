use llmwiki::documents::DocumentParseResult;
use llmwiki::extractors::HtmlSkill;
use llmwiki::source_preview::{asset_info_entries, JsonScalar, PreviewRoute, SourcePreviewService as S};

fn parsed(text: &str, pages: Option<usize>, warnings: Vec<&str>) -> DocumentParseResult {
    DocumentParseResult {
        file_name: "f".to_string(),
        file_type: "pdf".to_string(),
        text: text.to_string(),
        text_length: text.len(),
        page_count: pages,
        warnings: warnings.into_iter().map(|w| w.to_string()).collect(),
    }
}

#[test]
fn preview_routes() {
    assert!(S::preview_route("md") == PreviewRoute::Markdown);
    assert!(S::preview_route("htm") == PreviewRoute::Html);
    assert!(S::preview_route("csv") == PreviewRoute::Office);
    assert!(S::preview_route("png") == PreviewRoute::Asset);
    assert!(S::preview_route("exe") == PreviewRoute::Unsupported);
    assert_eq!(S::unsupported_type("exe"), "不支持的文件类型: exe");
}

#[test]
fn docx_and_office_previews() {
    let md = S::docx_preview("a.docx", Ok(parsed("Title\nBody text.", None, vec![]))).unwrap();
    assert_eq!(md, "# a.docx\n\n> 此预览由 DOCX 文档转换生成，不保证完整版式还原\n\n## Title\n\nBody text.\n\n");
    assert_eq!(S::docx_preview("a.docx", Err("x".to_string())), Err("x".to_string()));
    let md = S::office_preview("b.csv", "csv", Ok(parsed("a,b", None, vec![]))).unwrap();
    assert_eq!(md, "# b.csv (CSV)\n\n> 此预览由 CSV 文件通过 MarkItDown 转换生成\n\n## a,b\n\n");
    assert_eq!(
        S::office_preview("b.xlsx", "xlsx", Err("坏".to_string())),
        Err("XLSX 文件解析失败: 坏".to_string())
    );
}

#[test]
fn asset_preview_is_pretty_json() {
    let md = S::asset_preview("p\"ic.png", "png");
    assert_eq!(
        md,
        "# p\"ic.png (资产文件)\n\n> 此文件为资产文件（png），不进行 OCR、不进行图片理解、不参与 AI 知识抽取\n\n{\n  \"asset_only\": true,\n  \"file_name\": \"p\\\"ic.png\",\n  \"file_type\": \"png\",\n  \"is_asset\": true\n}\n"
    );
}

#[test]
fn asset_entries_name_the_asset() {
    let e = asset_info_entries("a.png", "png");
    assert_eq!(
        e,
        vec![
            ("file_name".to_string(), JsonScalar::Text("a.png".to_string())),
            ("file_type".to_string(), JsonScalar::Text("png".to_string())),
            ("is_asset".to_string(), JsonScalar::Flag(true)),
            ("asset_only".to_string(), JsonScalar::Flag(true)),
        ]
    );
}

#[test]
fn pdf_preview_with_and_without_summary() {
    let md = S::pdf_preview("r.pdf", 1234, Ok(parsed("正文", Some(2), vec!["w"])), "", "");
    assert_eq!(
        md,
        "# r.pdf (PDF)\n\n- **文件大小**: 1234 字节\n- **页数**: 2\n- **提取文本**: 6 字符\n\n> ⚠️ w\n\n## 文档文本预览\n\n正文\n\n*该 PDF 文件尚未经过 AI 分析。请通过导入任务进行分析以获取摘要。*\n"
    );
    let md = S::pdf_preview("r.pdf", 1, Err("bad".to_string()), "摘要", "覆盖");
    assert_eq!(
        md,
        "# r.pdf (PDF)\n\n- **文件大小**: 1 字节\n> ⚠️ 文本提取失败: bad\n\n\n## AI 摘要\n\n摘要\n\n## 覆盖度报告\n\n覆盖\n"
    );
}

#[test]
fn html_text_without_tags() {
    assert_eq!(HtmlSkill::html_to_text("Hello &amp; World\n\n  line2 >x  \n&lt;b&gt;"), "Hello & World\nline2 x\n<b>");
    assert_eq!(HtmlSkill::text_from_content("  \n "), Err("HTML 文件中未找到可提取的文本内容。".to_string()));
    assert_eq!(HtmlSkill::html_to_text("é"), "\u{c3}\u{a9}");
}

#[test]
fn html_tags_scripts_and_styles_are_stripped() {
    assert_eq!(HtmlSkill::html_to_text("<p>Hi</p>"), "Hi");
    let html = "<html><body><h1>Title</h1><p>Hello <b>World</b></p><script>var x=1;</script>\
                <STYLE>p { color: red }</STYLE><p>A &amp; B</p></body></html>";
    assert_eq!(HtmlSkill::html_to_text(html), "Title\nHello World\nA & B");
    assert_eq!(HtmlSkill::html_to_text("a<br>b"), "a\nb");
    assert_eq!(HtmlSkill::text_from_content("<div></div>"), Err("HTML 文件中未找到可提取的文本内容。".to_string()));
}
