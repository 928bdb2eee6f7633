use llmwiki::documents::{ConversionOutcome, DocumentProcessor, Extractor, ParseRoute};

#[test]
fn extension_is_lowercased_last_suffix() {
    assert_eq!(DocumentProcessor::get_extension("report.PDF"), "pdf");
    assert_eq!(DocumentProcessor::get_extension("archive.tar.gz"), "gz");
    assert_eq!(DocumentProcessor::get_extension("dir/file.MD"), "md");
    assert_eq!(DocumentProcessor::get_extension("资料/笔记.Txt"), "txt");
}

#[test]
fn extension_absent_cases_are_empty() {
    assert_eq!(DocumentProcessor::get_extension(".bashrc"), "");
    assert_eq!(DocumentProcessor::get_extension("noext"), "");
    assert_eq!(DocumentProcessor::get_extension("foo."), "");
    assert_eq!(DocumentProcessor::get_extension("dir.d/file"), "");
    assert_eq!(DocumentProcessor::get_extension("a/b.txt/.."), "");
    assert_eq!(DocumentProcessor::get_extension("a/b.txt/."), "txt");
    assert_eq!(DocumentProcessor::get_extension(""), "");
}

#[test]
fn plan_routes_by_lowercased_type() {
    let p = DocumentProcessor::parse_plan("PDF");
    assert!(p.route == ParseRoute::Preferred(Extractor::Pdf));
    assert_eq!(p.file_type, "pdf");
    let p = DocumentProcessor::parse_plan("xls");
    assert!(p.route == ParseRoute::MarkitdownOnly { table: true });
    assert_eq!(p.file_type, "xlsx");
    assert_eq!(p.label, "Excel");
    let p = DocumentProcessor::parse_plan("htm");
    assert!(p.route == ParseRoute::Native(Extractor::Html));
    assert_eq!(p.file_type, "html");
    let p = DocumentProcessor::parse_plan("Epub");
    assert!(p.route == ParseRoute::Fallback);
    assert_eq!(p.file_type, "epub");
}

#[test]
fn converted_pdf_keeps_page_count_and_warning() {
    let p = DocumentProcessor::parse_plan("pdf");
    let outcome = ConversionOutcome::Converted("hello".to_string());
    assert!(!DocumentProcessor::needs_native(&p, &outcome));
    let r = DocumentProcessor::parse_document("a.pdf".to_string(), &p, outcome, None, Some(3)).unwrap();
    assert_eq!(r.text, "hello");
    assert_eq!(r.text_length, 5);
    assert_eq!(r.page_count, Some(3));
    assert_eq!(r.warnings, vec!["PDF 通过 MarkItDown 转换".to_string()]);
}

#[test]
fn failed_conversion_falls_back_to_native_extractor() {
    let p = DocumentProcessor::parse_plan("docx");
    let outcome = ConversionOutcome::Failed("boom".to_string());
    assert!(DocumentProcessor::needs_native(&p, &outcome));
    let native = Some(Ok(("正文".to_string(), vec!["w1".to_string()])));
    let r = DocumentProcessor::parse_document("a.docx".to_string(), &p, outcome, native, Some(9)).unwrap();
    assert_eq!(r.text_length, 6);
    assert_eq!(r.page_count, None);
    assert_eq!(
        r.warnings,
        vec!["MarkItDown DOCX 转换失败 (boom), 回退到内置解析".to_string(), "w1".to_string()]
    );
}

#[test]
fn markitdown_only_types_need_markitdown() {
    let p = DocumentProcessor::parse_plan("xlsx");
    let e = DocumentProcessor::parse_document("a.xlsx".to_string(), &p, ConversionOutcome::Unavailable, None, None)
        .unwrap_err();
    assert_eq!(e, "Excel 文件需要安装 MarkItDown 才能解析: pip install markitdown");
    let r = DocumentProcessor::parse_document(
        "a.csv".to_string(),
        &DocumentProcessor::parse_plan("csv"),
        ConversionOutcome::Converted("|a|".to_string()),
        None,
        None,
    )
    .unwrap();
    assert_eq!(r.warnings, vec!["CSV 通过 MarkItDown 转换为 Markdown 表格".to_string()]);
}

#[test]
fn unknown_type_without_markitdown_is_refused() {
    let p = DocumentProcessor::parse_plan("epub");
    let e = DocumentProcessor::parse_document("a.epub".to_string(), &p, ConversionOutcome::Unavailable, None, None)
        .unwrap_err();
    assert_eq!(e, "不支持的文件类型: .epub（安装 MarkItDown 可扩展支持更多格式: pip install markitdown）");
    let e = DocumentProcessor::parse_document(
        "a.epub".to_string(),
        &p,
        ConversionOutcome::Failed("x".to_string()),
        None,
        None,
    )
    .unwrap_err();
    assert_eq!(e, "不支持的文件类型 .epub 且 MarkItDown 也无法处理: x");
}

#[test]
fn empty_text_is_an_error_and_long_text_warns() {
    let p = DocumentProcessor::parse_plan("txt");
    let e = DocumentProcessor::parse_document("a.txt".to_string(), &p, ConversionOutcome::Unavailable, Some(Ok((String::new(), vec![]))), None)
        .unwrap_err();
    assert_eq!(e, "提取的文本内容为空。可能该文件不包含可提取的文本。");
    let long = "a".repeat(100_001);
    let r = DocumentProcessor::parse_document("a.txt".to_string(), &p, ConversionOutcome::Unavailable, Some(Ok((long, vec![]))), None)
        .unwrap();
    assert_eq!(
        r.warnings,
        vec!["文档文本较长（100001 字符），可能超出模型上下文限制，建议分段处理。".to_string()]
    );
    let native_err = DocumentProcessor::parse_document("a.txt".to_string(), &p, ConversionOutcome::Unavailable, Some(Err("读不了".to_string())), None)
        .unwrap_err();
    assert_eq!(native_err, "读不了");
}

#[test]
fn file_hash_and_size_check() {
    assert_eq!(
        DocumentProcessor::compute_file_hash(b"abc"),
        "ba7816bf8f01cfea414140de5dae2223b00361a396177a9cb410ff61f20015ad"
    );
    assert_eq!(DocumentProcessor::check_file_size(5, 1), Ok(5));
    assert_eq!(DocumentProcessor::check_file_size(1048576, 1), Ok(1048576));
    assert_eq!(DocumentProcessor::check_file_size(3 * 1048576 + 7, 2), Err("文件大小 3 MB 超过限制 2 MB".to_string()));
}
