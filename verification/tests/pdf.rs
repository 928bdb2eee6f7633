use llmwiki::extractors::PdfSkill;
use llmwiki::pdf::PdfTextLayer;

#[test]
fn text_layer_with_headings_and_warnings() {
    let pages = vec![(1u32, Some("  Hello  ".to_string())), (2, None), (3, Some("   ".to_string())), (4, Some("World".to_string()))];
    match PdfSkill::assemble_text_layer(&pages) {
        PdfTextLayer::Text(t, w) => {
            assert_eq!(t, "--- 第 1 页 ---\nHello\n\n--- 第 4 页 ---\nWorld");
            assert_eq!(w, vec![format!("文本层内容较少({}字符)，可能为扫描件。已尝试文本层提取。", t.len())]);
        }
        other => panic!("unexpected {:?}", other),
    }
}

#[test]
fn text_layer_needs_ocr_when_empty() {
    let pages = vec![(1u32, Some(" \n".to_string())), (2, None)];
    match PdfSkill::assemble_text_layer(&pages) {
        PdfTextLayer::NeedsOcr(w) => {
            assert_eq!(w, vec!["PDF无文本层（扫描件/图片型PDF），启动Windows OCR识别。".to_string()])
        }
        other => panic!("unexpected {:?}", other),
    }
}

#[test]
fn garbled_text_layer_is_flagged() {
    let long = "é".repeat(150);
    let pages = vec![(7u32, Some(long.clone()))];
    match PdfSkill::assemble_text_layer(&pages) {
        PdfTextLayer::Text(t, w) => {
            assert_eq!(t, format!("--- 第 7 页 ---\n{}", long));
            assert_eq!(w.len(), 1);
            assert!(w[0].starts_with("⚠️ 内置文本层包含大量乱码字符"));
        }
        other => panic!("unexpected {:?}", other),
    }
}

#[test]
fn ocr_outcomes() {
    let r = PdfSkill::finish_with_ocr(vec!["w".to_string()], Ok(vec!["第一页".to_string(), "page two".to_string()]));
    assert_eq!(
        r,
        Ok(("第一页\n\npage two".to_string(), vec!["w".to_string(), "文本由OCR识别生成，可能存在识别误差。".to_string()]))
    );
    let r = PdfSkill::finish_with_ocr(vec![], Ok(vec!["[第1页: 无文字]\n[图像 2]".to_string()]));
    assert_eq!(r, Err("PDF无文本层且OCR未能识别出文字。OCR结果: [第1页: 无文字]\n[图像 2]".to_string()));
    // Pages are joined by a blank line, which is no placeholder line.
    let r = PdfSkill::finish_with_ocr(vec![], Ok(vec!["[第1页]".to_string(), "[第2页]".to_string()]));
    assert!(r.is_ok());
    let r = PdfSkill::finish_with_ocr(vec![], Ok(vec!["  ".to_string()]));
    assert_eq!(r, Err("PDF无文本层且OCR未能识别出文字。OCR结果:   ".to_string()));
    let r = PdfSkill::finish_with_ocr(vec![], Err("no engine".to_string()));
    assert_eq!(r, Err("此PDF文件无文本层（可能为扫描件），且OCR失败: no engine".to_string()));
}

#[test]
fn unreadable_pdf() {
    assert!(PdfSkill::extract_text_layer(b"not a pdf").unwrap_err().starts_with("无法打开 PDF 文件: "));
    assert!(PdfSkill::get_page_count(b"").unwrap_err().starts_with("无法打开 PDF 文件: "));
    assert!(PdfSkill::extract_page_text(b"%%", 1).unwrap_err().starts_with("无法打开 PDF 文件: "));
}
