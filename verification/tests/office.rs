use llmwiki::extractors::{DocxSkill, PptxSkill};
use std::io::Write;

fn archive(entries: &[(&str, &str)]) -> Vec<u8> {
    let mut w = zip::ZipWriter::new(std::io::Cursor::new(Vec::new()));
    for (name, text) in entries {
        w.start_file(*name, zip::write::FileOptions::default()).unwrap();
        w.write_all(text.as_bytes()).unwrap();
    }
    w.finish().unwrap().into_inner()
}

#[test]
fn docx_xml_paragraphs() {
    let xml = "<w:body><w:p><w:r><w:t>Hello</w:t></w:r><w:r><w:t xml:space=\"preserve\"> world</w:t></w:r></w:p>\
               <w:p><w:r><w:t/></w:r></w:p><w:p><w:r><w:t>  Second  </w:t></w:r></w:p></w:body>";
    assert_eq!(DocxSkill::extract_text_from_xml(xml), Ok("Hello world\nSecond".to_string()));
    assert_eq!(DocxSkill::extract_text_from_xml(""), Ok(String::new()));
    // A tab element is no text element: `<w:tab/>` has no closing `</w:t>`.
    let tab = "<w:p><w:tab/><w:t>a</w:t></w:p>";
    assert_eq!(DocxSkill::extract_text_from_xml(tab), Ok("a".to_string()));
}

#[test]
fn slide_xml_runs() {
    let xml = "<p:sp><a:t>Title</a:t><a:t>  </a:t><a:t lang=\"en\"> Body </a:t></p:sp>";
    assert_eq!(PptxSkill::extract_text_from_slide_xml(xml), Ok("Title\nBody".to_string()));
    assert_eq!(PptxSkill::extract_text_from_slide_xml("<a:t>x"), Ok(String::new()));
}

#[test]
fn docx_from_archive() {
    let bytes = archive(&[("word/document.xml", "<w:p><w:t>文档</w:t></w:p>")]);
    assert_eq!(DocxSkill::extract_text(&bytes), Ok("文档".to_string()));
    let empty = archive(&[("word/document.xml", "<w:p></w:p>")]);
    assert_eq!(DocxSkill::extract_text(&empty), Err("DOCX 文件中未找到文本内容。".to_string()));
    let missing = archive(&[("other.xml", "")]);
    assert!(DocxSkill::extract_text(&missing)
        .unwrap_err()
        .starts_with("DOCX 文件结构异常，缺少 word/document.xml: "));
    assert!(DocxSkill::extract_text(b"not a zip").unwrap_err().starts_with("无法解析 DOCX (ZIP) 文件: "));
}

#[test]
fn pptx_from_archive() {
    let bytes = archive(&[
        ("ppt/slides/slide1.xml", "<a:t>One</a:t>"),
        ("ppt/slides/slide2.xml", "<a:t> </a:t>"),
        ("ppt/slides/slide3.xml", "<a:t>Three</a:t><a:t>3b</a:t>"),
        ("ppt/slides/slide5.xml", "<a:t>Five</a:t>"),
    ]);
    assert_eq!(
        PptxSkill::extract_text(&bytes),
        Ok("--- 幻灯片 1 ---\nOne\n\n--- 幻灯片 3 ---\nThree\n3b".to_string())
    );
    let none = archive(&[("ppt/presentation.xml", "")]);
    assert_eq!(PptxSkill::extract_text(&none), Err("PPTX 文件中未找到文本内容。".to_string()));
    assert!(PptxSkill::extract_text(b"junk").unwrap_err().starts_with("无法解析 PPTX (ZIP) 文件: "));
}
