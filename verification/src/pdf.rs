//! The text of PDF documents: the text layer that `lopdf` extracts page by
//! page, with warnings on its quality, and the outcome of the OCR fallback
//! for scanned documents.
use vstd::prelude::*;
use crate::extractors::{garbled, looks_like_garbled_cjk, PdfSkill};
use crate::office::{push_all_chars, push_sep_line, trimmed};
use crate::text::{
    byte_len, chars_of, chars_within, decimal, floor_prefix, has_prefix, join, lines, lines_of,
    push_decimal, push_str, starts_with, string_of, string_of_range, trim, vviews,
};

verus! {

#[verifier::external_type_specification]
#[verifier::external_body]
pub struct ExPdfDocument(lopdf::Document);

/// The `Display` text of the error of `lopdf::Document::load_mem` on the
/// bytes, if loading them fails.
pub uninterp spec fn pdf_load_error(bytes: Seq<u8>) -> Option<Seq<char>>;

/// The object numbers of the pages that `Document::page_iter` walks, in its
/// order, in the document that `lopdf::Document::load_mem` makes of the
/// bytes. (Loading is sequential: the crate is built without `rayon`.)
pub uninterp spec fn pdf_page_ids(bytes: Seq<u8>) -> Seq<u32>;

/// What `Document::extract_text` gives for one page number of the
/// document that `lopdf::Document::load_mem` makes of the bytes: the text,
/// or the error's `Display` text.
pub uninterp spec fn pdf_page_text(bytes: Seq<u8>, page: u32) -> Result<Seq<char>, Seq<char>>;

/// A document loaded by `lopdf`, with the bytes it was loaded from. It is
/// only made by `load_pdf`, from the document that `pdf_load` gave for
/// those bytes.
pub struct LoadedPdf {
    doc: lopdf::Document,
    source: Ghost<Seq<u8>>,
}

impl View for LoadedPdf {
    type V = Seq<u8>;

    closed spec fn view(&self) -> Seq<u8> {
        self.source@
    }
}

/// Calls `lopdf::Document::load_mem`, with the error as its text.
/// Whether `lopdf` never panics on malformed bytes rests on `lopdf`: no
/// clause can exclude a panic of the outside code.
#[verifier::external_body]
fn pdf_load(bytes: &[u8]) -> (r: Result<lopdf::Document, String>)
    ensures
        match (r, pdf_load_error(bytes@)) {
            (Ok(_), None) => true,
            (Err(e), Some(m)) => e@ == m,
            _ => false,
        },
{
    lopdf::Document::load_mem(bytes).map_err(|e| e.to_string())
}

/// The document loaded from `bytes`, or the loading error's text.
fn load_pdf(bytes: &[u8]) -> (r: Result<LoadedPdf, String>)
    ensures
        match (r, pdf_load_error(bytes@)) {
            (Ok(p), None) => p@ == bytes@,
            (Err(e), Some(m)) => e@ == m,
            _ => false,
        },
{
    match pdf_load(bytes) {
        Ok(doc) => Ok(LoadedPdf { doc, source: Ghost(bytes@) }),
        Err(e) => Err(e),
    }
}

/// Calls `Document::page_iter` and gives the object number of each page.
#[verifier::external_body]
fn pdf_page_numbers(p: &LoadedPdf) -> (r: Vec<u32>)
    ensures
        r@ == pdf_page_ids(p@),
{
    p.doc.page_iter().map(|id| id.0).collect()
}

/// Calls `Document::extract_text` on one page number, with the error as
/// its text. Whether text and font decoding never panic on a malformed
/// document rests on `lopdf`.
#[verifier::external_body]
fn pdf_extract_text(p: &LoadedPdf, page: u32) -> (r: Result<String, String>)
    ensures
        match r {
            Ok(t) => pdf_page_text(p@, page) == Ok::<Seq<char>, Seq<char>>(t@),
            Err(e) => pdf_page_text(p@, page) == Err::<Seq<char>, Seq<char>>(e@),
        },
{
    p.doc.extract_text(&[page]).map_err(|e| e.to_string())
}

/// The pages of the PDF held in `bytes`, each with its text when `lopdf`
/// extracts one.
pub open spec fn pdf_pages(bytes: Seq<u8>) -> Seq<(u32, Option<Seq<char>>)> {
    pdf_page_ids(bytes).map_values(|id: u32| (id, match pdf_page_text(bytes, id) {
        Ok(t) => Some(t),
        Err(_) => None,
    }))
}

/// The warning given when the text layer looks garbled.
pub open spec fn garbled_warning() -> Seq<char> {
    "⚠️ 内置文本层包含大量乱码字符，可能是中文字体解码问题。建议启用 MarkItDown 以获得更好的 PDF 提取效果。"@
}

/// The text of each page whose text, trimmed, is not empty, under a
/// `--- 第 n 页 ---` heading.
pub open spec fn page_parts(pages: Seq<(u32, Option<Seq<char>>)>) -> Seq<Seq<char>>
    decreases pages.len(),
{
    if pages.len() == 0 {
        seq![]
    } else {
        let r = page_parts(pages.drop_last());
        let (n, t) = pages.last();
        match t {
            Some(t) => if trim(t).len() > 0 {
                r.push("--- 第 "@ + decimal(n as nat) + " 页 ---\n"@ + trim(t))
            } else {
                r
            },
            None => r,
        }
    }
}

/// The texts of the pages, each followed by a line break.
pub open spec fn page_concat(pages: Seq<(u32, Option<Seq<char>>)>) -> Seq<char>
    decreases pages.len(),
{
    if pages.len() == 0 {
        seq![]
    } else {
        let r = page_concat(pages.drop_last());
        match pages.last().1 {
            Some(t) => r + t + "\n"@,
            None => r,
        }
    }
}

/// What the text layer of a PDF gives, from the text of each page: the
/// text and the warnings, or, when it holds no text, the warnings for the
/// OCR fallback (`None`).
pub open spec fn text_layer(pages: Seq<(u32, Option<Seq<char>>)>) -> (Option<Seq<char>>, Seq<Seq<char>>) {
    let parts = page_parts(pages);
    if parts.len() > 0 {
        let combined = join(parts, "\n\n"@);
        let w1: Seq<Seq<char>> = if garbled(combined) {
            seq![garbled_warning()]
        } else {
            seq![]
        };
        let w2: Seq<Seq<char>> = if byte_len(combined) < 200 {
            seq!["文本层内容较少("@ + decimal(byte_len(combined)) + "字符)，可能为扫描件。已尝试文本层提取。"@]
        } else {
            seq![]
        };
        (Some(combined), w1 + w2)
    } else if trim(page_concat(pages)).len() > 0 {
        (Some(trim(page_concat(pages))), seq!["使用备用文本提取方式获得内容。"@])
    } else {
        (None, seq!["PDF无文本层（扫描件/图片型PDF），启动Windows OCR识别。"@])
    }
}

/// The text layer of a PDF: its text, or the need of OCR; with warnings.
#[derive(Debug)]
pub enum PdfTextLayer {
    Text(String, Vec<String>),
    NeedsOcr(Vec<String>),
}

/// The view of a text layer, as `text_layer` gives it.
pub open spec fn layer_view(l: PdfTextLayer) -> (Option<Seq<char>>, Seq<Seq<char>>) {
    match l {
        PdfTextLayer::Text(t, w) => (Some(t@), w@.map_values(|s: String| s@)),
        PdfTextLayer::NeedsOcr(w) => (None, w@.map_values(|s: String| s@)),
    }
}

/// Whether every line marks an OCR placeholder (`[第` or `[图像`).
pub open spec fn all_placeholder_lines(ls: Seq<Seq<char>>) -> bool {
    forall|i: int| 0 <= i < ls.len() ==> starts_with(#[trigger] ls[i], "[第"@) || starts_with(ls[i], "[图像"@)
}

/// Whether `&text[..500]` cuts a text of more than 500 bytes at a
/// character boundary.
pub open spec fn ocr_cuttable(t: Seq<char>) -> bool {
    byte_len(t) > 500 ==> byte_len(t.take(chars_within(t, 500, 0, 0))) == 500
}

/// What the OCR fallback gives: the recognised pages joined by blank lines,
/// with a warning; an error with the first 500 bytes of the result when it
/// holds nothing but placeholders; or the OCR's error.
pub open spec fn ocr_outcome(warnings: Seq<Seq<char>>, ocr: Result<Seq<Seq<char>>, Seq<char>>) -> Result<(Seq<char>, Seq<Seq<char>>), Seq<char>> {
    match ocr {
        Err(e) => Err("此PDF文件无文本层（可能为扫描件），且OCR失败: "@ + e),
        Ok(ps) => {
            let t = join(ps, "\n\n"@);
            if trim(t).len() == 0 || all_placeholder_lines(lines(t)) {
                Err("PDF无文本层且OCR未能识别出文字。OCR结果: "@ + t.take(chars_within(t, 500, 0, 0)))
            } else {
                Ok((t, warnings.push("文本由OCR识别生成，可能存在识别误差。"@)))
            }
        },
    }
}

impl PdfSkill {
    /// The text layer of a PDF from the text of each page, with its page
    /// number (see `text_layer`).
    pub fn assemble_text_layer(pages: &Vec<(u32, Option<String>)>) -> (r: PdfTextLayer)
        ensures
            layer_view(r) == text_layer(pages@.map_values(|p: (u32, Option<String>)| (p.0, match p.1 {
                Some(t) => Some(t@),
                None => None,
            }))),
    {
        let ghost pv = pages@.map_values(|p: (u32, Option<String>)| (p.0, match p.1 {
            Some(t) => Some(t@),
            None => None,
        }));
        proof {
            reveal_strlit("\n\n");
            reveal_strlit("\n");
        }
        let mut out: Vec<char> = Vec::new();
        let mut count: usize = 0;
        let mut all: Vec<char> = Vec::new();
        let mut i: usize = 0;
        while i < pages.len()
            invariant
                i <= pages@.len(),
                pv == pages@.map_values(|p: (u32, Option<String>)| (p.0, match p.1 {
                    Some(t) => Some(t@),
                    None => None,
                })),
                out@ == join(page_parts(pv.take(i as int)), "\n\n"@),
                count == page_parts(pv.take(i as int)).len(),
                count <= i,
                all@ == page_concat(pv.take(i as int)),
            decreases pages.len() - i,
        {
            let ghost before = pv.take(i as int);
            assert(pv.take(i + 1).drop_last() =~= before);
            assert(pv.take(i + 1).last() == pv[i as int]);
            match &pages[i].1 {
                Some(t) => {
                    let cs = chars_of(t.as_str());
                    push_all_chars(&mut all, &cs);
                    all.push('\n');
                    proof {
                        reveal_strlit("\n");
                    }
                    assert(all@ =~= page_concat(before) + t@ + "\n"@);
                    let tt = trimmed(&cs);
                    if tt.len() > 0 {
                        let mut part = String::from_str("--- 第 ");
                        push_decimal(&mut part, pages[i].0 as u64);
                        push_str(&mut part, " 页 ---\n");
                        let ts = string_of(&tt);
                        push_str(&mut part, ts.as_str());
                        let pc = chars_of(part.as_str());
                        push_sep_line(&mut out, count, &pc, Ghost(page_parts(before)));
                        count = count + 1;
                    }
                },
                None => {},
            }
            i = i + 1;
        }
        assert(pv.take(pages@.len() as int) =~= pv);
        if count > 0 {
            let combined = string_of(&out);
            let mut warnings: Vec<String> = Vec::new();
            if looks_like_garbled_cjk(combined.as_str()) {
                warnings.push(String::from_str(
                    "⚠️ 内置文本层包含大量乱码字符，可能是中文字体解码问题。建议启用 MarkItDown 以获得更好的 PDF 提取效果。",
                ));
            }
            let len = combined.as_str().as_bytes().len();
            if len < 200 {
                let mut w = String::from_str("文本层内容较少(");
                push_decimal(&mut w, len as u64);
                push_str(&mut w, "字符)，可能为扫描件。已尝试文本层提取。");
                warnings.push(w);
            }
            let r = PdfTextLayer::Text(combined, warnings);
            assert(layer_view(r).1 =~= text_layer(pv).1);
            r
        } else {
            let t = trimmed(&all);
            if t.len() > 0 {
                let mut warnings: Vec<String> = Vec::new();
                warnings.push(String::from_str("使用备用文本提取方式获得内容。"));
                let r = PdfTextLayer::Text(string_of(&t), warnings);
                assert(layer_view(r).1 =~= text_layer(pv).1);
                r
            } else {
                let mut warnings: Vec<String> = Vec::new();
                warnings.push(String::from_str("PDF无文本层（扫描件/图片型PDF），启动Windows OCR识别。"));
                let r = PdfTextLayer::NeedsOcr(warnings);
                assert(layer_view(r).1 =~= text_layer(pv).1);
                r
            }
        }
    }

    /// Loads a PDF held in `bytes` and takes its text layer page by page
    /// (see `assemble_text_layer` and `pdf_pages`); fails exactly when
    /// `lopdf` cannot load it.
    pub fn extract_text_layer(bytes: &[u8]) -> (r: Result<PdfTextLayer, String>)
        ensures
            match (r, pdf_load_error(bytes@)) {
                (Ok(l), None) => layer_view(l) == text_layer(pdf_pages(bytes@)),
                (Err(e), Some(m)) => e@ == "无法打开 PDF 文件: "@ + m,
                _ => false,
            },
    {
        let doc = match load_pdf(bytes) {
            Ok(d) => d,
            Err(e) => {
                let mut m = String::from_str("无法打开 PDF 文件: ");
                push_str(&mut m, e.as_str());
                return Err(m);
            },
        };
        let ids = pdf_page_numbers(&doc);
        let ghost all = pdf_pages(bytes@);
        let mut pages: Vec<(u32, Option<String>)> = Vec::new();
        let mut i: usize = 0;
        while i < ids.len()
            invariant
                i <= ids@.len(),
                doc@ == bytes@,
                ids@ == pdf_page_ids(bytes@),
                all == pdf_pages(bytes@),
                pages@.len() == i,
                forall|k: int|
                    0 <= k < i ==> (#[trigger] pages@[k]).0 == all[k].0 && all[k].1 == match pages@[k].1 {
                        Some(t) => Some(t@),
                        None => None::<Seq<char>>,
                    },
            decreases ids.len() - i,
        {
            let t = match pdf_extract_text(&doc, ids[i]) {
                Ok(t) => Some(t),
                Err(_) => None,
            };
            pages.push((ids[i], t));
            i = i + 1;
        }
        let r = Self::assemble_text_layer(&pages);
        assert(pages@.map_values(|p: (u32, Option<String>)| (p.0, match p.1 {
            Some(t) => Some(t@),
            None => None,
        })) =~= all);
        Ok(r)
    }

    /// The number of pages of a PDF held in `bytes`.
    pub fn get_page_count(bytes: &[u8]) -> (r: Result<usize, String>)
        ensures
            match (r, pdf_load_error(bytes@)) {
                (Ok(n), None) => n == pdf_page_ids(bytes@).len(),
                (Err(e), Some(m)) => e@ == "无法打开 PDF 文件: "@ + m,
                _ => false,
            },
    {
        match load_pdf(bytes) {
            Ok(doc) => Ok(pdf_page_numbers(&doc).len()),
            Err(e) => {
                let mut m = String::from_str("无法打开 PDF 文件: ");
                push_str(&mut m, e.as_str());
                Err(m)
            },
        }
    }

    /// The text of one page of a PDF held in `bytes`: fails with the loading
    /// error exactly when `lopdf` cannot load it, or with the extraction
    /// error of that page.
    pub fn extract_page_text(bytes: &[u8], page_num: u32) -> (r: Result<String, String>)
        ensures
            pdf_load_error(bytes@) matches Some(m) ==> r matches Err(e) && e@ == "无法打开 PDF 文件: "@ + m,
            pdf_load_error(bytes@) is None ==> match (r, pdf_page_text(bytes@, page_num)) {
                (Ok(t), Ok(u)) => t@ == u,
                (Err(e), Err(m)) => e@ == "提取第 "@ + decimal(page_num as nat) + " 页文本失败: "@ + m,
                _ => false,
            },
    {
        let doc = match load_pdf(bytes) {
            Ok(d) => d,
            Err(e) => {
                let mut m = String::from_str("无法打开 PDF 文件: ");
                push_str(&mut m, e.as_str());
                return Err(m);
            },
        };
        match pdf_extract_text(&doc, page_num) {
            Ok(t) => Ok(t),
            Err(e) => {
                let mut m = String::from_str("提取第 ");
                push_decimal(&mut m, page_num as u64);
                push_str(&mut m, " 页文本失败: ");
                push_str(&mut m, e.as_str());
                Err(m)
            },
        }
    }

    /// The outcome of the OCR fallback (see `ocr_outcome`).
    pub fn finish_with_ocr(warnings: Vec<String>, ocr: Result<Vec<String>, String>) -> (r: Result<(String, Vec<String>), String>)
        requires
            ocr matches Ok(ps) ==> ocr_cuttable(join(vviews_s(ps@), "\n\n"@)),
        ensures
            match (r, ocr_outcome(warnings@.map_values(|s: String| s@), match ocr {
                Ok(ps) => Ok(vviews_s(ps@)),
                Err(e) => Err(e@),
            })) {
                (Ok((t, w)), Ok((u, v))) => t@ == u && w@.map_values(|s: String| s@) == v,
                (Err(e), Err(m)) => e@ == m,
                _ => false,
            },
    {
        proof {
            reveal_strlit("\n\n");
        }
        match ocr {
            Err(e) => {
                let mut m = String::from_str("此PDF文件无文本层（可能为扫描件），且OCR失败: ");
                push_str(&mut m, e.as_str());
                Err(m)
            },
            Ok(ps) => {
                let mut out: Vec<char> = Vec::new();
                let mut i: usize = 0;
                while i < ps.len()
                    invariant
                        i <= ps@.len(),
                        out@ == join(vviews_s(ps@).take(i as int), "\n\n"@),
                    decreases ps.len() - i,
                {
                    let pc = chars_of(ps[i].as_str());
                    assert(vviews_s(ps@).take(i + 1).drop_last() =~= vviews_s(ps@).take(i as int));
                    push_sep_line(&mut out, i, &pc, Ghost(vviews_s(ps@).take(i as int)));
                    assert(vviews_s(ps@).take(i + 1) =~= vviews_s(ps@).take(i as int).push(pc@));
                    i = i + 1;
                }
                assert(vviews_s(ps@).take(ps@.len() as int) =~= vviews_s(ps@));
                let t = trimmed(&out);
                let ls = lines_of(&out);
                let mut all_marks = true;
                let mut j: usize = 0;
                while j < ls.len()
                    invariant
                        j <= ls@.len(),
                        all_marks == forall|k: int| 0 <= k < j ==> starts_with(#[trigger] vviews(ls@)[k], "[第"@)
                            || starts_with(vviews(ls@)[k], "[图像"@),
                    decreases ls.len() - j,
                {
                    let ok = has_prefix(&ls[j], "[第") || has_prefix(&ls[j], "[图像");
                    assert(vviews(ls@)[j as int] == ls@[j as int]@);
                    all_marks = all_marks && ok;
                    j = j + 1;
                }
                if t.len() == 0 || all_marks {
                    let mut m = String::from_str("PDF无文本层且OCR未能识别出文字。OCR结果: ");
                    let (a, _) = floor_prefix(&out, 500);
                    let head = string_of_range(&out, 0, a);
                    assert(out@.subrange(0, a as int) =~= out@.take(a as int));
                    push_str(&mut m, head.as_str());
                    Err(m)
                } else {
                    let mut w = warnings;
                    w.push(String::from_str("文本由OCR识别生成，可能存在识别误差。"));
                    assert(w@.map_values(|s: String| s@) =~= warnings@.map_values(|s: String| s@).push(
                        "文本由OCR识别生成，可能存在识别误差。"@,
                    ));
                    Ok((string_of(&out), w))
                }
            },
        }
    }
}

/// The texts held by a vector of strings.
pub open spec fn vviews_s(v: Seq<String>) -> Seq<Seq<char>> {
    v.map_values(|s: String| s@)
}

} // verus!
