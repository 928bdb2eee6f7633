//! The document formats the knowledge base accepts, the route of each
//! format through the extractors, and the text clean-up of the extractors:
//! Markdown, HTML, plain text in UTF-8 or GBK, and the detection of garbled
//! CJK text.
use vstd::prelude::*;
use vstd::utf8::{decode_utf8, valid_utf8};
use crate::dedup::{lowercase, to_lowercase};
use crate::text::{
    byte_len, push_decimal, chars_of, find, find_vec, is_ws, join, lemma_find_from, lines, lines_of, push_all, push_str,
    replace_all, replace_vec, slice_vec, starts_with, string_of, string_of_range, trim, trim_bounds,
    trim_start, vviews,
};

verus! {

/// One supported file type.
#[derive(Debug, Clone)]
pub struct SupportedFileType {
    pub extension: String,
    pub mime_type: String,
    pub description: String,
    /// Whether text is extracted (a document) or the file is only kept (an asset).
    pub is_document: bool,
}

/// The text extracted from a document.
#[derive(Debug, Clone)]
pub struct DocumentParseResult {
    pub file_name: String,
    pub file_type: String,
    pub text: String,
    pub text_length: usize,
    pub page_count: Option<usize>,
    pub warnings: Vec<String>,
}

pub struct DocumentProcessor;

/// The supported file types: extension, MIME type, description, and
/// whether it is a document (text is extracted) or an asset (kept as is).
pub open spec fn supported_table() -> Seq<(Seq<char>, Seq<char>, Seq<char>, bool)> {
    seq![
        ("pdf"@, "application/pdf"@, "PDF 文档"@, true),
        ("docx"@, "application/vnd.openxmlformats-officedocument.wordprocessingml.document"@, "Word 文档"@, true),
        ("md"@, "text/markdown"@, "Markdown 文档"@, true),
        ("markdown"@, "text/markdown"@, "Markdown 文档"@, true),
        ("txt"@, "text/plain"@, "纯文本文件"@, true),
        ("html"@, "text/html"@, "HTML 文档"@, true),
        ("htm"@, "text/html"@, "HTML 文档"@, true),
        ("pptx"@, "application/vnd.openxmlformats-officedocument.presentationml.presentation"@, "PowerPoint 演示文稿"@, true),
        ("xlsx"@, "application/vnd.openxmlformats-officedocument.spreadsheetml.sheet"@, "Excel 电子表格"@, true),
        ("xls"@, "application/vnd.ms-excel"@, "Excel 电子表格 (旧版)"@, true),
        ("csv"@, "text/csv"@, "CSV 表格"@, true),
        ("json"@, "application/json"@, "JSON 数据"@, true),
        ("xml"@, "application/xml"@, "XML 数据"@, true),
        ("png"@, "image/png"@, "PNG 图片（仅保存为资产）"@, false),
        ("jpg"@, "image/jpeg"@, "JPG 图片（仅保存为资产）"@, false),
        ("jpeg"@, "image/jpeg"@, "JPEG 图片（仅保存为资产）"@, false),
        ("webp"@, "image/webp"@, "WebP 图片（仅保存为资产）"@, false),
        ("gif"@, "image/gif"@, "GIF 图片（仅保存为资产）"@, false),
    ]
}



/// A listed type is either a document or an asset, never both: an
/// extension is an asset type exactly when it is supported and not a
/// document type.
pub proof fn assets_are_not_documents(ext: Seq<char>)
    ensures
        listed(ext, 2) <==> (listed(ext, 0) && !listed(ext, 1)),
        !(listed(ext, 1) && listed(ext, 2)),
{
    reveal_strlit("pdf");
    reveal_strlit("docx");
    reveal_strlit("md");
    reveal_strlit("markdown");
    reveal_strlit("txt");
    reveal_strlit("html");
    reveal_strlit("htm");
    reveal_strlit("pptx");
    reveal_strlit("xlsx");
    reveal_strlit("xls");
    reveal_strlit("csv");
    reveal_strlit("json");
    reveal_strlit("xml");
    reveal_strlit("png");
    reveal_strlit("jpg");
    reveal_strlit("jpeg");
    reveal_strlit("webp");
    reveal_strlit("gif");
    let t = supported_table();
    assert(t.len() == 18);
    assert(t[0].0 == "pdf"@ && t[0].3 == true);
    assert(t[1].0 == "docx"@ && t[1].3 == true);
    assert(t[2].0 == "md"@ && t[2].3 == true);
    assert(t[3].0 == "markdown"@ && t[3].3 == true);
    assert(t[4].0 == "txt"@ && t[4].3 == true);
    assert(t[5].0 == "html"@ && t[5].3 == true);
    assert(t[6].0 == "htm"@ && t[6].3 == true);
    assert(t[7].0 == "pptx"@ && t[7].3 == true);
    assert(t[8].0 == "xlsx"@ && t[8].3 == true);
    assert(t[9].0 == "xls"@ && t[9].3 == true);
    assert(t[10].0 == "csv"@ && t[10].3 == true);
    assert(t[11].0 == "json"@ && t[11].3 == true);
    assert(t[12].0 == "xml"@ && t[12].3 == true);
    assert(t[13].0 == "png"@ && t[13].3 == false);
    assert(t[14].0 == "jpg"@ && t[14].3 == false);
    assert(t[15].0 == "jpeg"@ && t[15].3 == false);
    assert(t[16].0 == "webp"@ && t[16].3 == false);
    assert(t[17].0 == "gif"@ && t[17].3 == false);
    assert forall|i: int, j: int| 0 <= i < 13 && 13 <= j < 18 implies #[trigger] t[i].0 != #[trigger] t[j].0 by {
        if t[i].0 == t[j].0 {
            assert(t[i].0.len() == t[j].0.len());
            assert(t[i].0[0] == t[j].0[0]);
            assert(t[i].0[1] == t[j].0[1]);
        }
    }
    assert forall|i: int| 0 <= i < 18 implies (#[trigger] t[i]).3 == (i < 13) by {}
}

/// The view of a supported file type.
pub open spec fn type_view(t: SupportedFileType) -> (Seq<char>, Seq<char>, Seq<char>, bool) {
    (t.extension@, t.mime_type@, t.description@, t.is_document)
}

fn file_type(extension: &str, mime_type: &str, description: &str, is_document: bool) -> (t: SupportedFileType)
    ensures
        type_view(t) == (extension@, mime_type@, description@, is_document),
{
    SupportedFileType {
        extension: String::from_str(extension),
        mime_type: String::from_str(mime_type),
        description: String::from_str(description),
        is_document,
    }
}

/// Whether the lower-cased extension is listed, with the document flag
/// chosen by `pred`: 0 any type, 1 documents, 2 assets.
pub open spec fn listed(ext: Seq<char>, kind: int) -> bool {
    exists|i: int|
        0 <= i < supported_table().len() && #[trigger] supported_table()[i].0 == lowercase(ext) && (
        kind == 0 || (kind == 1 && supported_table()[i].3) || (kind == 2 && !supported_table()[i].3))
}

fn str_eq(a: &String, b: &String) -> (r: bool)
    ensures
        r == (a@ == b@),
{
    let x = chars_of(a.as_str());
    let y = chars_of(b.as_str());
    if x.len() != y.len() {
        return false;
    }
    let mut k: usize = 0;
    while k < x.len()
        invariant
            x@ == a@,
            y@ == b@,
            x.len() == y.len(),
            k <= x.len(),
            forall|m: int| 0 <= m < k ==> x@[m] == y@[m],
        decreases x.len() - k,
    {
        if x[k] != y[k] {
            assert(x@[k as int] != y@[k as int]);
            return false;
        }
        k = k + 1;
    }
    assert(x@ =~= y@);
    true
}

impl DocumentProcessor {
    /// The list of supported file types.
    pub fn get_supported_types() -> (v: Vec<SupportedFileType>)
        ensures
            v@.map_values(|t: SupportedFileType| type_view(t)) == supported_table(),
    {
        let mut v: Vec<SupportedFileType> = Vec::new();
        v.push(file_type("pdf", "application/pdf", "PDF 文档", true));
        v.push(file_type("docx", "application/vnd.openxmlformats-officedocument.wordprocessingml.document", "Word 文档", true));
        v.push(file_type("md", "text/markdown", "Markdown 文档", true));
        v.push(file_type("markdown", "text/markdown", "Markdown 文档", true));
        v.push(file_type("txt", "text/plain", "纯文本文件", true));
        v.push(file_type("html", "text/html", "HTML 文档", true));
        v.push(file_type("htm", "text/html", "HTML 文档", true));
        v.push(file_type("pptx", "application/vnd.openxmlformats-officedocument.presentationml.presentation", "PowerPoint 演示文稿", true));
        v.push(file_type("xlsx", "application/vnd.openxmlformats-officedocument.spreadsheetml.sheet", "Excel 电子表格", true));
        v.push(file_type("xls", "application/vnd.ms-excel", "Excel 电子表格 (旧版)", true));
        v.push(file_type("csv", "text/csv", "CSV 表格", true));
        v.push(file_type("json", "application/json", "JSON 数据", true));
        v.push(file_type("xml", "application/xml", "XML 数据", true));
        v.push(file_type("png", "image/png", "PNG 图片（仅保存为资产）", false));
        v.push(file_type("jpg", "image/jpeg", "JPG 图片（仅保存为资产）", false));
        v.push(file_type("jpeg", "image/jpeg", "JPEG 图片（仅保存为资产）", false));
        v.push(file_type("webp", "image/webp", "WebP 图片（仅保存为资产）", false));
        v.push(file_type("gif", "image/gif", "GIF 图片（仅保存为资产）", false));
        assert(v@.map_values(|t: SupportedFileType| type_view(t)) =~= supported_table());
        v
    }

    fn has_listed(extension: &str, kind: u8) -> (b: bool)
        requires
            kind <= 2,
        ensures
            b == listed(extension@, kind as int),
    {
        let ext = to_lowercase(extension);
        let types = Self::get_supported_types();
        let ghost table = supported_table();
        let mut i: usize = 0;
        while i < types.len()
            invariant
                i <= types.len(),
                types@.map_values(|t: SupportedFileType| type_view(t)) == table,
                table == supported_table(),
                ext@ == lowercase(extension@),
                forall|m: int|
                    0 <= m < i ==> !(#[trigger] table[m].0 == ext@ && (kind == 0 || (kind == 1
                        && table[m].3) || (kind == 2 && !table[m].3))),
            decreases types.len() - i,
        {
            assert(table[i as int] == type_view(types@[i as int]));
            let t = &types[i];
            if str_eq(&t.extension, &ext) && (kind == 0 || (kind == 1 && t.is_document) || (kind
                == 2 && !t.is_document)) {
                assert(table[i as int].0 == lowercase(extension@));
                return true;
            }
            i = i + 1;
        }
        false
    }

    /// Whether files with this extension (in any case) are accepted.
    pub fn is_supported(extension: &str) -> (b: bool)
        ensures
            b == listed(extension@, 0),
    {
        Self::has_listed(extension, 0)
    }

    /// Whether files with this extension are documents whose text is extracted.
    pub fn is_document_type(extension: &str) -> (b: bool)
        ensures
            b == listed(extension@, 1),
    {
        Self::has_listed(extension, 1)
    }

    /// Whether files with this extension are assets that are only kept.
    pub fn is_asset_type(extension: &str) -> (b: bool)
        ensures
            b == listed(extension@, 2),
    {
        Self::has_listed(extension, 2)
    }
}


// ---------------------------------------------------------------------------
// Parsing a document: which extractors run, and what the result holds
// ---------------------------------------------------------------------------

/// A text extractor of the library's own.
#[derive(Debug, Clone, Copy, PartialEq, Eq, Structural)]
pub enum Extractor {
    Pdf,
    Docx,
    Pptx,
    Markdown,
    PlainText,
    Html,
}

/// How a file type is parsed.
#[derive(Debug, Clone, Copy, PartialEq, Eq, Structural)]
pub enum ParseRoute {
    /// MarkItDown when it is installed and succeeds, else the extractor.
    Preferred(Extractor),
    /// MarkItDown alone; `table` tells whether it yields Markdown tables.
    MarkitdownOnly { table: bool },
    /// The extractor alone.
    Native(Extractor),
    /// An unknown type: MarkItDown is the last resort.
    Fallback,
}

/// The route of a file type, the type recorded in the result, and the label
/// under which the format is named in warnings and errors.
#[derive(Debug, Clone)]
pub struct ParsePlan {
    pub route: ParseRoute,
    pub file_type: String,
    pub label: String,
}

/// What came of asking MarkItDown to convert the file.
#[derive(Debug, Clone)]
pub enum ConversionOutcome {
    /// MarkItDown is not installed, or the route does not use it.
    Unavailable,
    Converted(String),
    Failed(String),
}

/// The route, recorded type and label for a lower-cased file type.
pub open spec fn plan_for(ext: Seq<char>) -> (ParseRoute, Seq<char>, Seq<char>) {
    if ext == "pdf"@ {
        (ParseRoute::Preferred(Extractor::Pdf), "pdf"@, "PDF"@)
    } else if ext == "docx"@ {
        (ParseRoute::Preferred(Extractor::Docx), "docx"@, "DOCX"@)
    } else if ext == "pptx"@ {
        (ParseRoute::Preferred(Extractor::Pptx), "pptx"@, "PPTX"@)
    } else if ext == "xlsx"@ || ext == "xls"@ {
        (ParseRoute::MarkitdownOnly { table: true }, "xlsx"@, "Excel"@)
    } else if ext == "csv"@ {
        (ParseRoute::MarkitdownOnly { table: true }, "csv"@, "CSV"@)
    } else if ext == "json"@ {
        (ParseRoute::MarkitdownOnly { table: false }, "json"@, "JSON"@)
    } else if ext == "xml"@ {
        (ParseRoute::MarkitdownOnly { table: false }, "xml"@, "XML"@)
    } else if ext == "md"@ || ext == "markdown"@ {
        (ParseRoute::Native(Extractor::Markdown), "md"@, "md"@)
    } else if ext == "txt"@ {
        (ParseRoute::Native(Extractor::PlainText), "txt"@, "txt"@)
    } else if ext == "html"@ || ext == "htm"@ {
        (ParseRoute::Native(Extractor::Html), "html"@, "html"@)
    } else {
        (ParseRoute::Fallback, ext, ext)
    }
}

/// The view of a plan.
pub open spec fn plan_view(p: ParsePlan) -> (ParseRoute, Seq<char>, Seq<char>) {
    (p.route, p.file_type@, p.label@)
}

/// Whether the route asks MarkItDown first.
pub open spec fn consults_markitdown(route: ParseRoute) -> bool {
    !(route is Native)
}

/// Whether the library's own extractor has to run, given what MarkItDown did.
pub open spec fn native_needed(route: ParseRoute, outcome: ConversionOutcome) -> bool {
    match route {
        ParseRoute::Native(_) => true,
        ParseRoute::Preferred(_) => !(outcome is Converted),
        _ => false,
    }
}

/// The text, page count and warnings that the extractors produced, or the
/// error that ended the parse (before the checks on the text).
pub open spec fn extracted(
    label: Seq<char>,
    route: ParseRoute,
    outcome: ConversionOutcome,
    native: Option<Result<(Seq<char>, Seq<Seq<char>>), Seq<char>>>,
) -> Result<(Seq<char>, Seq<Seq<char>>), Seq<char>> {
    match route {
        ParseRoute::Preferred(_) => match outcome {
            ConversionOutcome::Converted(t) => Ok((t@, seq![label + " 通过 MarkItDown 转换"@])),
            ConversionOutcome::Failed(e) => match native {
                Some(Ok((t, w))) => Ok(
                    (
                        t,
                        seq!["MarkItDown "@ + label + " 转换失败 ("@ + e@ + "), 回退到内置解析"@] + w,
                    ),
                ),
                Some(Err(e2)) => Err(e2),
                None => Err(Seq::empty()),
            },
            ConversionOutcome::Unavailable => match native {
                Some(Ok((t, w))) => Ok((t, w)),
                Some(Err(e2)) => Err(e2),
                None => Err(Seq::empty()),
            },
        },
        ParseRoute::MarkitdownOnly { table } => match outcome {
            ConversionOutcome::Converted(t) => Ok(
                (
                    t@,
                    seq![
                        label + (if table {
                            " 通过 MarkItDown 转换为 Markdown 表格"@
                        } else {
                            " 通过 MarkItDown 转换"@
                        }),
                    ],
                ),
            ),
            ConversionOutcome::Failed(e) => Err(e@),
            ConversionOutcome::Unavailable => Err(
                label + " 文件需要安装 MarkItDown 才能解析: pip install markitdown"@,
            ),
        },
        ParseRoute::Native(_) => match native {
            Some(Ok((t, w))) => Ok((t, w)),
            Some(Err(e2)) => Err(e2),
            None => Err(Seq::empty()),
        },
        ParseRoute::Fallback => match outcome {
            ConversionOutcome::Converted(t) => Ok(
                (t@, seq!["通过 MarkItDown 转换 (."@ + label + ")"@]),
            ),
            ConversionOutcome::Failed(e) => Err(
                "不支持的文件类型 ."@ + label + " 且 MarkItDown 也无法处理: "@ + e@,
            ),
            ConversionOutcome::Unavailable => Err(
                "不支持的文件类型: ."@ + label
                    + "（安装 MarkItDown 可扩展支持更多格式: pip install markitdown）"@,
            ),
        },
    }
}

/// The warning added for a text longer than 100 000 bytes.
pub open spec fn long_text_warning(n: nat) -> Seq<char> {
    "文档文本较长（"@ + crate::text::decimal(n) + " 字符），可能超出模型上下文限制，建议分段处理。"@
}

/// The error for a document without text.
pub open spec fn empty_text_error() -> Seq<char> {
    "提取的文本内容为空。可能该文件不包含可提取的文本。"@
}

/// The view of a parse result: name, type, text, recorded length, page
/// count and warnings.
pub open spec fn result_view(r: DocumentParseResult) -> (
    Seq<char>,
    Seq<char>,
    Seq<char>,
    nat,
    Option<usize>,
    Seq<Seq<char>>,
) {
    (
        r.file_name@,
        r.file_type@,
        r.text@,
        r.text_length as nat,
        r.page_count,
        warnings_view(r.warnings@),
    )
}

/// The view of what the library's own extractor returned.
pub open spec fn native_spec(native: Option<Result<(String, Vec<String>), String>>) -> Option<
    Result<(Seq<char>, Seq<Seq<char>>), Seq<char>>,
> {
    match native {
        Some(Ok((t, w))) => Some(Ok((t@, warnings_view(w@)))),
        Some(Err(e)) => Some(Err(e@)),
        None => None,
    }
}

fn lit_eq(cs: &Vec<char>, lit: &str) -> (b: bool)
    ensures
        b == (cs@ == lit@),
{
    let l = chars_of(lit);
    crate::gateway::seq_eq(cs, &l)
}

impl DocumentProcessor {
    /// How a file of type `file_type` (in any case) is parsed.
    pub fn parse_plan(file_type: &str) -> (p: ParsePlan)
        ensures
            plan_view(p) == plan_for(lowercase(file_type@)),
    {
        let ext = to_lowercase(file_type);
        let cs = chars_of(ext.as_str());
        let (route, ty, label): (ParseRoute, &str, &str) = if lit_eq(&cs, "pdf") {
            (ParseRoute::Preferred(Extractor::Pdf), "pdf", "PDF")
        } else if lit_eq(&cs, "docx") {
            (ParseRoute::Preferred(Extractor::Docx), "docx", "DOCX")
        } else if lit_eq(&cs, "pptx") {
            (ParseRoute::Preferred(Extractor::Pptx), "pptx", "PPTX")
        } else if lit_eq(&cs, "xlsx") || lit_eq(&cs, "xls") {
            (ParseRoute::MarkitdownOnly { table: true }, "xlsx", "Excel")
        } else if lit_eq(&cs, "csv") {
            (ParseRoute::MarkitdownOnly { table: true }, "csv", "CSV")
        } else if lit_eq(&cs, "json") {
            (ParseRoute::MarkitdownOnly { table: false }, "json", "JSON")
        } else if lit_eq(&cs, "xml") {
            (ParseRoute::MarkitdownOnly { table: false }, "xml", "XML")
        } else if lit_eq(&cs, "md") || lit_eq(&cs, "markdown") {
            (ParseRoute::Native(Extractor::Markdown), "md", "md")
        } else if lit_eq(&cs, "txt") {
            (ParseRoute::Native(Extractor::PlainText), "txt", "txt")
        } else if lit_eq(&cs, "html") || lit_eq(&cs, "htm") {
            (ParseRoute::Native(Extractor::Html), "html", "html")
        } else {
            return ParsePlan { route: ParseRoute::Fallback, file_type: ext.clone(), label: ext };
        };
        ParsePlan { route, file_type: String::from_str(ty), label: String::from_str(label) }
    }

    /// Whether MarkItDown is to be asked first for this plan.
    pub fn consults_markitdown(plan: &ParsePlan) -> (b: bool)
        ensures
            b == consults_markitdown(plan.route),
    {
        !matches!(plan.route, ParseRoute::Native(_))
    }

    /// Whether the library's own extractor has to run for this plan, given
    /// what MarkItDown did.
    pub fn needs_native(plan: &ParsePlan, outcome: &ConversionOutcome) -> (b: bool)
        ensures
            b == native_needed(plan.route, *outcome),
    {
        match plan.route {
            ParseRoute::Native(_) => true,
            ParseRoute::Preferred(_) => !matches!(outcome, ConversionOutcome::Converted(_)),
            _ => false,
        }
    }
}


/// The strings of a vector of warnings.
pub open spec fn warnings_view(w: Seq<String>) -> Seq<Seq<char>> {
    w.map_values(|x: String| x@)
}

fn one_warning(m: String) -> (w: Vec<String>)
    ensures
        warnings_view(w@) == seq![m@],
{
    let mut w: Vec<String> = Vec::new();
    w.push(m);
    assert(warnings_view(w@) =~= seq![m@]);
    w
}

fn concat2(a: &str, b: &str) -> (m: String)
    ensures
        m@ == a@ + b@,
{
    let mut m = String::new();
    push_str(&mut m, a);
    push_str(&mut m, b);
    m
}

fn concat3(a: &str, b: &str, c: &str) -> (m: String)
    ensures
        m@ == a@ + b@ + c@,
{
    let mut m = concat2(a, b);
    push_str(&mut m, c);
    m
}

impl DocumentProcessor {
    /// The text and warnings of a parse, from the plan, what MarkItDown did
    /// and what the library's own extractor returned (`native`, present
    /// exactly when `needs_native` asks for it).
    fn extract(plan: &ParsePlan, outcome: ConversionOutcome, native: Option<
        Result<(String, Vec<String>), String>,
    >) -> (r: Result<(String, Vec<String>), String>)
        requires
            native is Some <==> native_needed(plan.route, outcome),
        ensures
            match (r, extracted(plan.label@, plan.route, outcome, native_spec(native))) {
                (Ok((t, w)), Ok((t2, w2))) => t@ == t2 && warnings_view(w@) == w2,
                (Err(e), Err(e2)) => e@ == e2,
                _ => false,
            },
    {
        let label = plan.label.as_str();
        match plan.route {
            ParseRoute::Preferred(_) => match outcome {
                ConversionOutcome::Converted(t) => {
                    Ok((t, one_warning(concat2(label, " 通过 MarkItDown 转换"))))
                },
                ConversionOutcome::Failed(e) => match native {
                    Some(Ok((t, w))) => {
                        let mut m = concat3("MarkItDown ", label, " 转换失败 (");
                        push_str(&mut m, e.as_str());
                        push_str(&mut m, "), 回退到内置解析");
                        let mut all = one_warning(m);
                        let mut rest = w;
                        let ghost head = all@;
                        let ghost tail = rest@;
                        all.append(&mut rest);
                        assert(warnings_view(all@) =~= warnings_view(head) + warnings_view(tail));
                        Ok((t, all))
                    },
                    Some(Err(e2)) => Err(e2),
                    None => Err(String::new()),
                },
                ConversionOutcome::Unavailable => match native {
                    Some(Ok((t, w))) => Ok((t, w)),
                    Some(Err(e2)) => Err(e2),
                    None => Err(String::new()),
                },
            },
            ParseRoute::MarkitdownOnly { table } => match outcome {
                ConversionOutcome::Converted(t) => {
                    let m = if table {
                        concat2(label, " 通过 MarkItDown 转换为 Markdown 表格")
                    } else {
                        concat2(label, " 通过 MarkItDown 转换")
                    };
                    Ok((t, one_warning(m)))
                },
                ConversionOutcome::Failed(e) => Err(e),
                ConversionOutcome::Unavailable => Err(
                    concat2(label, " 文件需要安装 MarkItDown 才能解析: pip install markitdown"),
                ),
            },
            ParseRoute::Native(_) => match native {
                Some(Ok((t, w))) => Ok((t, w)),
                Some(Err(e2)) => Err(e2),
                None => Err(String::new()),
            },
            ParseRoute::Fallback => match outcome {
                ConversionOutcome::Converted(t) => {
                    Ok((t, one_warning(concat3("通过 MarkItDown 转换 (.", label, ")"))))
                },
                ConversionOutcome::Failed(e) => {
                    let mut m = concat3("不支持的文件类型 .", label, " 且 MarkItDown 也无法处理: ");
                    push_str(&mut m, e.as_str());
                    Err(m)
                },
                ConversionOutcome::Unavailable => Err(
                    concat3(
                        "不支持的文件类型: .",
                        label,
                        "（安装 MarkItDown 可扩展支持更多格式: pip install markitdown）",
                    ),
                ),
            },
        }
    }
}

/// What `parse_document` returns: the extracted text with its byte length,
/// a warning added past 100 000 bytes, and an error for an empty text; the
/// page count is kept for PDF files only.
pub open spec fn parsed(
    file_name: Seq<char>,
    plan: ParsePlan,
    outcome: ConversionOutcome,
    native: Option<Result<(Seq<char>, Seq<Seq<char>>), Seq<char>>>,
    page_count: Option<usize>,
) -> Result<(Seq<char>, Seq<char>, Seq<char>, nat, Option<usize>, Seq<Seq<char>>), Seq<char>> {
    match extracted(plan.label@, plan.route, outcome, native) {
        Err(e) => Err(e),
        Ok((t, w)) => {
            let n = byte_len(t);
            if n == 0 {
                Err(empty_text_error())
            } else {
                Ok(
                    (
                        file_name,
                        plan.file_type@,
                        t,
                        n,
                        if plan.route == ParseRoute::Preferred(Extractor::Pdf) {
                            page_count
                        } else {
                            None
                        },
                        if n > 100000 {
                            w.push(long_text_warning(n))
                        } else {
                            w
                        },
                    ),
                )
            }
        },
    }
}

/// The start of the long-text warning.
pub open spec fn long_text_prefix() -> Seq<char> {
    "文档文本较长"@
}

/// Whether some warning is a long-text warning.
pub open spec fn has_long_text_warning(w: Seq<Seq<char>>) -> bool {
    exists|i: int| 0 <= i < w.len() && crate::text::starts_with(#[trigger] w[i], long_text_prefix())
}

/// Law: a parsed document keeps the file name it was given; its text
/// length is the UTF-8 length of its text and is positive; its type is the
/// type its plan records, which is one of the known types or the lower-cased
/// type asked for; only a PDF has a page count; and a text longer than
/// 100000 bytes ends its warnings with the long-text warning, while a
/// shorter one keeps the extractor's warnings. So, where the extractor gave
/// no long-text warning of its own, the document carries one exactly when
/// its text is longer than 100000 bytes.
pub proof fn parsed_document_facts(
    file_name: Seq<char>,
    file_type: Seq<char>,
    plan: ParsePlan,
    outcome: ConversionOutcome,
    native: Option<Result<(Seq<char>, Seq<Seq<char>>), Seq<char>>>,
    page_count: Option<usize>,
)
    requires
        plan_view(plan) == plan_for(lowercase(file_type)),
    ensures
        parsed(file_name, plan, outcome, native, page_count) matches Ok(v) ==> {
            &&& v.0 == file_name
            &&& v.3 == byte_len(v.2) && v.3 > 0
            &&& v.1 == plan.file_type@
            &&& (v.1 == "pdf"@ || v.1 == "docx"@ || v.1 == "pptx"@ || v.1 == "xlsx"@ || v.1 == "csv"@
                || v.1 == "json"@ || v.1 == "xml"@ || v.1 == "md"@ || v.1 == "txt"@ || v.1 == "html"@ || v.1
                == lowercase(file_type))
            &&& (v.4 is Some ==> plan.route == ParseRoute::Preferred(Extractor::Pdf))
            &&& (v.3 > 100000 ==> v.5.len() > 0 && v.5.last() == long_text_warning(v.3))
            &&& (v.3 <= 100000 ==> (match extracted(plan.label@, plan.route, outcome, native) {
                Ok((_, w)) => v.5 == w,
                Err(_) => false,
            }))
            &&& (match extracted(plan.label@, plan.route, outcome, native) {
                Ok((_, w)) => !has_long_text_warning(w) ==> (v.3 > 100000 <==> has_long_text_warning(v.5)),
                Err(_) => false,
            })
        },
{
    reveal_strlit("文档文本较长");
    reveal_strlit("文档文本较长（");
    match extracted(plan.label@, plan.route, outcome, native) {
        Ok((t, w)) => {
            let n = byte_len(t);
            if n > 100000 {
                let lw = long_text_warning(n);
                assert(lw.take(6) =~= long_text_prefix());
                assert(w.push(lw)[w.len() as int] == lw);
                assert(crate::text::starts_with(w.push(lw)[w.len() as int], long_text_prefix()));
            }
        },
        Err(_) => {},
    }
}

impl DocumentProcessor {
    /// Parses a document from the results of the outside steps: `plan` from
    /// `parse_plan`, `outcome` from MarkItDown (when `consults_markitdown`),
    /// `native` from the library's own extractor (when `needs_native`) and
    /// `page_count` from the PDF reader.
    pub fn parse_document(
        file_name: String,
        plan: &ParsePlan,
        outcome: ConversionOutcome,
        native: Option<Result<(String, Vec<String>), String>>,
        page_count: Option<usize>,
    ) -> (r: Result<DocumentParseResult, String>)
        requires
            native is Some <==> native_needed(plan.route, outcome),
        ensures
            match (r, parsed(file_name@, *plan, outcome, native_spec(native), page_count)) {
                (Ok(res), Ok(v)) => result_view(res) == v,
                (Err(e), Err(e2)) => e@ == e2,
                _ => false,
            },
    {
        let pdf = plan.route == ParseRoute::Preferred(Extractor::Pdf);
        match Self::extract(plan, outcome, native) {
            Err(e) => Err(e),
            Ok((text, warnings)) => {
                let n = text.as_str().as_bytes().len();
                if n == 0 {
                    return Err(String::from_str("提取的文本内容为空。可能该文件不包含可提取的文本。"));
                }
                let mut warnings = warnings;
                let ghost w0 = warnings_view(warnings@);
                if n > 100000 {
                    let mut m = String::from_str("文档文本较长（");
                    push_decimal(&mut m, n as u64);
                    push_str(&mut m, " 字符），可能超出模型上下文限制，建议分段处理。");
                    warnings.push(m);
                    assert(warnings_view(warnings@) =~= w0.push(long_text_warning(n as nat)));
                }
                let res = DocumentParseResult {
                    file_name,
                    file_type: plan.file_type.clone(),
                    text,
                    text_length: n,
                    page_count: if pdf {
                        page_count
                    } else {
                        None
                    },
                    warnings,
                };
                Ok(res)
            },
        }
    }
}

// ---------------------------------------------------------------------------
// File extensions
// ---------------------------------------------------------------------------

/// The last index of `c` in `s`, if any.
pub open spec fn last_index_of(s: Seq<char>, c: char) -> Option<int>
    decreases s.len(),
{
    if s.len() == 0 {
        None
    } else if s.last() == c {
        Some(s.len() - 1)
    } else {
        last_index_of(s.drop_last(), c)
    }
}

/// The last component of a POSIX path that is neither empty nor `.`
/// (components are separated by `/`).
pub open spec fn last_segment(p: Seq<char>) -> Option<Seq<char>>
    decreases p.len(),
{
    let k = match last_index_of(p, '/') {
        Some(i) => i,
        None => -1,
    };
    let seg = p.subrange(k + 1, p.len() as int);
    if seg.len() == 0 || seg == seq!['.'] {
        if k < 0 || p.len() == 0 {
            None
        } else {
            proof {
                lemma_last_index_of(p, '/');
            }
            last_segment(p.take(k))
        }
    } else {
        Some(seg)
    }
}

/// `Path::file_name`: the last component, unless it is `..`.
pub open spec fn path_file_name(p: Seq<char>) -> Option<Seq<char>> {
    match last_segment(p) {
        Some(s) => if s == seq!['.', '.'] {
            None
        } else {
            Some(s)
        },
        None => None,
    }
}

/// `Path::extension` of a file name: what follows its last `.`, unless that
/// `.` is the first character or there is none (then empty).
pub open spec fn name_extension(name: Seq<char>) -> Seq<char> {
    match last_index_of(name, '.') {
        Some(i) => if i == 0 {
            Seq::empty()
        } else {
            name.skip(i + 1)
        },
        None => Seq::empty(),
    }
}

/// What `get_extension` returns: the lower-cased extension of the file
/// name of the path, or an empty string.
pub open spec fn extension_of(path: Seq<char>) -> Seq<char> {
    match path_file_name(path) {
        Some(n) => if name_extension(n).len() == 0 {
            Seq::empty()
        } else {
            lowercase(name_extension(n))
        },
        None => Seq::empty(),
    }
}

pub proof fn lemma_last_index_of(s: Seq<char>, c: char)
    ensures
        match last_index_of(s, c) {
            Some(i) => 0 <= i < s.len() && s[i] == c && forall|j: int| i < j < s.len() ==> s[j] != c,
            None => forall|j: int| 0 <= j < s.len() ==> s[j] != c,
        },
    decreases s.len(),
{
    if s.len() > 0 && s.last() != c {
        let t = s.drop_last();
        lemma_last_index_of(t, c);
        assert forall|j: int| 0 <= j < t.len() implies t[j] == s[j] by {}
        match last_index_of(t, c) {
            Some(i) => {
                assert forall|j: int| i < j < s.len() implies s[j] != c by {
                    if j < t.len() {
                        assert(t[j] == s[j]);
                    }
                }
            },
            None => {
                assert forall|j: int| 0 <= j < s.len() implies s[j] != c by {
                    if j < t.len() {
                        assert(t[j] == s[j]);
                    }
                }
            },
        }
    }
}

/// The last index of `c` in `cs[0..n]`.
pub(crate) fn last_index(cs: &Vec<char>, n: usize, c: char) -> (r: Option<usize>)
    requires
        n <= cs.len(),
    ensures
        match r {
            Some(i) => i < n && last_index_of(cs@.take(n as int), c) == Some(i as int),
            None => last_index_of(cs@.take(n as int), c) is None,
        },
{
    let mut j = n;
    while j > 0
        invariant
            j <= n <= cs.len(),
            last_index_of(cs@.take(n as int), c) == last_index_of(cs@.take(j as int), c),
        decreases j,
    {
        assert(cs@.take(j as int).drop_last() =~= cs@.take(j - 1));
        if cs[j - 1] == c {
            return Some(j - 1);
        }
        j = j - 1;
    }
    None
}

/// The bounds of `Path::file_name` within `cs`.
pub(crate) fn file_name_bounds(cs: &Vec<char>) -> (r: Option<(usize, usize)>)
    ensures
        match (r, path_file_name(cs@)) {
            (Some((a, b)), Some(n)) => a <= b <= cs.len() && cs@.subrange(a as int, b as int) == n,
            (None, None) => true,
            _ => false,
        },
{
    let mut end = cs.len();
    assert(cs@.take(end as int) =~= cs@);
    while end > 0
        invariant
            end <= cs.len(),
            last_segment(cs@) == last_segment(cs@.take(end as int)),
        decreases end,
    {
        let k = last_index(cs, end, '/');
        let start = match k {
            Some(i) => i + 1,
            None => 0,
        };
        proof {
            let p = cs@.take(end as int);
            assert(p.subrange(start as int, p.len() as int) =~= cs@.subrange(
                start as int,
                end as int,
            ));
            lemma_last_index_of(p, '/');
        }
        let is_dot = end - start == 1 && cs[start] == '.';
        if start < end && !is_dot {
            let ghost seg = cs@.subrange(start as int, end as int);
            proof {
                if seg == seq!['.'] {
                    assert(seg[0] == cs@[start as int]);
                }
                assert(last_segment(cs@) == Some(seg));
            }
            let dotdot = end - start == 2 && cs[start] == '.' && cs[start + 1] == '.';
            if dotdot {
                assert(seg =~= seq!['.', '.']);
                return None;
            } else {
                proof {
                    if seg == seq!['.', '.'] {
                        assert(seg[0] == cs@[start as int]);
                        assert(seg[1] == cs@[start + 1]);
                    }
                }
                return Some((start, end));
            }
        }
        proof {
            let seg = cs@.subrange(start as int, end as int);
            if end - start == 1 {
                assert(seg =~= seq!['.']);
            }
        }
        match k {
            Some(i) => {
                assert(cs@.take(end as int).take(i as int) =~= cs@.take(i as int));
                end = i;
            },
            None => {
                assert(last_segment(cs@.take(end as int)) is None);
                assert(cs@.take(0) =~= Seq::<char>::empty());
                end = 0;
            },
        }
    }
    assert(cs@.take(0) =~= Seq::<char>::empty());
    None
}

/// The size check of a file: its size when it is within `max_size_mb`
/// megabytes, else the message that gives both in whole megabytes.
pub open spec fn size_checked(size: u64, max_size_mb: u64) -> Result<u64, Seq<char>> {
    if size <= max_size_mb * 1048576 {
        Ok(size)
    } else {
        Err("文件大小 "@ + crate::text::decimal((size / 1048576) as nat) + " MB 超过限制 "@ + crate::text::decimal(
            max_size_mb as nat,
        ) + " MB"@)
    }
}

impl DocumentProcessor {
    /// Checks the size of a file against a limit in megabytes (see
    /// `size_checked`); the limit in bytes must fit in a `u64`, as the
    /// multiplication overflows otherwise.
    pub fn check_file_size(size: u64, max_size_mb: u64) -> (r: Result<u64, String>)
        requires
            max_size_mb * 1048576 <= u64::MAX,
        ensures
            match (r, size_checked(size, max_size_mb)) {
                (Ok(n), Ok(m)) => n == m,
                (Err(e), Err(m)) => e@ == m,
                _ => false,
            },
    {
        let max_bytes = max_size_mb * 1024 * 1024;
        if size > max_bytes {
            let mut m = String::from_str("文件大小 ");
            crate::text::push_decimal(&mut m, size / (1024 * 1024));
            crate::text::push_str(&mut m, " MB 超过限制 ");
            crate::text::push_decimal(&mut m, max_size_mb);
            crate::text::push_str(&mut m, " MB");
            return Err(m);
        }
        Ok(size)
    }

    /// The SHA-256 of a file's bytes, in lower-case hexadecimal.
    pub fn compute_file_hash(bytes: &[u8]) -> (h: String)
        ensures
            h@ == crate::sandbox::lower_hex(crate::sandbox::sha256(bytes@)),
    {
        crate::sandbox::sha256_hex(bytes)
    }

    /// The lower-cased extension of a file name or path (POSIX rules of
    /// `Path::extension`), or an empty string when it has none.
    pub fn get_extension(file_name: &str) -> (ext: String)
        ensures
            ext@ == extension_of(file_name@),
    {
        let cs = chars_of(file_name);
        match file_name_bounds(&cs) {
            None => String::new(),
            Some((a, b)) => {
                let name = crate::text::slice_vec(&cs, a, b);
                let dot = last_index(&name, name.len(), '.');
                assert(name@.take(name@.len() as int) =~= name@);
                match dot {
                    None => String::new(),
                    Some(i) => {
                        if i == 0 || i + 1 == name.len() {
                            proof {
                                lemma_last_index_of(name@, '.');
                                assert(name@.skip(i + 1).len() == 0 || i == 0);
                            }
                            String::new()
                        } else {
                            let e = string_of_range(&name, i + 1, name.len());
                            assert(e@ =~= name@.skip(i + 1));
                            to_lowercase(e.as_str())
                        }
                    },
                }
            },
        }
    }
}

} // verus!
