//! Markdown previews of imported source documents: how plain text, HTML text
//! and text extracted from office documents are laid out as Markdown.
use vstd::prelude::*;
use crate::text::{chars_of, push_str, push_range, trim, trim_bounds, lines, lines_of, vviews,
    byte_len, byte_len_le, decimal, push_decimal, uppercase, to_uppercase};

verus! {

/// The Markdown preview of one imported source.
#[derive(Debug, Clone)]
pub struct SourcePreviewResult {
    pub source_id: String,
    pub preview_path: String,
    pub preview_status: String,
    pub content: String,
    pub file_type: String,
}

/// Builds and stores the Markdown previews of imported sources.
pub struct SourcePreviewService;

/// `char::is_ascii_alphanumeric`.
pub open spec fn is_ascii_alnum(c: char) -> bool {
    ('0' <= c && c <= '9') || ('A' <= c && c <= 'Z') || ('a' <= c && c <= 'z')
}

/// `char::is_ascii_whitespace`: space, tab, line feed, form feed, carriage
/// return.
pub open spec fn is_ascii_ws(c: char) -> bool {
    c == ' ' || c == '\t' || c == '\n' || c == '\u{c}' || c == '\r'
}

/// A line of a small text file in the preview: an empty line stays a line
/// break; a long line (over 80 characters) of only ASCII letters, digits and
/// whitespace becomes a paragraph of its own; any other line is kept as a
/// line. (For a line of ASCII characters, characters and bytes coincide.)
pub open spec fn txt_line(t: Seq<char>) -> Seq<char> {
    if t.len() == 0 {
        seq!['\n']
    } else if t.len() > 80 && forall|i: int|
        0 <= i < t.len() ==> is_ascii_alnum(#[trigger] t[i]) || is_ascii_ws(t[i]) {
        t + seq!['\n', '\n']
    } else {
        t + seq!['\n']
    }
}

/// The preview lines of the trimmed lines `ls`, in order.
pub open spec fn txt_lines(ls: Seq<Seq<char>>) -> Seq<char>
    decreases ls.len(),
{
    if ls.len() == 0 {
        seq![]
    } else {
        txt_lines(ls.drop_last()) + txt_line(trim(ls.last()))
    }
}

/// `# {file_name}` and a blank line.
pub open spec fn title_block(file_name: Seq<char>) -> Seq<char> {
    seq!['#', ' '] + file_name + seq!['\n', '\n']
}

/// The preview of a plain-text file: a title, then the trimmed lines of a
/// file of at most 100 lines, or the whole text in a code fence for a longer
/// one; an empty file is reported as such.
pub open spec fn txt_markdown(raw: Seq<char>, file_name: Seq<char>) -> Seq<char> {
    if raw.len() == 0 {
        title_block(file_name) + "*文件内容为空*\n"@
    } else if lines(raw).len() <= 100 {
        title_block(file_name) + txt_lines(lines(raw))
    } else {
        title_block(file_name) + "```\n"@ + raw + "\n```\n"@
    }
}

/// A non-empty trimmed line of extracted text in the preview: a short line
/// (at most 60 UTF-8 bytes) without a period that does not start with `-`
/// or `*` is taken for a heading; any other line is a paragraph.
pub open spec fn plain_block(t: Seq<char>) -> Seq<char> {
    if byte_len(t) <= 60 && !t.contains('.') && t[0] != '-' && t[0] != '*' {
        seq!['#', '#', ' '] + t + seq!['\n', '\n']
    } else {
        t + seq!['\n', '\n']
    }
}

/// The Markdown of the lines `ls`; `prev_empty` tells whether the line
/// before them was blank. A run of blank lines becomes one line break.
pub open spec fn plain_lines(ls: Seq<Seq<char>>, prev_empty: bool) -> Seq<char>
    decreases ls.len(),
{
    if ls.len() == 0 {
        seq![]
    } else {
        let t = trim(ls[0]);
        if t.len() == 0 {
            (if prev_empty {
                Seq::<char>::empty()
            } else {
                seq!['\n']
            }) + plain_lines(ls.drop_first(), true)
        } else {
            plain_block(t) + plain_lines(ls.drop_first(), false)
        }
    }
}

/// The Markdown that keeps the paragraph structure of extracted text.
pub open spec fn plain_markdown(text: Seq<char>) -> Seq<char> {
    plain_lines(lines(text), false)
}

/// Whether every character of `cs[lo..hi]` is an ASCII letter, digit or
/// whitespace.
fn all_ascii_alnum_ws(cs: &Vec<char>, lo: usize, hi: usize) -> (b: bool)
    requires
        lo <= hi <= cs.len(),
    ensures
        b == forall|i: int|
            0 <= i < hi - lo ==> is_ascii_alnum(#[trigger] cs@.subrange(lo as int, hi as int)[i])
                || is_ascii_ws(cs@.subrange(lo as int, hi as int)[i]),
{
    let ghost t = cs@.subrange(lo as int, hi as int);
    let mut i = lo;
    while i < hi
        invariant
            lo <= i <= hi <= cs.len(),
            t == cs@.subrange(lo as int, hi as int),
            forall|k: int| 0 <= k < i - lo ==> is_ascii_alnum(#[trigger] t[k]) || is_ascii_ws(t[k]),
        decreases hi - i,
    {
        let c = cs[i];
        let ok = ('0' <= c && c <= '9') || ('A' <= c && c <= 'Z') || ('a' <= c && c <= 'z') || c
            == ' ' || c == '\t' || c == '\n' || c == '\u{c}' || c == '\r';
        if !ok {
            assert(t[i - lo] == c);
            return false;
        }
        i = i + 1;
    }
    true
}

/// Whether `c` occurs in `cs[lo..hi]`.
fn has_char(cs: &Vec<char>, lo: usize, hi: usize, c: char) -> (b: bool)
    requires
        lo <= hi <= cs.len(),
    ensures
        b == cs@.subrange(lo as int, hi as int).contains(c),
{
    let ghost t = cs@.subrange(lo as int, hi as int);
    let mut i = lo;
    while i < hi
        invariant
            lo <= i <= hi <= cs.len(),
            t == cs@.subrange(lo as int, hi as int),
            forall|k: int| 0 <= k < i - lo ==> t[k] != c,
        decreases hi - i,
    {
        if cs[i] == c {
            assert(t[i - lo] == c);
            return true;
        }
        i = i + 1;
    }
    false
}

/// Appends `# {file_name}` and a blank line.
fn push_title(out: &mut String, file_name: &str)
    ensures
        final(out)@ == old(out)@ + title_block(file_name@),
{
    out.push('#');
    out.push(' ');
    push_str(out, file_name);
    out.push('\n');
    out.push('\n');
    assert(final(out)@ =~= old(out)@ + title_block(file_name@));
}

impl SourcePreviewService {
    /// The Markdown preview of a plain-text file named `file_name`.
    pub fn txt_to_markdown(raw: &str, file_name: &str) -> (md: String)
        ensures
            md@ == txt_markdown(raw@, file_name@),
    {
        let cs = chars_of(raw);
        let mut md = String::new();
        push_title(&mut md, file_name);
        if cs.len() == 0 {
            push_str(&mut md, "*文件内容为空*\n");
            return md;
        }
        let ls = lines_of(&cs);
        if ls.len() <= 100 {
            let ghost head = md@;
            let mut i: usize = 0;
            assert(vviews(ls@).take(0) =~= Seq::<Seq<char>>::empty());
            while i < ls.len()
                invariant
                    i <= ls@.len(),
                    vviews(ls@) == lines(cs@),
                    md@ == head + txt_lines(vviews(ls@).take(i as int)),
                decreases ls.len() - i,
            {
                let line = &ls[i];
                let (lo, hi) = trim_bounds(line, 0, line.len());
                assert(line@.subrange(0, line@.len() as int) =~= line@);
                let ghost t = trim(vviews(ls@)[i as int]);
                assert(vviews(ls@)[i as int] == line@);
                assert(line@.subrange(lo as int, hi as int) == t);
                let ghost before = md@;
                if lo == hi {
                    md.push('\n');
                } else if hi - lo > 80 && all_ascii_alnum_ws(line, lo, hi) {
                    push_range(&mut md, line, lo, hi);
                    md.push('\n');
                    md.push('\n');
                } else {
                    push_range(&mut md, line, lo, hi);
                    md.push('\n');
                }
                assert(md@ =~= before + txt_line(t));
                assert(vviews(ls@).take(i + 1).drop_last() =~= vviews(ls@).take(i as int));
                i = i + 1;
            }
            assert(vviews(ls@).take(ls@.len() as int) =~= vviews(ls@));
        } else {
            push_str(&mut md, "```\n");
            push_str(&mut md, raw);
            push_str(&mut md, "\n```\n");
        }
        md
    }

    /// Basic Markdown for extracted text, keeping its paragraph structure.
    pub fn plain_text_to_markdown(text: &str) -> (md: String)
        ensures
            md@ == plain_markdown(text@),
    {
        let cs = chars_of(text);
        let ls = lines_of(&cs);
        let mut md = String::new();
        let mut prev_empty = false;
        let mut i: usize = 0;
        assert(vviews(ls@).skip(0) =~= vviews(ls@));
        while i < ls.len()
            invariant
                i <= ls@.len(),
                vviews(ls@) == lines(cs@),
                cs@ == text@,
                md@ + plain_lines(vviews(ls@).skip(i as int), prev_empty) == plain_markdown(text@),
            decreases ls.len() - i,
        {
            let line = &ls[i];
            let (lo, hi) = trim_bounds(line, 0, line.len());
            assert(line@.subrange(0, line@.len() as int) =~= line@);
            let ghost rest = vviews(ls@).skip(i as int);
            assert(rest[0] == line@);
            assert(rest.drop_first() =~= vviews(ls@).skip(i + 1));
            let ghost t = trim(line@);
            assert(line@.subrange(lo as int, hi as int) == t);
            let ghost before = md@;
            if lo == hi {
                if !prev_empty {
                    md.push('\n');
                }
                prev_empty = true;
            } else {
                prev_empty = false;
                let short = byte_len_le(line, lo, hi, 60);
                let heading = short && !has_char(line, lo, hi, '.') && line[lo] != '-' && line[lo]
                    != '*';
                assert(t[0] == line@[lo as int]);
                if heading {
                    md.push('#');
                    md.push('#');
                    md.push(' ');
                }
                push_range(&mut md, line, lo, hi);
                md.push('\n');
                md.push('\n');
                assert(md@ =~= before + plain_block(t));
            }
            i = i + 1;
        }
        assert(vviews(ls@).skip(ls@.len() as int) =~= Seq::<Seq<char>>::empty());
        md
    }

    /// The Markdown preview of an HTML file named `file_name`, given the text
    /// extracted from it or the reason the extraction failed.
    pub fn html_to_markdown(file_name: &str, extracted: Result<String, String>) -> (r: Result<
        String,
        String,
    >)
        ensures
            match (extracted, r) {
                (Ok(text), Ok(md)) => md@ == title_block(file_name@) + "> 此预览由 HTML 文档转换生成\n\n"@
                    + plain_markdown(text@),
                (Err(e), Err(e2)) => e2 == e,
                _ => false,
            },
    {
        match extracted {
            Ok(text) => {
                let mut md = String::new();
                push_title(&mut md, file_name);
                push_str(&mut md, "> 此预览由 HTML 文档转换生成\n\n");
                let body = Self::plain_text_to_markdown(text.as_str());
                push_str(&mut md, body.as_str());
                Ok(md)
            },
            Err(e) => Err(e),
        }
    }
}

// ---------------------------------------------------------------------------
// Previews by file type
// ---------------------------------------------------------------------------

/// How the preview of a source of a given type is made.
#[derive(Debug, Clone, Copy, PartialEq, Eq, Structural)]
pub enum PreviewRoute {
    /// The Markdown file itself.
    Markdown,
    PlainText,
    Html,
    Docx,
    Pdf,
    /// Other documents converted by MarkItDown.
    Office,
    /// An image or other asset: only described.
    Asset,
    Unsupported,
}

/// The route of a (lower-case) source type.
pub open spec fn route_of(file_type: Seq<char>) -> PreviewRoute {
    if file_type == "md"@ || file_type == "markdown"@ {
        PreviewRoute::Markdown
    } else if file_type == "txt"@ {
        PreviewRoute::PlainText
    } else if file_type == "html"@ || file_type == "htm"@ {
        PreviewRoute::Html
    } else if file_type == "docx"@ {
        PreviewRoute::Docx
    } else if file_type == "pdf"@ {
        PreviewRoute::Pdf
    } else if file_type == "pptx"@ || file_type == "xlsx"@ || file_type == "xls"@ || file_type
        == "csv"@ || file_type == "json"@ || file_type == "xml"@ {
        PreviewRoute::Office
    } else if crate::documents::listed(file_type, 2) {
        PreviewRoute::Asset
    } else {
        PreviewRoute::Unsupported
    }
}

/// The preview of a Word document.
pub open spec fn docx_markdown(file_name: Seq<char>, text: Seq<char>) -> Seq<char> {
    title_block(file_name) + "> 此预览由 DOCX 文档转换生成，不保证完整版式还原\n\n"@ + plain_markdown(text)
}

/// The preview of a document converted by MarkItDown.
pub open spec fn office_markdown(file_name: Seq<char>, upper: Seq<char>, text: Seq<char>) -> Seq<char> {
    seq!['#', ' '] + file_name + " ("@ + upper + ")\n\n"@ + "> 此预览由 "@ + upper
        + " 文件通过 MarkItDown 转换生成\n\n"@ + plain_markdown(text)
}

/// The lines of the warnings of a parse.
pub open spec fn pdf_warning_lines(ws: Seq<Seq<char>>) -> Seq<char>
    decreases ws.len(),
{
    if ws.len() == 0 {
        Seq::empty()
    } else {
        pdf_warning_lines(ws.drop_last()) + "> ⚠️ "@ + ws.last() + seq!['\n']
    }
}

/// The part of a PDF preview that shows the parse: page count, text
/// length, warnings and at most 8000 bytes of the text; or the failure.
pub open spec fn pdf_parse_part(parsed: Result<(Seq<char>, nat, Option<usize>, Seq<Seq<char>>), Seq<char>>) -> Seq<char> {
    match parsed {
        Ok((text, len, pages, warnings)) => (match pages {
            Some(pc) => "- **页数**: "@ + decimal(pc as nat) + seq!['\n'],
            None => Seq::empty(),
        }) + "- **提取文本**: "@ + decimal(len) + " 字符\n\n"@ + pdf_warning_lines(warnings) + (
        if warnings.len() > 0 {
            seq!['\n']
        } else {
            Seq::empty()
        }) + "## 文档文本预览\n\n"@ + crate::file_preview::document_text_shown(text) + (if byte_len(
            text,
        ) > 8000 {
            "\n\n*... 文本过长，已截断（完整长度 "@ + decimal(byte_len(text)) + " 字符）*"@
        } else {
            Seq::empty()
        }) + seq!['\n'],
        Err(e) => "> ⚠️ 文本提取失败: "@ + e + "\n\n"@,
    }
}

/// The preview of a PDF file: its size, the parse, the AI summary and the
/// coverage report when there are any, and a note when it was not analysed.
pub open spec fn pdf_markdown(
    file_name: Seq<char>,
    size: u64,
    parsed: Result<(Seq<char>, nat, Option<usize>, Seq<Seq<char>>), Seq<char>>,
    summary: Seq<char>,
    coverage: Seq<char>,
) -> Seq<char> {
    seq!['#', ' '] + file_name + " (PDF)\n\n"@ + "- **文件大小**: "@ + decimal(size as nat)
        + " 字节\n"@ + pdf_parse_part(parsed) + pdf_notes(summary, coverage)
}

/// The view of a parse result as the PDF preview uses it.
pub open spec fn parse_view(r: Result<crate::documents::DocumentParseResult, String>) -> Result<
    (Seq<char>, nat, Option<usize>, Seq<Seq<char>>),
    Seq<char>,
> {
    match r {
        Ok(d) => Ok(
            (d.text@, d.text_length as nat, d.page_count, crate::documents::warnings_view(d.warnings@)),
        ),
        Err(e) => Err(e@),
    }
}

/// A string or boolean value of a flat JSON object.
#[derive(Debug, Clone, PartialEq, Eq)]
pub enum JsonScalar {
    Text(String),
    Flag(bool),
}

/// A JSON scalar as a value: its text or its truth value.
pub enum ScalarView {
    Text(Seq<char>),
    Flag(bool),
}

pub open spec fn scalar_view(v: JsonScalar) -> ScalarView {
    match v {
        JsonScalar::Text(s) => ScalarView::Text(s@),
        JsonScalar::Flag(b) => ScalarView::Flag(b),
    }
}

/// The entries of a flat JSON object, each name with its value.
pub open spec fn entries_view(e: Seq<(String, JsonScalar)>) -> Seq<(Seq<char>, ScalarView)> {
    Seq::new(e.len(), |i: int| (e[i].0@, scalar_view(e[i].1)))
}

/// What `serde_json::to_string_pretty` writes for the JSON object made by
/// inserting these entries, in turn, into a `serde_json::Map` (a function of
/// the entries alone).
pub uninterp spec fn json_object_pretty(entries: Seq<(Seq<char>, ScalarView)>) -> Seq<char>;

/// Inserts each entry, in turn, into a `serde_json::Map` (a string as
/// `Value::String`, a boolean as `Value::Bool`) and calls
/// `serde_json::to_string_pretty` on the object; serialising such an object
/// cannot fail.
#[verifier::external_body]
fn json_object_text(entries: &Vec<(String, JsonScalar)>) -> (j: String)
    ensures
        j@ == json_object_pretty(entries_view(entries@)),
{
    let mut m = serde_json::Map::new();
    for (k, v) in entries.iter() {
        let value = match v {
            JsonScalar::Text(s) => serde_json::Value::String(s.clone()),
            JsonScalar::Flag(b) => serde_json::Value::Bool(*b),
        };
        m.insert(k.clone(), value);
    }
    serde_json::to_string_pretty(&serde_json::Value::Object(m)).unwrap_or_default()
}

/// The entries of the JSON description of an asset: its name and type, and
/// that it is an asset and only an asset.
pub open spec fn asset_entries(file_name: Seq<char>, file_type: Seq<char>) -> Seq<(Seq<char>, ScalarView)> {
    seq![
        ("file_name"@, ScalarView::Text(file_name)),
        ("file_type"@, ScalarView::Text(file_type)),
        ("is_asset"@, ScalarView::Flag(true)),
        ("asset_only"@, ScalarView::Flag(true)),
    ]
}

/// The entries of the JSON description of an asset.
pub fn asset_info_entries(file_name: &str, file_type: &str) -> (e: Vec<(String, JsonScalar)>)
    ensures
        entries_view(e@) == asset_entries(file_name@, file_type@),
{
    let mut e: Vec<(String, JsonScalar)> = Vec::new();
    e.push((String::from_str("file_name"), JsonScalar::Text(String::from_str(file_name))));
    e.push((String::from_str("file_type"), JsonScalar::Text(String::from_str(file_type))));
    e.push((String::from_str("is_asset"), JsonScalar::Flag(true)));
    e.push((String::from_str("asset_only"), JsonScalar::Flag(true)));
    proof {
        reveal_strlit("file_name");
        reveal_strlit("file_type");
        reveal_strlit("is_asset");
        reveal_strlit("asset_only");
    }
    assert(entries_view(e@) =~= asset_entries(file_name@, file_type@));
    e
}

/// The description of an asset, with the pretty-printed JSON object of its
/// name and type.
pub open spec fn asset_markdown(file_name: Seq<char>, file_type: Seq<char>) -> Seq<char> {
    seq!['#', ' '] + file_name + " (资产文件)\n\n> 此文件为资产文件（"@ + file_type
        + "），不进行 OCR、不进行图片理解、不参与 AI 知识抽取\n\n"@
        + json_object_pretty(asset_entries(file_name, file_type))
        + seq!['\n']
}

fn type_is(cs: &Vec<char>, lit: &str) -> (b: bool)
    ensures
        b == (cs@ == lit@),
{
    let l = chars_of(lit);
    crate::gateway::seq_eq(cs, &l)
}

impl SourcePreviewService {
    /// How the preview of a source of this (lower-case) type is made.
    pub fn preview_route(file_type: &str) -> (r: PreviewRoute)
        ensures
            r == route_of(file_type@),
    {
        let t = chars_of(file_type);
        if type_is(&t, "md") || type_is(&t, "markdown") {
            PreviewRoute::Markdown
        } else if type_is(&t, "txt") {
            PreviewRoute::PlainText
        } else if type_is(&t, "html") || type_is(&t, "htm") {
            PreviewRoute::Html
        } else if type_is(&t, "docx") {
            PreviewRoute::Docx
        } else if type_is(&t, "pdf") {
            PreviewRoute::Pdf
        } else if type_is(&t, "pptx") || type_is(&t, "xlsx") || type_is(&t, "xls") || type_is(&t, "csv")
            || type_is(&t, "json") || type_is(&t, "xml") {
            PreviewRoute::Office
        } else if crate::documents::DocumentProcessor::is_asset_type(file_type) {
            PreviewRoute::Asset
        } else {
            PreviewRoute::Unsupported
        }
    }

    /// The error for a source type without a preview.
    pub fn unsupported_type(file_type: &str) -> (e: String)
        ensures
            e@ == "不支持的文件类型: "@ + file_type@,
    {
        let mut e = String::from_str("不支持的文件类型: ");
        push_str(&mut e, file_type);
        e
    }

    /// The preview of a Word document, from its parse.
    pub fn docx_preview(file_name: &str, parsed: Result<crate::documents::DocumentParseResult, String>) -> (r: Result<String, String>)
        ensures
            match (parsed, r) {
                (Ok(d), Ok(md)) => md@ == docx_markdown(file_name@, d.text@),
                (Err(e), Err(e2)) => e2 == e,
                _ => false,
            },
    {
        match parsed {
            Ok(d) => {
                let mut md = String::new();
                push_title(&mut md, file_name);
                push_str(&mut md, "> 此预览由 DOCX 文档转换生成，不保证完整版式还原\n\n");
                let body = Self::plain_text_to_markdown(d.text.as_str());
                push_str(&mut md, body.as_str());
                Ok(md)
            },
            Err(e) => Err(e),
        }
    }

    /// The preview of a document converted by MarkItDown, from its parse;
    /// a failed parse is reported with the type in upper case.
    pub fn office_preview(file_name: &str, file_type: &str, parsed: Result<crate::documents::DocumentParseResult, String>) -> (r: Result<String, String>)
        ensures
            match (parsed, r) {
                (Ok(d), Ok(md)) => md@ == office_markdown(file_name@, uppercase(file_type@), d.text@),
                (Err(e), Err(e2)) => e2@ == uppercase(file_type@) + " 文件解析失败: "@ + e@,
                _ => false,
            },
    {
        let upper = to_uppercase(file_type);
        match parsed {
            Ok(d) => {
                let mut md = String::from_str("# ");
                push_str(&mut md, file_name);
                push_str(&mut md, " (");
                push_str(&mut md, upper.as_str());
                push_str(&mut md, ")\n\n");
                push_str(&mut md, "> 此预览由 ");
                push_str(&mut md, upper.as_str());
                push_str(&mut md, " 文件通过 MarkItDown 转换生成\n\n");
                let body = Self::plain_text_to_markdown(d.text.as_str());
                push_str(&mut md, body.as_str());
                proof {
                    reveal_strlit("# ");
                }
                assert(md@ =~= office_markdown(file_name@, uppercase(file_type@), d.text@));
                Ok(md)
            },
            Err(e) => {
                let mut m = upper;
                push_str(&mut m, " 文件解析失败: ");
                push_str(&mut m, e.as_str());
                Err(m)
            },
        }
    }

    /// The description of an asset.
    pub fn asset_preview(file_name: &str, file_type: &str) -> (md: String)
        ensures
            md@ == asset_markdown(file_name@, file_type@),
    {
        let mut md = String::from_str("# ");
        push_str(&mut md, file_name);
        push_str(&mut md, " (资产文件)\n\n> 此文件为资产文件（");
        push_str(&mut md, file_type);
        push_str(&mut md, "），不进行 OCR、不进行图片理解、不参与 AI 知识抽取\n\n");
        let entries = asset_info_entries(file_name, file_type);
        let info = json_object_text(&entries);
        push_str(&mut md, info.as_str());
        md.push('\n');
        proof {
            reveal_strlit("# ");
        }
        assert(md@ =~= asset_markdown(file_name@, file_type@));
        md
    }

    /// The preview of a PDF file of `size` bytes, from its parse and the
    /// AI summary and coverage report stored for it.
    pub fn pdf_preview(
        file_name: &str,
        size: u64,
        parsed: Result<crate::documents::DocumentParseResult, String>,
        ai_summary: &str,
        coverage_report: &str,
    ) -> (md: String)
        requires
            parsed matches Ok(d) ==> crate::file_preview::cuttable(d.text@),
        ensures
            md@ == pdf_markdown(file_name@, size, parse_view(parsed), ai_summary@, coverage_report@),
    {
        let mut md = String::from_str("# ");
        push_str(&mut md, file_name);
        push_str(&mut md, " (PDF)\n\n");
        push_str(&mut md, "- **文件大小**: ");
        push_decimal(&mut md, size);
        push_str(&mut md, " 字节\n");
        let ghost head = md@;
        let ghost pv = parse_view(parsed);
        push_pdf_parse(&mut md, parsed);
        let ghost mid = md@;
        push_pdf_notes(&mut md, ai_summary, coverage_report);
        proof {
            reveal_strlit("# ");
        }
        assert(md@ =~= pdf_markdown(file_name@, size, pv, ai_summary@, coverage_report@));
        md
    }
}

/// The notes that close a PDF preview.
pub open spec fn pdf_notes(summary: Seq<char>, coverage: Seq<char>) -> Seq<char> {
    (if summary.len() > 0 {
        "\n## AI 摘要\n\n"@ + summary + seq!['\n']
    } else {
        Seq::empty()
    }) + (if coverage.len() > 0 {
        "\n## 覆盖度报告\n\n"@ + coverage + seq!['\n']
    } else {
        Seq::empty()
    }) + (if summary.len() == 0 {
        "\n*该 PDF 文件尚未经过 AI 分析。请通过导入任务进行分析以获取摘要。*\n"@
    } else {
        Seq::empty()
    })
}

fn push_pdf_notes(md: &mut String, ai_summary: &str, coverage_report: &str)
    ensures
        final(md)@ == old(md)@ + pdf_notes(ai_summary@, coverage_report@),
{
    if !ai_summary.is_empty() {
        push_str(md, "\n## AI 摘要\n\n");
        push_str(md, ai_summary);
        md.push('\n');
    }
    if !coverage_report.is_empty() {
        push_str(md, "\n## 覆盖度报告\n\n");
        push_str(md, coverage_report);
        md.push('\n');
    }
    if ai_summary.is_empty() {
        push_str(md, "\n*该 PDF 文件尚未经过 AI 分析。请通过导入任务进行分析以获取摘要。*\n");
    }
    assert(final(md)@ =~= old(md)@ + pdf_notes(ai_summary@, coverage_report@));
}

fn push_pdf_warnings(md: &mut String, warnings: &Vec<String>)
    ensures
        final(md)@ == old(md)@ + pdf_warning_lines(crate::documents::warnings_view(warnings@)),
{
    let ghost mid = md@;
    let ghost ws = crate::documents::warnings_view(warnings@);
    let mut i: usize = 0;
    assert(ws.take(0) =~= Seq::<Seq<char>>::empty());
    while i < warnings.len()
        invariant
            i <= warnings@.len(),
            ws == crate::documents::warnings_view(warnings@),
            md@ == mid + pdf_warning_lines(ws.take(i as int)),
        decreases warnings.len() - i,
    {
        let ghost before = md@;
        push_str(md, "> ⚠️ ");
        push_str(md, warnings[i].as_str());
        md.push('\n');
        proof {
            assert(ws.take(i + 1).drop_last() =~= ws.take(i as int));
            assert(ws.take(i + 1).last() == warnings@[i as int]@);
            assert(md@ =~= before + "> ⚠️ "@ + warnings@[i as int]@ + seq!['\n']);
        }
        i = i + 1;
    }
    assert(ws.take(warnings@.len() as int) =~= ws);
}

fn push_pdf_text(md: &mut String, text: &String)
    requires
        crate::file_preview::cuttable(text@),
    ensures
        final(md)@ == old(md)@ + crate::file_preview::document_text_shown(text@) + (if byte_len(text@)
            > 8000 {
            "\n\n*... 文本过长，已截断（完整长度 "@ + decimal(byte_len(text@)) + " 字符）*"@
        } else {
            Seq::empty()
        }),
{
    let n = text.as_str().as_bytes().len();
    let cs = chars_of(text.as_str());
    if n > 8000 {
        let (k, _used) = crate::text::floor_prefix(&cs, 8000);
        let head_text = crate::text::string_of_range(&cs, 0, k);
        assert(head_text@ =~= cs@.take(k as int));
        push_str(md, head_text.as_str());
        push_str(md, "\n\n*... 文本过长，已截断（完整长度 ");
        push_decimal(md, n as u64);
        push_str(md, " 字符）*");
    } else {
        push_str(md, text.as_str());
    }
}

#[verifier::rlimit(40)]
fn push_pdf_parse(md: &mut String, parsed: Result<crate::documents::DocumentParseResult, String>)
    requires
        parsed matches Ok(d) ==> crate::file_preview::cuttable(d.text@),
    ensures
        final(md)@ == old(md)@ + pdf_parse_part(parse_view(parsed)),
{
    let ghost pv = parse_view(parsed);
    match parsed {
        Ok(d) => {
            if let Some(pc) = d.page_count {
                push_str(md, "- **页数**: ");
                push_decimal(md, pc as u64);
                md.push('\n');
            }
            push_str(md, "- **提取文本**: ");
            push_decimal(md, d.text_length as u64);
            push_str(md, " 字符\n\n");
            push_pdf_warnings(md, &d.warnings);
            if d.warnings.len() > 0 {
                md.push('\n');
            }
            push_str(md, "## 文档文本预览\n\n");
            push_pdf_text(md, &d.text);
            md.push('\n');
            assert(final(md)@ =~= old(md)@ + pdf_parse_part(pv));
        },
        Err(e) => {
            push_str(md, "> ⚠️ 文本提取失败: ");
            push_str(md, e.as_str());
            push_str(md, "\n\n");
            assert(final(md)@ =~= old(md)@ + pdf_parse_part(pv));
        },
    }
}

} // verus!
