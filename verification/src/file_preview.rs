//! Previews of workspace files: which kind of preview a file gets from its
//! extension, how much of it is shown, and the render hints given to the
//! viewer. The file system is read by the caller, which hands in what it read.
use vstd::prelude::*;
use crate::text::{chars_of, chars_within, decimal, floor_prefix, push_decimal, push_str,
    string_of_range, byte_len, uppercase, to_uppercase};
use crate::documents::{DocumentParseResult, warnings_view};
use crate::extractors::utf8_lossy;
use crate::json_repair::json_accepts;

verus! {

/// How the viewer may show a previewed file.
#[derive(Debug, Clone, Copy, PartialEq, Eq, Structural)]
pub struct RenderHint {
    pub can_render_markdown: bool,
    pub can_show_source: bool,
    pub can_format_json: bool,
    pub is_large_file: bool,
    pub truncated: bool,
    pub truncated_length: usize,
}

/// The preview of one workspace file.
#[derive(Debug, Clone)]
pub struct FilePreviewResponse {
    pub relative_path: String,
    pub file_name: String,
    pub extension: String,
    pub size: u64,
    pub hash: String,
    pub modified_at: String,
    /// `markdown`, `json`, `text`, `image` or `unsupported`.
    pub preview_type: String,
    pub content: String,
    pub render_hint: RenderHint,
    pub source_id: Option<String>,
    pub error: Option<String>,
}

/// The part of a preview that depends on the file's kind.
#[derive(Debug, Clone)]
pub struct PreviewBody {
    pub preview_type: String,
    pub content: String,
    pub render_hint: RenderHint,
    pub error: Option<String>,
}

/// Builds previews of workspace files and of arbitrary local files.
pub struct WorkspaceFilePreviewService;

/// The kind of preview a file gets.
#[derive(Debug, Clone, Copy, PartialEq, Eq, Structural)]
pub enum PreviewKind {
    Markdown,
    Json,
    Text,
    Image,
    Document,
    Unsupported,
}

/// Files larger than this (2 MiB) are read in part.
pub const MAX_PREVIEW_SIZE: u64 = 2097152;

/// At most this many bytes (256 KiB) of a large file are read.
pub const PARTIAL_READ_BYTES: usize = 262144;

/// Images larger than this (10 MiB) are flagged as large.
pub const LARGE_IMAGE_SIZE: u64 = 10485760;

/// Files smaller than this (100 MiB) get a content hash.
pub const HASH_SIZE_LIMIT: u64 = 104857600;

/// At most this many bytes of extracted document text are shown.
pub const DOCUMENT_PREVIEW_BYTES: usize = 8000;

/// The preview kind of a lower-cased extension. Previews of arbitrary local
/// files (`absolute`) also show `htm`, `xml` and `csv` files as text.
pub open spec fn kind_of(ext: Seq<char>, absolute: bool) -> PreviewKind {
    if ext == "md"@ || ext == "markdown"@ {
        PreviewKind::Markdown
    } else if ext == "json"@ {
        PreviewKind::Json
    } else if ext == "txt"@ || ext == "log"@ || ext == "yaml"@ || ext == "yml"@ || ext == "toml"@
        || ext == "rs"@ || ext == "ts"@ || ext == "tsx"@ || ext == "js"@ || ext == "css"@ || ext
        == "html"@ || (absolute && (ext == "htm"@ || ext == "xml"@ || ext == "csv"@)) {
        PreviewKind::Text
    } else if ext == "png"@ || ext == "jpg"@ || ext == "jpeg"@ || ext == "webp"@ || ext == "gif"@
        || ext == "svg"@ || ext == "ico"@ || ext == "bmp"@ {
        PreviewKind::Image
    } else if ext == "docx"@ || ext == "pdf"@ || ext == "pptx"@ || ext == "xlsx"@ || ext
        == "xls"@ {
        PreviewKind::Document
    } else {
        PreviewKind::Unsupported
    }
}

/// A render hint with all flags off.
pub open spec fn no_hint() -> RenderHint {
    RenderHint {
        can_render_markdown: false,
        can_show_source: false,
        can_format_json: false,
        is_large_file: false,
        truncated: false,
        truncated_length: 0,
    }
}

/// What is shown of a file that is read as text: the lossy UTF-8 reading of
/// the bytes read, whether the file was read in part, and how many bytes
/// were read in that case.
#[derive(Debug, Clone)]
pub enum TextRead {
    /// The first bytes of a file larger than `MAX_PREVIEW_SIZE`.
    Partial(Vec<u8>),
    /// A large file that could not be opened or read.
    PartialFailed,
    /// All bytes of the file.
    Whole(Vec<u8>),
    /// A file that could not be read, with the reason.
    WholeFailed(String),
}

/// The shown text, the truncation flag and the number of bytes read.
pub open spec fn text_shown(size: u64, read: TextRead) -> (Seq<char>, bool, nat) {
    match read {
        TextRead::Partial(b) => (utf8_lossy(b@), true, b@.len()),
        TextRead::PartialFailed => (
            "文件过大无法直接预览（"@ + decimal((size / 1024 / 1024) as nat) + " MB）"@,
            true,
            0,
        ),
        TextRead::Whole(b) => (utf8_lossy(b@), false, 0),
        TextRead::WholeFailed(e) => ("读取文件失败: "@ + e@, false, 0),
    }
}

/// The body of a text-like preview (Markdown, JSON or text).
pub open spec fn text_body_spec(kind: PreviewKind, size: u64, shown: (Seq<char>, bool, nat)) -> (
    Seq<char>,
    Seq<char>,
    RenderHint,
    Option<Seq<char>>,
) {
    let (content, truncated, n) = shown;
    let valid = json_accepts(content);
    let hint = RenderHint {
        can_render_markdown: kind == PreviewKind::Markdown,
        can_show_source: true,
        can_format_json: kind == PreviewKind::Json && valid,
        is_large_file: size > MAX_PREVIEW_SIZE,
        truncated: truncated,
        truncated_length: n as usize,
    };
    if kind == PreviewKind::Markdown {
        ("markdown"@, content, hint, None)
    } else if kind == PreviewKind::Json {
        (
            "json"@,
            content,
            hint,
            if !valid && content.len() > 0 {
                Some("JSON 格式无效"@)
            } else {
                None
            },
        )
    } else {
        ("text"@, content, hint, None)
    }
}

/// The shown part of extracted document text: all of it, or its first
/// `DOCUMENT_PREVIEW_BYTES` bytes.
pub open spec fn document_text_shown(t: Seq<char>) -> Seq<char> {
    if byte_len(t) <= DOCUMENT_PREVIEW_BYTES {
        t
    } else {
        t.take(chars_within(t, DOCUMENT_PREVIEW_BYTES as nat, 0, 0))
    }
}

/// Whether the document text can be cut after `DOCUMENT_PREVIEW_BYTES`
/// bytes: it is not longer, or a character ends exactly there.
pub open spec fn cuttable(t: Seq<char>) -> bool {
    byte_len(t) <= DOCUMENT_PREVIEW_BYTES || byte_len(
        t.take(chars_within(t, DOCUMENT_PREVIEW_BYTES as nat, 0, 0)),
    ) == DOCUMENT_PREVIEW_BYTES
}

/// The warning lines of a document preview, each `> ⚠️ {w}`.
pub open spec fn warning_lines(ws: Seq<Seq<char>>) -> Seq<char>
    decreases ws.len(),
{
    if ws.len() == 0 {
        Seq::empty()
    } else {
        warning_lines(ws.drop_last()) + "> ⚠️ "@ + ws.last() + seq!['\n']
    }
}

/// The Markdown preview of a converted document.
pub open spec fn document_markdown(
    file_name: Seq<char>,
    extension: Seq<char>,
    text: Seq<char>,
    warnings: Seq<Seq<char>>,
) -> Seq<char> {
    seq!['#', ' '] + file_name + seq!['\n', '\n'] + "> 此预览由 "@ + uppercase(extension)
        + " 文件自动转换生成\n\n"@ + warning_lines(warnings) + (if warnings.len() > 0 {
        seq!['\n']
    } else {
        Seq::empty()
    }) + document_text_shown(text) + (if byte_len(text) > DOCUMENT_PREVIEW_BYTES {
        "\n\n*... 文本过长，已截断（完整长度 "@ + decimal(byte_len(text)) + " 字符）*"@
    } else {
        Seq::empty()
    })
}

/// The view of a preview body.
pub open spec fn body_view(b: PreviewBody) -> (Seq<char>, Seq<char>, RenderHint, Option<Seq<char>>) {
    (
        b.preview_type@,
        b.content@,
        b.render_hint,
        match b.error {
            Some(e) => Some(e@),
            None => None,
        },
    )
}

fn ext_is(cs: &Vec<char>, lit: &str) -> (b: bool)
    ensures
        b == (cs@ == lit@),
{
    let l = chars_of(lit);
    crate::gateway::seq_eq(cs, &l)
}

impl WorkspaceFilePreviewService {
    /// The preview kind of a lower-cased extension.
    pub fn preview_kind(extension: &str, absolute: bool) -> (k: PreviewKind)
        ensures
            k == kind_of(extension@, absolute),
    {
        let e = chars_of(extension);
        if ext_is(&e, "md") || ext_is(&e, "markdown") {
            PreviewKind::Markdown
        } else if ext_is(&e, "json") {
            PreviewKind::Json
        } else if ext_is(&e, "txt") || ext_is(&e, "log") || ext_is(&e, "yaml") || ext_is(&e, "yml")
            || ext_is(&e, "toml") || ext_is(&e, "rs") || ext_is(&e, "ts") || ext_is(&e, "tsx")
            || ext_is(&e, "js") || ext_is(&e, "css") || ext_is(&e, "html") || (absolute && (ext_is(
            &e,
            "htm",
        ) || ext_is(&e, "xml") || ext_is(&e, "csv"))) {
            PreviewKind::Text
        } else if ext_is(&e, "png") || ext_is(&e, "jpg") || ext_is(&e, "jpeg") || ext_is(&e, "webp")
            || ext_is(&e, "gif") || ext_is(&e, "svg") || ext_is(&e, "ico") || ext_is(&e, "bmp") {
            PreviewKind::Image
        } else if ext_is(&e, "docx") || ext_is(&e, "pdf") || ext_is(&e, "pptx") || ext_is(&e, "xlsx")
            || ext_is(&e, "xls") {
            PreviewKind::Document
        } else {
            PreviewKind::Unsupported
        }
    }

    /// Whether a file of `size` bytes is hashed for its preview.
    pub fn hashes_file(size: u64) -> (b: bool)
        ensures
            b == (size < HASH_SIZE_LIMIT),
    {
        size < HASH_SIZE_LIMIT
    }

    /// Whether a file of `size` bytes is read in part (its first
    /// `PARTIAL_READ_BYTES` bytes) for a text preview.
    pub fn reads_partially(size: u64) -> (b: bool)
        ensures
            b == (size > MAX_PREVIEW_SIZE),
    {
        size > MAX_PREVIEW_SIZE
    }

    /// What a text preview shows of what was read from a file of `size`
    /// bytes: the text, whether it was read in part, and the bytes read.
    pub fn read_text_safe(size: u64, read: TextRead) -> (r: (String, bool, usize))
        ensures
            (r.0@, r.1, r.2 as nat) == text_shown(size, read),
    {
        match read {
            TextRead::Partial(b) => {
                let n = b.len();
                (crate::extractors::utf8_lossy_decode(b.as_slice()), true, n)
            },
            TextRead::PartialFailed => {
                let mut m = String::from_str("文件过大无法直接预览（");
                push_decimal(&mut m, size / 1024 / 1024);
                push_str(&mut m, " MB）");
                (m, true, 0)
            },
            TextRead::Whole(b) => (crate::extractors::utf8_lossy_decode(b.as_slice()), false, 0),
            TextRead::WholeFailed(e) => {
                let mut m = String::from_str("读取文件失败: ");
                push_str(&mut m, e.as_str());
                (m, false, 0)
            },
        }
    }

    /// The body of a Markdown, JSON or text preview of a file of `size`
    /// bytes, from what `read_text_safe` made of it.
    pub fn text_body(kind: PreviewKind, size: u64, shown: (String, bool, usize)) -> (b: PreviewBody)
        requires
            kind == PreviewKind::Markdown || kind == PreviewKind::Json || kind == PreviewKind::Text,
        ensures
            body_view(b) == text_body_spec(kind, size, (shown.0@, shown.1, shown.2 as nat)),
    {
        let (content, truncated, n) = shown;
        let valid = if kind == PreviewKind::Json {
            crate::json_repair::parse_json_value(content.as_str()).is_ok()
        } else {
            false
        };
        let hint = RenderHint {
            can_render_markdown: kind == PreviewKind::Markdown,
            can_show_source: true,
            can_format_json: kind == PreviewKind::Json && valid,
            is_large_file: size > MAX_PREVIEW_SIZE,
            truncated,
            truncated_length: n,
        };
        if kind == PreviewKind::Markdown {
            PreviewBody {
                preview_type: String::from_str("markdown"),
                content,
                render_hint: hint,
                error: None,
            }
        } else if kind == PreviewKind::Json {
            let error = if !valid && !content.as_str().is_empty() {
                Some(String::from_str("JSON 格式无效"))
            } else {
                None
            };
            PreviewBody { preview_type: String::from_str("json"), content, render_hint: hint, error }
        } else {
            PreviewBody {
                preview_type: String::from_str("text"),
                content,
                render_hint: hint,
                error: None,
            }
        }
    }

    /// The body of an image preview: nothing is shown; images over 10 MiB
    /// are flagged as large.
    pub fn image_body(size: u64) -> (b: PreviewBody)
        ensures
            body_view(b) == (
                "image"@,
                Seq::<char>::empty(),
                RenderHint { is_large_file: size > LARGE_IMAGE_SIZE, ..no_hint() },
                None::<Seq<char>>,
            ),
    {
        PreviewBody {
            preview_type: String::from_str("image"),
            content: String::new(),
            render_hint: RenderHint {
                can_render_markdown: false,
                can_show_source: false,
                can_format_json: false,
                is_large_file: size > LARGE_IMAGE_SIZE,
                truncated: false,
                truncated_length: 0,
            },
            error: None,
        }
    }

    /// The body of a preview of a file type without a built-in preview.
    pub fn unsupported_body() -> (b: PreviewBody)
        ensures
            body_view(b) == (
                "unsupported"@,
                Seq::<char>::empty(),
                no_hint(),
                Some("该文件类型暂不支持内置预览"@),
            ),
    {
        PreviewBody {
            preview_type: String::from_str("unsupported"),
            content: String::new(),
            render_hint: RenderHint {
                can_render_markdown: false,
                can_show_source: false,
                can_format_json: false,
                is_large_file: false,
                truncated: false,
                truncated_length: 0,
            },
            error: Some(String::from_str("该文件类型暂不支持内置预览")),
        }
    }

    /// The body of the preview of an office or PDF document named
    /// `file_name` with the (lower-cased) `extension`, from the result of
    /// parsing it: its warnings and at most 8000 bytes of its text, or the
    /// parse error.
    pub fn document_body(file_name: &str, extension: &str, parsed: Result<
        DocumentParseResult,
        String,
    >) -> (b: PreviewBody)
        requires
            parsed matches Ok(r) ==> cuttable(r.text@),
        ensures
            match parsed {
                Ok(r) => body_view(b) == (
                    "markdown"@,
                    document_markdown(file_name@, extension@, r.text@, warnings_view(r.warnings@)),
                    RenderHint {
                        can_render_markdown: true,
                        is_large_file: byte_len(r.text@) > DOCUMENT_PREVIEW_BYTES,
                        truncated: byte_len(r.text@) > DOCUMENT_PREVIEW_BYTES,
                        truncated_length: if byte_len(r.text@) > DOCUMENT_PREVIEW_BYTES {
                            DOCUMENT_PREVIEW_BYTES
                        } else {
                            0
                        },
                        ..no_hint()
                    },
                    None::<Seq<char>>,
                ),
                Err(e) => body_view(b) == (
                    "unsupported"@,
                    Seq::<char>::empty(),
                    no_hint(),
                    Some("文件解析失败: "@ + e@),
                ),
            },
    {
        match parsed {
            Ok(r) => {
                let mut md = String::new();
                md.push('#');
                md.push(' ');
                push_str(&mut md, file_name);
                md.push('\n');
                md.push('\n');
                push_str(&mut md, "> 此预览由 ");
                let upper = to_uppercase(extension);
                push_str(&mut md, upper.as_str());
                push_str(&mut md, " 文件自动转换生成\n\n");
                let ghost head = md@;
                let mut i: usize = 0;
                assert(warnings_view(r.warnings@).take(0) =~= Seq::<Seq<char>>::empty());
                while i < r.warnings.len()
                    invariant
                        i <= r.warnings@.len(),
                        md@ == head + warning_lines(warnings_view(r.warnings@).take(i as int)),
                    decreases r.warnings.len() - i,
                {
                    let ghost before = md@;
                    push_str(&mut md, "> ⚠️ ");
                    push_str(&mut md, r.warnings[i].as_str());
                    md.push('\n');
                    proof {
                        let ws = warnings_view(r.warnings@);
                        assert(ws.take(i + 1).drop_last() =~= ws.take(i as int));
                        assert(ws.take(i + 1).last() == r.warnings@[i as int]@);
                        assert(md@ =~= before + "> ⚠️ "@ + r.warnings@[i as int]@ + seq!['\n']);
                    }
                    i = i + 1;
                }
                assert(warnings_view(r.warnings@).take(r.warnings@.len() as int) =~= warnings_view(
                    r.warnings@,
                ));
                if r.warnings.len() > 0 {
                    md.push('\n');
                }
                let n = r.text.as_str().as_bytes().len();
                let cs = chars_of(r.text.as_str());
                let long = n > DOCUMENT_PREVIEW_BYTES;
                if long {
                    let (k, _used) = floor_prefix(&cs, DOCUMENT_PREVIEW_BYTES);
                    let head_text = string_of_range(&cs, 0, k);
                    assert(head_text@ =~= cs@.take(k as int));
                    push_str(&mut md, head_text.as_str());
                    push_str(&mut md, "\n\n*... 文本过长，已截断（完整长度 ");
                    push_decimal(&mut md, n as u64);
                    push_str(&mut md, " 字符）*");
                } else {
                    push_str(&mut md, r.text.as_str());
                }
                PreviewBody {
                    preview_type: String::from_str("markdown"),
                    content: md,
                    render_hint: RenderHint {
                        can_render_markdown: true,
                        can_show_source: false,
                        can_format_json: false,
                        is_large_file: long,
                        truncated: long,
                        truncated_length: if long {
                            DOCUMENT_PREVIEW_BYTES
                        } else {
                            0
                        },
                    },
                    error: None,
                }
            },
            Err(e) => {
                let mut m = String::from_str("文件解析失败: ");
                push_str(&mut m, e.as_str());
                PreviewBody {
                    preview_type: String::from_str("unsupported"),
                    content: String::new(),
                    render_hint: RenderHint {
                        can_render_markdown: false,
                        can_show_source: false,
                        can_format_json: false,
                        is_large_file: false,
                        truncated: false,
                        truncated_length: 0,
                    },
                    error: Some(m),
                }
            },
        }
    }
}


// ---------------------------------------------------------------------------
// Containment in the workspace
// ---------------------------------------------------------------------------

/// Whether a path segment names a component (`Path::components` drops
/// empty segments and `.`).
pub open spec fn kept_segment(s: Seq<char>) -> bool {
    s.len() > 0 && s != seq!['.']
}

/// The components of a path after the root, from character `i` on, with
/// `cur` the part of the segment read so far.
pub open spec fn segments_from(p: Seq<char>, i: int, cur: Seq<char>) -> Seq<Seq<char>>
    decreases p.len() - i,
{
    if i < 0 || i >= p.len() {
        if kept_segment(cur) {
            seq![cur]
        } else {
            seq![]
        }
    } else if p[i] == '/' {
        (if kept_segment(cur) {
            seq![cur]
        } else {
            seq![]
        }) + segments_from(p, i + 1, seq![])
    } else {
        segments_from(p, i + 1, cur.push(p[i]))
    }
}

/// The named components of a path.
pub open spec fn path_segments(p: Seq<char>) -> Seq<Seq<char>> {
    segments_from(p, 0, seq![])
}

/// Whether `path` lies within `root`, as `Path::starts_with` compares
/// resolved (canonical) paths: both absolute or both relative, and the
/// components of `root` begin those of `path`.
pub open spec fn within_root(path: Seq<char>, root: Seq<char>) -> bool {
    let a = path_segments(path);
    let b = path_segments(root);
    &&& (path.len() > 0 && path[0] == '/') == (root.len() > 0 && root[0] == '/')
    &&& b.len() <= a.len()
    &&& a.take(b.len() as int) == b
}

fn segments_of(p: &Vec<char>) -> (r: Vec<Vec<char>>)
    ensures
        r@.map_values(|s: Vec<char>| s@) == path_segments(p@),
{
    let mut out: Vec<Vec<char>> = Vec::new();
    let mut cur: Vec<char> = Vec::new();
    let mut i: usize = 0;
    while i < p.len()
        invariant
            i <= p@.len(),
            out@.map_values(|s: Vec<char>| s@) + segments_from(p@, i as int, cur@) == path_segments(p@),
        decreases p.len() - i,
    {
        let ghost before = out@.map_values(|s: Vec<char>| s@);
        let ghost c0 = cur@;
        if p[i] == '/' {
            let keep = cur.len() > 0 && !(cur.len() == 1 && cur[0] == '.');
            assert(keep == kept_segment(c0)) by {
                if c0.len() == 1 && c0[0] == '.' {
                    assert(c0 =~= seq!['.']);
                }
            }
            if keep {
                out.push(cur);
                assert(out@.map_values(|s: Vec<char>| s@) =~= before + seq![c0]);
            }
            cur = Vec::new();
            assert(segments_from(p@, i as int, c0) == (if kept_segment(c0) {
                seq![c0]
            } else {
                seq![]
            }) + segments_from(p@, i + 1, seq![]));
            assert(cur@ =~= Seq::<char>::empty());
        } else {
            cur.push(p[i]);
        }
        i = i + 1;
    }
    let ghost before = out@.map_values(|s: Vec<char>| s@);
    let ghost c0 = cur@;
    let keep = cur.len() > 0 && !(cur.len() == 1 && cur[0] == '.');
    assert(keep == kept_segment(c0)) by {
        if c0.len() == 1 && c0[0] == '.' {
            assert(c0 =~= seq!['.']);
        }
    }
    if keep {
        out.push(cur);
        assert(out@.map_values(|s: Vec<char>| s@) =~= before + seq![c0]);
    } else {
        assert(before + Seq::<Seq<char>>::empty() =~= before);
    }
    out
}

impl WorkspaceFilePreviewService {
    /// The path check of a preview: a resolved path that does not lie
    /// within the resolved workspace (see `within_root`) is refused.
    pub fn check_within_workspace(canonical: &str, kb_canonical: &str) -> (r: Result<(), String>)
        ensures
            match r {
                Ok(()) => within_root(canonical@, kb_canonical@),
                Err(m) => !within_root(canonical@, kb_canonical@) && m@ == "安全校验失败：路径不在工作区内"@,
            },
    {
        let pc = chars_of(canonical);
        let rc = chars_of(kb_canonical);
        let abs_p = pc.len() > 0 && pc[0] == '/';
        let abs_r = rc.len() > 0 && rc[0] == '/';
        let a = segments_of(&pc);
        let b = segments_of(&rc);
        let ghost av = a@.map_values(|s: Vec<char>| s@);
        let ghost bv = b@.map_values(|s: Vec<char>| s@);
        if !(abs_p == abs_r && b.len() <= a.len()) {
            return Err(String::from_str("安全校验失败：路径不在工作区内"));
        }
        let mut k: usize = 0;
        while k < b.len()
            invariant
                b@.len() <= a@.len(),
                av == a@.map_values(|s: Vec<char>| s@),
                bv == b@.map_values(|s: Vec<char>| s@),
                av == path_segments(canonical@),
                bv == path_segments(kb_canonical@),
                k <= b@.len(),
                forall|m: int| 0 <= m < k ==> av[m] == bv[m],
            decreases b.len() - k,
        {
            if !crate::gateway::seq_eq(&a[k], &b[k]) {
                proof {
                    assert(av[k as int] == a@[k as int]@);
                    assert(bv[k as int] == b@[k as int]@);
                    assert(av.take(bv.len() as int)[k as int] == av[k as int]);
                }
                return Err(String::from_str("安全校验失败：路径不在工作区内"));
            }
            k = k + 1;
        }
        assert(av.take(bv.len() as int) =~= bv);
        Ok(())
    }
}

} // verus!
