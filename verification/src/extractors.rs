//! Text clean-up of the document extractors: Markdown, HTML, plain text in
//! UTF-8 or a Chinese legacy encoding, the output of the MarkItDown
//! converter, and the previews built from plain text.
use vstd::prelude::*;
use vstd::string::StringSliceAdditionalSpecFns;
use vstd::utf8::{decode_utf8, valid_utf8};
use crate::text::{utf8_decode, 
    chars_of, find, find_vec, is_whitespace, is_ws, join, lemma_find_from, lines, lines_of,
    push_all, push_str, replace_all, replace_vec, slice_vec, starts_with, string_of,
    string_of_range, trim, trim_bounds, trim_start, vviews,
};

verus! {

// ---------------------------------------------------------------------------
// Decoding bytes
// ---------------------------------------------------------------------------

/// What `String::from_utf8_lossy` returns (invalid sequences replaced by
/// U+FFFD), a function of the bytes alone.
pub uninterp spec fn utf8_lossy(bytes: Seq<u8>) -> Seq<char>;

/// Calls `String::from_utf8_lossy`; on valid UTF-8 it decodes the bytes.
#[verifier::external_body]
pub(crate) fn utf8_lossy_decode(bytes: &[u8]) -> (s: String)
    ensures
        s@ == utf8_lossy(bytes@),
        valid_utf8(bytes@) ==> s@ == decode_utf8(bytes@),
{
    String::from_utf8_lossy(bytes).into_owned()
}

/// What `encoding_rs` decodes from `bytes` with the encoding of `label`
/// (with BOM sniffing), and whether malformed sequences were replaced.
pub uninterp spec fn decoded_with_label(label: Seq<char>, bytes: Seq<u8>) -> (Seq<char>, bool);

/// Calls `encoding_rs::Encoding::for_label(label)` (UTF-8 when the label is
/// unknown) and its `decode`. The decoder panics when its buffer size
/// overflows `usize`, which cannot happen for inputs of at most an eighth of
/// the address space.
#[verifier::external_body]
fn decode_with_label(label: &str, bytes: &[u8]) -> (r: (String, bool))
    requires
        bytes@.len() <= usize::MAX / 8,
    ensures
        (r.0@, r.1) == decoded_with_label(label@, bytes@),
{
    let (cow, _encoding, had_errors) = encoding_rs::Encoding::for_label(label.as_bytes()).unwrap_or(
        encoding_rs::UTF_8,
    ).decode(bytes);
    (cow.into_owned(), had_errors)
}

/// A character of the Latin-1 supplement or Latin Extended ranges
/// (U+0080 to U+022F), typical of UTF-8 CJK text read in the wrong encoding.
pub open spec fn is_suspect(c: char) -> bool {
    0x7f < (c as u32) && (c as u32) < 0x230
}

/// Number of suspect characters of `t`.
pub open spec fn suspect_count(t: Seq<char>) -> nat
    decreases t.len(),
{
    if t.len() == 0 {
        0
    } else {
        suspect_count(t.drop_last()) + if is_suspect(t.last()) {
            1nat
        } else {
            0nat
        }
    }
}

/// Whether more than a third of the characters are suspect.
pub open spec fn garbled(t: Seq<char>) -> bool {
    t.len() > 0 && suspect_count(t) > t.len() / 3
}

proof fn lemma_suspect_count_bound(t: Seq<char>)
    ensures
        suspect_count(t) <= t.len(),
    decreases t.len(),
{
    if t.len() > 0 {
        lemma_suspect_count_bound(t.drop_last());
    }
}

/// Whether a text looks like CJK text decoded in the wrong encoding: more
/// than a third of its characters lie in U+0080..U+022F.
pub fn looks_like_garbled_cjk(text: &str) -> (b: bool)
    ensures
        b == garbled(text@),
{
    let cs = chars_of(text);
    let mut count: usize = 0;
    let mut i: usize = 0;
    while i < cs.len()
        invariant
            i <= cs.len(),
            count == suspect_count(cs@.take(i as int)),
            count <= i,
        decreases cs.len() - i,
    {
        proof {
            assert(cs@.take(i + 1).drop_last() =~= cs@.take(i as int));
            lemma_suspect_count_bound(cs@.take(i as int));
        }
        let u = cs[i] as u32;
        if 0x7f < u && u < 0x230 {
            count = count + 1;
        }
        i = i + 1;
    }
    assert(cs@.take(cs@.len() as int) =~= cs@);
    cs.len() > 0 && count > cs.len() / 3
}

/// Extracts the text of plain-text files.
pub struct TxtSkill;

/// Extracts the text of Word documents.
pub struct DocxSkill;

/// Extracts the text of PowerPoint presentations.
pub struct PptxSkill;

/// Extracts the text of PDF files.
pub struct PdfSkill;

/// Recognises the text of scanned PDF pages.
pub struct PdfOcr;

/// Extracts the text of HTML documents.
pub struct HtmlSkill;

pub struct MarkitdownSkill;

/// What `TxtSkill::decode_text` returns for the bytes of a text file.
pub open spec fn txt_decoded(b: Seq<u8>) -> Result<Seq<char>, Seq<char>> {
    if valid_utf8(b) {
        if trim(decode_utf8(b)).len() == 0 {
            Err("TXT 文件内容为空。"@)
        } else {
            Ok(decode_utf8(b))
        }
    } else {
        let (g, had_errors) = decoded_with_label("gbk"@, b);
        let (g2, had_errors2) = decoded_with_label("gb18030"@, b);
        if had_errors && !had_errors2 {
            Ok(g2)
        } else if trim(g).len() == 0 {
            Err("TXT 文件内容为空或无法解码。"@)
        } else {
            Ok(g)
        }
    }
}

fn is_blank(s: &String) -> (b: bool)
    ensures
        b == (trim(s@).len() == 0),
{
    let cs = chars_of(s.as_str());
    let (lo, hi) = trim_bounds(&cs, 0, cs.len());
    assert(cs@.subrange(0, cs@.len() as int) =~= cs@);
    lo == hi
}

impl TxtSkill {
    /// Decodes the bytes of a text file: UTF-8 when they are valid UTF-8,
    /// else GBK, else GB18030 when only GB18030 decodes them without errors.
    pub fn decode_text(bytes: &[u8]) -> (r: Result<String, String>)
        requires
            bytes@.len() <= usize::MAX / 8,
        ensures
            match (r, txt_decoded(bytes@)) {
                (Ok(t), Ok(u)) => t@ == u,
                (Err(m), Err(n)) => m@ == n,
                _ => false,
            },
    {
        if let Ok(text) = utf8_decode(bytes) {
            if is_blank(&text) {
                return Err(String::from_str("TXT 文件内容为空。"));
            }
            return Ok(text);
        }
        let (g, had_errors) = decode_with_label("gbk", bytes);
        if had_errors {
            let (g2, had_errors2) = decode_with_label("gb18030", bytes);
            if !had_errors2 {
                return Ok(g2);
            }
        }
        if is_blank(&g) {
            return Err(String::from_str("TXT 文件内容为空或无法解码。"));
        }
        Ok(g)
    }
}

/// What `MarkitdownSkill::decode_stdout` returns for the converter's output.
pub open spec fn stdout_decoded(b: Seq<u8>) -> Seq<char> {
    if garbled(utf8_lossy(b)) {
        trim(decoded_with_label("gbk"@, b).0)
    } else {
        trim(utf8_lossy(b))
    }
}

impl MarkitdownSkill {
    /// Decodes the converter's output: UTF-8 (lossy), or GBK when the UTF-8
    /// reading looks garbled; trimmed.
    pub fn decode_stdout(bytes: &[u8]) -> (s: String)
        requires
            bytes@.len() <= usize::MAX / 8,
        ensures
            s@ == stdout_decoded(bytes@),
    {
        let utf8_text = utf8_lossy_decode(bytes);
        if looks_like_garbled_cjk(utf8_text.as_str()) {
            let (g, _had_errors) = decode_with_label("gbk", bytes);
            return crate::text::trim_str(g.as_str());
        }
        crate::text::trim_str(utf8_text.as_str())
    }
}

/// What came of running the converter: whether it exited successfully and
/// what it wrote to its standard output and error streams.
pub open spec fn conversion_result(success: bool, stdout: Seq<u8>, stderr: Seq<u8>) -> Result<
    Seq<char>,
    Seq<char>,
> {
    if !success {
        let err = trim(utf8_lossy(stderr));
        let detail = if err.len() > 0 {
            err
        } else {
            trim(utf8_lossy(stdout))
        };
        Err("MarkItDown 转换失败: "@ + detail)
    } else {
        let text = stdout_decoded(stdout);
        if trim(text).len() == 0 {
            Err("MarkItDown 返回了空内容，该文件可能不包含可提取的文本。"@)
        } else {
            Ok(text)
        }
    }
}

/// What came of `pip install markitdown`.
pub open spec fn install_result(success: bool, stderr: Seq<u8>) -> Result<Seq<char>, Seq<char>> {
    if success {
        Ok("MarkItDown 安装成功"@)
    } else {
        Err("pip install 失败: "@ + trim(utf8_lossy(stderr)))
    }
}

/// Whether MarkItDown is installed, as far as it has been probed: the
/// cached answer, whether an automatic installation was tried, and whether
/// the probe under way follows that installation.
#[derive(Debug, Clone, Copy, PartialEq, Eq, Structural)]
pub struct MarkitdownAvailability {
    pub cached: Option<bool>,
    pub install_attempted: bool,
    pub probing_after_install: bool,
}

/// What the caller reports to the availability check.
#[derive(Debug, Clone, Copy, PartialEq, Eq, Structural)]
pub enum AvailabilityEvent {
    /// `is_available` was called.
    Query,
    /// The converter command was probed; whether it ran.
    CommandFound(bool),
    /// The automatic installation finished (its outcome does not matter:
    /// the command is probed again).
    InstallFinished,
}

/// What the caller does next.
#[derive(Debug, Clone, Copy, PartialEq, Eq, Structural)]
pub enum AvailabilityAction {
    /// Answer the query.
    Report(bool),
    /// Probe the converter command.
    ProbeCommand,
    /// Try to install MarkItDown with pip.
    Install,
}

/// One step of the availability check: a cached answer is reported at
/// once; otherwise the command is probed, and when it is missing an
/// installation is tried once per process, after which the command is
/// probed again; the final answer is cached.
pub open spec fn availability_step(s: MarkitdownAvailability, e: AvailabilityEvent) -> (
    MarkitdownAvailability,
    AvailabilityAction,
) {
    match e {
        AvailabilityEvent::Query => match s.cached {
            Some(b) => (s, AvailabilityAction::Report(b)),
            None => (
                MarkitdownAvailability { probing_after_install: false, ..s },
                AvailabilityAction::ProbeCommand,
            ),
        },
        AvailabilityEvent::CommandFound(true) => (
            MarkitdownAvailability { cached: Some(true), probing_after_install: false, ..s },
            AvailabilityAction::Report(true),
        ),
        AvailabilityEvent::CommandFound(false) => if !s.probing_after_install && !s.install_attempted {
            (
                MarkitdownAvailability { install_attempted: true, ..s },
                AvailabilityAction::Install,
            )
        } else {
            (
                MarkitdownAvailability { cached: Some(false), probing_after_install: false, ..s },
                AvailabilityAction::Report(false),
            )
        },
        AvailabilityEvent::InstallFinished => (
            MarkitdownAvailability { probing_after_install: true, ..s },
            AvailabilityAction::ProbeCommand,
        ),
    }
}

impl MarkitdownAvailability {
    /// Nothing probed yet.
    pub fn new() -> (s: Self)
        ensures
            s.cached is None,
            !s.install_attempted,
            !s.probing_after_install,
    {
        MarkitdownAvailability { cached: None, install_attempted: false, probing_after_install: false }
    }

    /// Advances the availability check by one event (see
    /// `availability_step`).
    pub fn step(&mut self, event: AvailabilityEvent) -> (action: AvailabilityAction)
        ensures
            (*final(self), action) == availability_step(*old(self), event),
    {
        match event {
            AvailabilityEvent::Query => match self.cached {
                Some(b) => AvailabilityAction::Report(b),
                None => {
                    self.probing_after_install = false;
                    AvailabilityAction::ProbeCommand
                },
            },
            AvailabilityEvent::CommandFound(true) => {
                self.cached = Some(true);
                self.probing_after_install = false;
                AvailabilityAction::Report(true)
            },
            AvailabilityEvent::CommandFound(false) => {
                if !self.probing_after_install && !self.install_attempted {
                    self.install_attempted = true;
                    AvailabilityAction::Install
                } else {
                    self.cached = Some(false);
                    self.probing_after_install = false;
                    AvailabilityAction::Report(false)
                }
            },
            AvailabilityEvent::InstallFinished => {
                self.probing_after_install = true;
                AvailabilityAction::ProbeCommand
            },
        }
    }
}

/// An answer of the availability check is cached: after any step that
/// reports an answer, the next query reports the same answer without
/// probing.
pub proof fn availability_answer_is_cached(s: MarkitdownAvailability, e: AvailabilityEvent)
    ensures
        ({
            let (s2, a) = availability_step(s, e);
            a matches AvailabilityAction::Report(b) ==> availability_step(s2, AvailabilityEvent::Query)
                == (s2, AvailabilityAction::Report(b))
        }),
{
}

/// MarkItDown is installed automatically at most once: once an
/// installation was tried, no step asks for another, and the flag stays
/// set (only `reset_install_state` clears it).
pub proof fn install_is_tried_once(s: MarkitdownAvailability, e: AvailabilityEvent)
    requires
        s.install_attempted,
    ensures
        availability_step(s, e).1 != AvailabilityAction::Install,
        availability_step(s, e).0.install_attempted,
{
}

impl MarkitdownSkill {
    /// Forgets the cached availability, so that the next query probes again.
    pub fn reset_cache(state: &mut MarkitdownAvailability)
        ensures
            *final(state) == (MarkitdownAvailability { cached: None, ..*old(state) }),
    {
        state.cached = None;
    }

    /// Forgets the cached availability and allows another automatic
    /// installation.
    pub fn reset_install_state(state: &mut MarkitdownAvailability)
        ensures
            *final(state) == (MarkitdownAvailability {
                cached: None,
                install_attempted: false,
                ..*old(state)
            }),
    {
        Self::reset_cache(state);
        state.install_attempted = false;
    }

    /// The text converted by MarkItDown, from the outcome of running it (see
    /// `conversion_result`).
    pub fn convert(success: bool, stdout: &[u8], stderr: &[u8]) -> (r: Result<String, String>)
        requires
            stdout@.len() <= usize::MAX / 8,
        ensures
            match (r, conversion_result(success, stdout@, stderr@)) {
                (Ok(t), Ok(u)) => t@ == u,
                (Err(m), Err(n)) => m@ == n,
                _ => false,
            },
    {
        if !success {
            let err = crate::text::trim_str(utf8_lossy_decode(stderr).as_str());
            let detail = if !err.as_str().is_empty() {
                err
            } else {
                crate::text::trim_str(utf8_lossy_decode(stdout).as_str())
            };
            let mut m = String::from_str("MarkItDown 转换失败: ");
            push_str(&mut m, detail.as_str());
            return Err(m);
        }
        let text = Self::decode_stdout(stdout);
        if is_blank(&text) {
            return Err(String::from_str("MarkItDown 返回了空内容，该文件可能不包含可提取的文本。"));
        }
        Ok(text)
    }

    /// The outcome of the automatic installation, from the exit status and
    /// error output of pip.
    pub fn auto_install(success: bool, stderr: &[u8]) -> (r: Result<String, String>)
        ensures
            match (r, install_result(success, stderr@)) {
                (Ok(t), Ok(u)) => t@ == u,
                (Err(m), Err(n)) => m@ == n,
                _ => false,
            },
    {
        if success {
            Ok(String::from_str("MarkItDown 安装成功"))
        } else {
            let mut m = String::from_str("pip install 失败: ");
            let e = crate::text::trim_str(utf8_lossy_decode(stderr).as_str());
            push_str(&mut m, e.as_str());
            Err(m)
        }
    }
}

// ---------------------------------------------------------------------------
// Markdown
// ---------------------------------------------------------------------------

pub struct MdSkill;

/// A separator line: more than three characters, all of `-=*_#`.
pub open spec fn is_rule_line(t: Seq<char>) -> bool {
    t.len() > 3 && forall|k: int|
        0 <= k < t.len() ==> (#[trigger] t[k] == '-' || t[k] == '=' || t[k] == '*' || t[k] == '_'
            || t[k] == '#')
}

/// The trimmed lines that are not separator lines.
pub open spec fn kept_lines(ls: Seq<Seq<char>>) -> Seq<Seq<char>>
    decreases ls.len(),
{
    if ls.len() == 0 {
        seq![]
    } else {
        let rest = kept_lines(ls.drop_last());
        if is_rule_line(trim(ls.last())) {
            rest
        } else {
            rest.push(trim(ls.last()))
        }
    }
}

/// What `clean_markdown` returns: the lines trimmed, separator lines
/// dropped, joined by newlines.
pub open spec fn cleaned_markdown(content: Seq<char>) -> Seq<char> {
    join(kept_lines(lines(content)), seq!['\n'])
}

fn is_rule_line_exec(cs: &Vec<char>, lo: usize, hi: usize) -> (b: bool)
    requires
        lo <= hi <= cs.len(),
    ensures
        b == is_rule_line(cs@.subrange(lo as int, hi as int)),
{
    let ghost t = cs@.subrange(lo as int, hi as int);
    let mut k = lo;
    while k < hi
        invariant
            lo <= k <= hi <= cs.len(),
            t == cs@.subrange(lo as int, hi as int),
            forall|m: int|
                0 <= m < k - lo ==> (#[trigger] t[m] == '-' || t[m] == '=' || t[m] == '*' || t[m]
                    == '_' || t[m] == '#'),
        decreases hi - k,
    {
        let c = cs[k];
        if !(c == '-' || c == '=' || c == '*' || c == '_' || c == '#') {
            assert(t[k - lo] == c);
            return false;
        }
        k = k + 1;
    }
    hi - lo > 3
}

/// Appends `sep` and then `piece` to `out` unless it is the first piece.
fn push_joined(out: &mut Vec<char>, first: bool, sep: char, piece: &Vec<char>, lo: usize, hi: usize)
    requires
        lo <= hi <= piece.len(),
    ensures
        final(out)@ == (if first {
            old(out)@
        } else {
            old(out)@.push(sep)
        }) + piece@.subrange(lo as int, hi as int),
{
    if !first {
        out.push(sep);
    }
    let ghost before = out@;
    let mut k = lo;
    while k < hi
        invariant
            lo <= k <= hi <= piece.len(),
            out@ == before + piece@.subrange(lo as int, k as int),
        decreases hi - k,
    {
        out.push(piece[k]);
        k = k + 1;
        assert(piece@.subrange(lo as int, k as int) =~= piece@.subrange(lo as int, k - 1).push(
            piece@[k - 1],
        ));
    }
}

impl MdSkill {
    /// Trims every line and drops separator lines (`---`, `===`, `***` ...
    /// longer than three characters).
    pub fn clean_markdown(content: &str) -> (out: String)
        ensures
            out@ == cleaned_markdown(content@),
    {
        let cs = chars_of(content);
        let ls = lines_of(&cs);
        let ghost lv = vviews(ls@);
        let mut out: Vec<char> = Vec::new();
        let mut first = true;
        let mut i: usize = 0;
        while i < ls.len()
            invariant
                lv == vviews(ls@),
                lv == lines(cs@),
                i <= ls.len(),
                out@ == join(kept_lines(lv.take(i as int)), seq!['\n']),
                first == (kept_lines(lv.take(i as int)).len() == 0),
            decreases ls.len() - i,
        {
            let line = &ls[i];
            let (lo, hi) = trim_bounds(line, 0, line.len());
            proof {
                assert(line@.subrange(0, line@.len() as int) =~= line@);
                assert(lv.take(i + 1).drop_last() =~= lv.take(i as int));
                assert(lv.take(i + 1).last() == line@);
            }
            if !is_rule_line_exec(line, lo, hi) {
                let ghost before = kept_lines(lv.take(i as int));
                push_joined(&mut out, first, '\n', line, lo, hi);
                proof {
                    let now = before.push(trim(line@));
                    assert(now.drop_last() =~= before);
                    if !first {
                        assert(out@ =~= join(before, seq!['\n']) + seq!['\n'] + trim(line@));
                    } else {
                        assert(out@ =~= join(now, seq!['\n']));
                    }
                }
                first = false;
            }
            i = i + 1;
        }
        assert(lv.take(lv.len() as int) =~= lv);
        string_of(&out)
    }

    /// The text of a Markdown file, cleaned; an error when it is blank.
    pub fn text_from_content(content: &str) -> (r: Result<String, String>)
        ensures
            match r {
                Ok(t) => trim(content@).len() > 0 && t@ == cleaned_markdown(content@),
                Err(m) => trim(content@).len() == 0 && m@ == "Markdown 文件内容为空。"@,
            },
    {
        let owned = String::from_str(content);
        if is_blank(&owned) {
            return Err(String::from_str("Markdown 文件内容为空。"));
        }
        Ok(Self::clean_markdown(content))
    }

    /// The YAML front matter of a Markdown text: when the text (without
    /// leading whitespace) starts with `---`, the trimmed part up to the next
    /// `---` (or to the end).
    pub fn extract_frontmatter(content: &str) -> (r: Option<String>)
        ensures
            r == None::<String> <==> !starts_with(trim_start(content@), "---"@),
            r matches Some(f) ==> f@ == frontmatter(content@),
    {
        let cs = chars_of(content);
        let lo = crate::text::skip_ws_forward(&cs, 0, cs.len());
        assert(cs@.subrange(0, cs@.len() as int) =~= cs@);
        let t = slice_vec(&cs, lo, cs.len());
        assert(t@ =~= trim_start(cs@));
        let dashes = vec!['-', '-', '-'];
        assert(dashes@ =~= "---"@) by {
            reveal_strlit("---");
        }
        if !crate::text::matches_at(&t, &dashes, 0) {
            proof {
                if starts_with(t@, "---"@) {
                    assert(t@.subrange(0, 3) =~= t@.take(3));
                }
            }
            return None;
        }
        assert(t@.subrange(0, 3) =~= t@.take(3));
        let rest = slice_vec(&t, 3, t.len());
        assert(rest@ =~= t@.skip(3));
        let end = match find_vec(&rest, &dashes, 0) {
            Some(e) => {
                proof {
                    lemma_find_from(rest@, "---"@, 0);
                    assert(rest@.subrange(0, e as int) =~= rest@.take(e as int));
                }
                e
            },
            None => {
                assert(rest@.subrange(0, rest@.len() as int) =~= rest@);
                rest.len()
            },
        };
        let (a, b) = trim_bounds(&rest, 0, end);
        Some(string_of_range(&rest, a, b))
    }
}

/// The front matter of a text that starts with `---`.
pub open spec fn frontmatter(content: Seq<char>) -> Seq<char> {
    let rest = trim_start(content).skip(3);
    match find(rest, "---"@) {
        Some(e) => trim(rest.take(e)),
        None => trim(rest),
    }
}

// ---------------------------------------------------------------------------
// HTML
// ---------------------------------------------------------------------------

/// A byte with ASCII upper-case letters lowered.
pub open spec fn ascii_lower(b: u8) -> u8 {
    if 65 <= b <= 90 {
        (b + 32) as u8
    } else {
        b
    }
}

/// Whether the bytes from `i` on begin with `pat` (lower-case ASCII),
/// ignoring the case of ASCII letters.
pub open spec fn starts_ci(bs: Seq<u8>, i: int, pat: Seq<u8>) -> bool {
    0 <= i && i + pat.len() <= bs.len() && forall|k: int| 0 <= k < pat.len() ==> ascii_lower(#[trigger] bs[i + k]) == pat[k]
}

/// Whether `pat` occurs, ignoring ASCII case, at a position from `j` on
/// that ends by `hi`.
pub open spec fn occurs_ci(bs: Seq<u8>, j: int, hi: int, pat: Seq<u8>) -> bool
    decreases hi + 1 - j,
{
    if j < 0 || j + pat.len() > hi {
        false
    } else {
        starts_ci(bs, j, pat) || occurs_ci(bs, j + 1, hi, pat)
    }
}

/// The position of the last `<` before position `n`, if any.
pub open spec fn last_open(bs: Seq<u8>, n: int) -> Option<int>
    decreases n,
{
    if n <= 0 {
        None
    } else if bs[n - 1] == 60u8 {
        Some(n - 1)
    } else {
        last_open(bs, n - 1)
    }
}

/// The state of the HTML scan: the text so far, whether a tag is being
/// skipped, whether the scan is inside a script or a style element.
pub struct HtmlScan {
    pub text: Seq<char>,
    pub skip: bool,
    pub script: bool,
    pub style: bool,
}

/// Whether a byte after `<` starts a tag that separates words
/// (`/`, `p`, `b`, `d`, `h`, `l`, `t`).
pub open spec fn spacing_tag_byte(b: u8) -> bool {
    b == 47u8 || b == 112u8 || b == 98u8 || b == 100u8 || b == 104u8 || b == 108u8 || b == 116u8
}

/// Whether the tag that ends at the `>` at position `i` (from the last `<`
/// before it, or the start) ends a block: it holds `</p`, `</div`, `</h`,
/// `</li`, `</tr` or `<br`, ignoring ASCII case.
pub open spec fn ends_block(bs: Seq<u8>, i: int) -> bool {
    let s = match last_open(bs, i) {
        Some(k) => k,
        None => 0,
    };
    ||| occurs_ci(bs, s, i + 1, seq![60u8, 47u8, 112u8])
    ||| occurs_ci(bs, s, i + 1, seq![60u8, 47u8, 100u8, 105u8, 118u8])
    ||| occurs_ci(bs, s, i + 1, seq![60u8, 47u8, 104u8])
    ||| occurs_ci(bs, s, i + 1, seq![60u8, 47u8, 108u8, 105u8])
    ||| occurs_ci(bs, s, i + 1, seq![60u8, 47u8, 116u8, 114u8])
    ||| occurs_ci(bs, s, i + 1, seq![60u8, 98u8, 114u8])
}

pub open spec fn open_script() -> Seq<u8> {
    seq![60u8, 115u8, 99u8, 114u8, 105u8, 112u8, 116u8]
}

pub open spec fn close_script() -> Seq<u8> {
    seq![60u8, 47u8, 115u8, 99u8, 114u8, 105u8, 112u8, 116u8, 62u8]
}

pub open spec fn open_style() -> Seq<u8> {
    seq![60u8, 115u8, 116u8, 121u8, 108u8, 101u8]
}

pub open spec fn close_style() -> Seq<u8> {
    seq![60u8, 47u8, 115u8, 116u8, 121u8, 108u8, 101u8, 62u8]
}

/// One byte of the HTML scan. A `<` starts a tag to skip, notes where a
/// script or style element opens or closes, and, outside them, puts a space
/// before a word-separating tag when the text does not already end in a
/// space or line break. A `>` ends the skipped tag and puts a line break
/// after a block end. Any other byte, outside tags, scripts and styles, is
/// kept as the character of the same number.
pub open spec fn html_step(bs: Seq<u8>, i: int, s: HtmlScan) -> HtmlScan {
    let b = bs[i];
    if b == 60u8 {
        let (script, style) = if starts_ci(bs, i, open_script()) {
            (true, s.style)
        } else if starts_ci(bs, i, close_script()) {
            (false, s.style)
        } else if starts_ci(bs, i, open_style()) {
            (s.script, true)
        } else if starts_ci(bs, i, close_style()) {
            (s.script, false)
        } else {
            (s.script, s.style)
        };
        let space = !script && !style && i + 1 < bs.len() && spacing_tag_byte(bs[i + 1]) && s.text.len() > 0
            && s.text.last() != '\n' && s.text.last() != ' ';
        HtmlScan { text: if space { s.text.push(' ') } else { s.text }, skip: true, script, style }
    } else if b == 62u8 {
        HtmlScan { text: if ends_block(bs, i) { s.text.push('\n') } else { s.text }, skip: false, ..s }
    } else if !s.skip && !s.script && !s.style {
        HtmlScan { text: s.text.push(b as char), ..s }
    } else {
        s
    }
}

/// The HTML scan over the first `n` bytes.
pub open spec fn html_scan(bs: Seq<u8>, n: int) -> HtmlScan
    decreases n,
{
    if n <= 0 {
        HtmlScan { text: seq![], skip: false, script: false, style: false }
    } else {
        html_step(bs, n - 1, html_scan(bs, n - 1))
    }
}

/// The trimmed lines that are not blank.
pub open spec fn nonblank_lines(ls: Seq<Seq<char>>) -> Seq<Seq<char>>
    decreases ls.len(),
{
    if ls.len() == 0 {
        Seq::empty()
    } else {
        let rest = nonblank_lines(ls.drop_last());
        if trim(ls.last()).len() == 0 {
            rest
        } else {
            rest.push(trim(ls.last()))
        }
    }
}

/// The HTML entities decoded, one after the other.
pub open spec fn decode_entities(s: Seq<char>) -> Seq<char> {
    replace_all(
        replace_all(
            replace_all(
                replace_all(
                    replace_all(
                        replace_all(replace_all(s, "&amp;"@, "&"@), "&lt;"@, "<"@),
                        "&gt;"@,
                        ">"@,
                    ),
                    "&quot;"@,
                    "\""@,
                ),
                "&apos;"@,
                "'"@,
            ),
            "&nbsp;"@,
            " "@,
        ),
        "&#39;"@,
        "'"@,
    )
}

/// What `html_to_text` returns for the bytes of a document: the scanned
/// text's trimmed lines, blank ones dropped, joined by line breaks, with
/// the common entities decoded.
pub open spec fn html_text(bs: Seq<u8>) -> Seq<char> {
    decode_entities(join(nonblank_lines(lines(html_scan(bs, bs.len() as int).text)), seq!['\n']))
}

fn starts_ci_exec(bs: &[u8], i: usize, pat: &[u8]) -> (r: bool)
    ensures
        r == starts_ci(bs@, i as int, pat@),
{
    if i > bs.len() || pat.len() > bs.len() - i {
        return false;
    }
    let mut k: usize = 0;
    while k < pat.len()
        invariant
            i + pat.len() <= bs.len(),
            k <= pat.len(),
            forall|m: int| 0 <= m < k ==> ascii_lower(#[trigger] bs@[i + m]) == pat@[m],
        decreases pat.len() - k,
    {
        let c = bs[i + k];
        let l = if 65u8 <= c && c <= 90u8 {
            c + 32
        } else {
            c
        };
        if l != pat[k] {
            return false;
        }
        k = k + 1;
    }
    true
}

fn occurs_ci_exec(bs: &[u8], lo: usize, hi: usize, pat: &[u8]) -> (r: bool)
    requires
        hi <= bs.len(),
    ensures
        r == occurs_ci(bs@, lo as int, hi as int, pat@),
{
    let mut j = lo;
    while j <= hi && pat.len() <= hi - j
        invariant
            lo <= j,
            hi <= bs.len(),
            occurs_ci(bs@, lo as int, hi as int, pat@) == occurs_ci(bs@, j as int, hi as int, pat@),
        decreases hi - j,
    {
        if starts_ci_exec(bs, j, pat) {
            return true;
        }
        j = j + 1;
    }
    false
}

fn replace_lit(cs: &Vec<char>, pat: &str, rep: &str) -> (out: Vec<char>)
    requires
        pat@.len() > 0,
    ensures
        out@ == replace_all(cs@, pat@, rep@),
{
    let p = chars_of(pat);
    let r = chars_of(rep);
    replace_vec(cs, &p, &r)
}

impl HtmlSkill {
    /// The text of an HTML document (see `html_text`): tags, scripts and
    /// styles stripped, bytes kept one by one as characters, trimmed lines
    /// without blank ones joined by line breaks, and the common entities
    /// decoded.
    pub fn html_to_text(html: &str) -> (text: String)
        ensures
            text@ == html_text(html.spec_bytes()),
    {
        let bs = html.as_bytes();
        let os: [u8; 7] = [60u8, 115u8, 99u8, 114u8, 105u8, 112u8, 116u8];
        let cs_: [u8; 9] = [60u8, 47u8, 115u8, 99u8, 114u8, 105u8, 112u8, 116u8, 62u8];
        let ot: [u8; 6] = [60u8, 115u8, 116u8, 121u8, 108u8, 101u8];
        let ct: [u8; 8] = [60u8, 47u8, 115u8, 116u8, 121u8, 108u8, 101u8, 62u8];
        let p1: [u8; 3] = [60u8, 47u8, 112u8];
        let p2: [u8; 5] = [60u8, 47u8, 100u8, 105u8, 118u8];
        let p3: [u8; 3] = [60u8, 47u8, 104u8];
        let p4: [u8; 4] = [60u8, 47u8, 108u8, 105u8];
        let p5: [u8; 4] = [60u8, 47u8, 116u8, 114u8];
        let p6: [u8; 3] = [60u8, 98u8, 114u8];
        assert(os@ =~= open_script());
        assert(cs_@ =~= close_script());
        assert(ot@ =~= open_style());
        assert(ct@ =~= close_style());
        assert(p1@ =~= seq![60u8, 47u8, 112u8]);
        assert(p2@ =~= seq![60u8, 47u8, 100u8, 105u8, 118u8]);
        assert(p3@ =~= seq![60u8, 47u8, 104u8]);
        assert(p4@ =~= seq![60u8, 47u8, 108u8, 105u8]);
        assert(p5@ =~= seq![60u8, 47u8, 116u8, 114u8]);
        assert(p6@ =~= seq![60u8, 98u8, 114u8]);
        let mut cs: Vec<char> = Vec::new();
        let mut skip = false;
        let mut in_script = false;
        let mut in_style = false;
        let mut last_lt: Option<usize> = None;
        let mut i: usize = 0;
        while i < bs.len()
            invariant
                i <= bs@.len(),
                os@ == open_script(),
                cs_@ == close_script(),
                ot@ == open_style(),
                ct@ == close_style(),
                p1@ == seq![60u8, 47u8, 112u8],
                p2@ == seq![60u8, 47u8, 100u8, 105u8, 118u8],
                p3@ == seq![60u8, 47u8, 104u8],
                p4@ == seq![60u8, 47u8, 108u8, 105u8],
                p5@ == seq![60u8, 47u8, 116u8, 114u8],
                p6@ == seq![60u8, 98u8, 114u8],
                html_scan(bs@, i as int) == (HtmlScan { text: cs@, skip, script: in_script, style: in_style }),
                match last_lt {
                    Some(k) => last_open(bs@, i as int) == Some(k as int) && k < i,
                    None => last_open(bs@, i as int) is None,
                },
            decreases bs.len() - i,
        {
            let b = bs[i];
            if b == 60u8 {
                if starts_ci_exec(bs, i, &os) {
                    in_script = true;
                } else if starts_ci_exec(bs, i, &cs_) {
                    in_script = false;
                } else if starts_ci_exec(bs, i, &ot) {
                    in_style = true;
                } else if starts_ci_exec(bs, i, &ct) {
                    in_style = false;
                }
                if !in_script && !in_style && i + 1 < bs.len() {
                    let n = bs[i + 1];
                    if (n == 47u8 || n == 112u8 || n == 98u8 || n == 100u8 || n == 104u8 || n == 108u8 || n == 116u8)
                        && cs.len() > 0 && cs[cs.len() - 1] != '\n' && cs[cs.len() - 1] != ' ' {
                        cs.push(' ');
                    }
                }
                skip = true;
                last_lt = Some(i);
            } else if b == 62u8 {
                let s = match last_lt {
                    Some(k) => k,
                    None => 0,
                };
                let nl = occurs_ci_exec(bs, s, i + 1, &p1) || occurs_ci_exec(bs, s, i + 1, &p2) || occurs_ci_exec(
                    bs,
                    s,
                    i + 1,
                    &p3,
                ) || occurs_ci_exec(bs, s, i + 1, &p4) || occurs_ci_exec(bs, s, i + 1, &p5) || occurs_ci_exec(
                    bs,
                    s,
                    i + 1,
                    &p6,
                );
                if nl {
                    cs.push('\n');
                }
                skip = false;
            } else if !skip && !in_script && !in_style {
                cs.push(b as char);
            }
            i = i + 1;
        }
        assert(html_scan(bs@, bs@.len() as int).text == cs@);
        let ls = lines_of(&cs);
        let ghost lv = vviews(ls@);
        let mut out: Vec<char> = Vec::new();
        let mut first = true;
        let mut k: usize = 0;
        while k < ls.len()
            invariant
                lv == vviews(ls@),
                lv == lines(cs@),
                k <= ls.len(),
                out@ == join(nonblank_lines(lv.take(k as int)), seq!['\n']),
                first == (nonblank_lines(lv.take(k as int)).len() == 0),
            decreases ls.len() - k,
        {
            let line = &ls[k];
            let (lo, hi) = trim_bounds(line, 0, line.len());
            proof {
                assert(line@.subrange(0, line@.len() as int) =~= line@);
                assert(lv.take(k + 1).drop_last() =~= lv.take(k as int));
                assert(lv.take(k + 1).last() == line@);
            }
            if lo < hi {
                let ghost before = nonblank_lines(lv.take(k as int));
                push_joined(&mut out, first, '\n', line, lo, hi);
                proof {
                    let now = before.push(trim(line@));
                    assert(now.drop_last() =~= before);
                    if !first {
                        assert(out@ =~= join(before, seq!['\n']) + seq!['\n'] + trim(line@));
                    } else {
                        assert(out@ =~= join(now, seq!['\n']));
                    }
                }
                first = false;
            }
            k = k + 1;
        }
        assert(lv.take(lv.len() as int) =~= lv);
        proof {
            reveal_strlit("&amp;");
            reveal_strlit("&lt;");
            reveal_strlit("&gt;");
            reveal_strlit("&quot;");
            reveal_strlit("&apos;");
            reveal_strlit("&nbsp;");
            reveal_strlit("&#39;");
        }
        let t1 = replace_lit(&out, "&amp;", "&");
        let t2 = replace_lit(&t1, "&lt;", "<");
        let t3 = replace_lit(&t2, "&gt;", ">");
        let t4 = replace_lit(&t3, "&quot;", "\"");
        let t5 = replace_lit(&t4, "&apos;", "'");
        let t6 = replace_lit(&t5, "&nbsp;", " ");
        let t7 = replace_lit(&t6, "&#39;", "'");
        string_of(&t7)
    }

    /// The text of an HTML document, or an error when it has none.
    pub fn text_from_content(html: &str) -> (r: Result<String, String>)
        ensures
            match r {
                Ok(t) => trim(html_text(html.spec_bytes())).len() > 0 && t@ == html_text(
                    html.spec_bytes(),
                ),
                Err(m) => trim(html_text(html.spec_bytes())).len() == 0 && m@
                    == "HTML 文件中未找到可提取的文本内容。"@,
            },
    {
        let text = Self::html_to_text(html);
        if is_blank(&text) {
            return Err(String::from_str("HTML 文件中未找到可提取的文本内容。"));
        }
        Ok(text)
    }
}

} // verus!
