//! The text of Office documents (DOCX, PPTX): ZIP archives of XML parts
//! whose runs of text stand in `<w:t>` (Word) and `<a:t>` (DrawingML)
//! elements.
use vstd::prelude::*;
use crate::text::{
    chars_of, find_char, find_char_from, find_from, find_vec, is_ws, join, lemma_find_from,
    matches_at, occurs_at, push_all, push_range, push_str, slice_vec, string_of, trim,
    trim_bounds, vviews,
};
use crate::extractors::{DocxSkill, PptxSkill};
use crate::text::{decimal, push_decimal};
use zip::result::ZipError;

verus! {

// ---------------------------------------------------------------------------
// Elements
// ---------------------------------------------------------------------------

/// The text of an element that starts at `p`: `open`, any characters up to
/// the first `>`, the text up to the first `<`, and `close` there (what
/// `<T[^>]*>([^<]*)</T>` matches at `p`). Gives the bounds of the text.
pub open spec fn element_text_at(s: Seq<char>, open: Seq<char>, close: Seq<char>, p: int) -> Option<(int, int)> {
    if occurs_at(s, open, p) {
        match find_char_from(s, '>', p + open.len()) {
            Some(q) => match find_char_from(s, '<', q + 1) {
                Some(r) => if occurs_at(s, close, r) {
                    Some((q + 1, r))
                } else {
                    None
                },
                None => None,
            },
            None => None,
        }
    } else {
        None
    }
}

/// The texts of the elements found by scanning `s` from `p`, leftmost
/// first, each scan resuming after the previous element.
pub open spec fn element_texts_from(s: Seq<char>, open: Seq<char>, close: Seq<char>, p: int) -> Seq<Seq<char>>
    decreases s.len() - p,
{
    if p < 0 || p >= s.len() {
        seq![]
    } else {
        match element_text_at(s, open, close, p) {
            Some((a, b)) => {
                proof {
                    lemma_find_from(s, seq!['>'], p + open.len());
                    lemma_find_from(s, seq!['<'], a);
                }
                seq![s.subrange(a, b)] + element_texts_from(s, open, close, b + close.len())
            },
            None => element_texts_from(s, open, close, p + 1),
        }
    }
}

/// The end of an empty element `open ... />` that starts at `p` (what
/// `<T[^>]*/>` matches at `p`).
pub open spec fn empty_element_end(s: Seq<char>, open: Seq<char>, p: int) -> Option<int> {
    if occurs_at(s, open, p) {
        match find_char_from(s, '>', p + open.len()) {
            Some(q) => if q - 1 >= p + open.len() && s[q - 1] == '/' {
                Some(q + 1)
            } else {
                None
            },
            None => None,
        }
    } else {
        None
    }
}

/// `s` from `p` on without its empty `open` elements.
pub open spec fn without_empty_from(s: Seq<char>, open: Seq<char>, p: int) -> Seq<char>
    decreases s.len() - p,
{
    if p < 0 || p >= s.len() {
        seq![]
    } else {
        match empty_element_end(s, open, p) {
            Some(e) => {
                proof {
                    lemma_find_from(s, seq!['>'], p + open.len());
                }
                without_empty_from(s, open, e)
            },
            None => seq![s[p]] + without_empty_from(s, open, p + 1),
        }
    }
}

/// The pieces of `s` from `p` on, split at each `sep` (`str::split`).
pub open spec fn split_from(s: Seq<char>, sep: Seq<char>, p: int) -> Seq<Seq<char>>
    decreases s.len() - p + 1,
{
    if p < 0 || p > s.len() || sep.len() == 0 {
        seq![]
    } else {
        match find_from(s, sep, p) {
            Some(k) => {
                proof {
                    lemma_find_from(s, sep, p);
                }
                seq![s.subrange(p, k)] + split_from(s, sep, k + sep.len())
            },
            None => seq![s.subrange(p, s.len() as int)],
        }
    }
}

/// The pieces that are not empty, in order.
pub open spec fn non_empty(ps: Seq<Seq<char>>) -> Seq<Seq<char>>
    decreases ps.len(),
{
    if ps.len() == 0 {
        seq![]
    } else if ps.last().len() > 0 {
        non_empty(ps.drop_last()).push(ps.last())
    } else {
        non_empty(ps.drop_last())
    }
}

/// The text of a Word paragraph: its `<w:t>` texts, empty `<w:t .../>`
/// elements left out, joined and trimmed.
pub open spec fn docx_paragraph(para: Seq<char>) -> Seq<char> {
    trim(join(element_texts_from(without_empty_from(para, "<w:t"@, 0), "<w:t"@, "</w:t>"@, 0), seq![]))
}

/// The text of a Word document's XML: the non-empty texts of its
/// paragraphs (pieces between `</w:p>`), one per line.
pub open spec fn docx_text(xml: Seq<char>) -> Seq<char> {
    join(non_empty(split_from(xml, "</w:p>"@, 0).map_values(|p: Seq<char>| docx_paragraph(p))), "\n"@)
}

/// The text of a slide's XML: the non-empty trimmed texts of its `<a:t>`
/// elements, one per line.
pub open spec fn slide_text(xml: Seq<char>) -> Seq<char> {
    join(non_empty(element_texts_from(xml, "<a:t"@, "</a:t>"@, 0).map_values(|t: Seq<char>| trim(t))), "\n"@)
}

// ---------------------------------------------------------------------------
// Archives
// ---------------------------------------------------------------------------

/// The step at which reading an entry of a ZIP archive failed.
#[derive(Debug, Clone, Copy, PartialEq, Eq, Structural)]
pub enum ZipStep {
    /// The archive could not be opened.
    Open,
    /// The archive has no entry of that name.
    Find,
    /// The entry could not be read as UTF-8 text.
    Read,
}

/// The `Display` text of the error of `zip::ZipArchive::new` on the archive
/// held in `bytes`, if opening it fails.
pub uninterp spec fn zip_open_error(bytes: Seq<u8>) -> Option<Seq<char>>;

/// What the `zip` crate reads as entry `name` of the archive held in
/// `bytes` (once it opens): the entry's text, or the step that failed and
/// the error's `Display` text.
pub uninterp spec fn zip_entry_text(bytes: Seq<u8>, name: Seq<char>) -> Result<Seq<char>, (ZipStep, Seq<char>)>;

/// Calls `zip::ZipArchive::new` on the bytes, `ZipArchive::by_name_decrypt`
/// with an empty password and `Read::read_to_string` on the entry, giving
/// the step that failed and the error's text. `by_name_decrypt` sets the
/// password aside for an entry that is not encrypted; where it answers
/// `InvalidPassword` (an encrypted entry, or an entry whose AES field asks
/// for a password, on which `by_name` would panic) the error is the one
/// `by_name` gives for an encrypted entry, `ZipError::PASSWORD_REQUIRED`.
/// Two cases still read differently from `by_name`, as a fact of the `zip`
/// source: a ZipCrypto entry whose header check happens to accept the empty
/// password (about one in 256) is decoded instead of refused, and an AES
/// entry gives the crate's message that AES needs the `aes-crypto` feature.
#[verifier::external_body]
fn read_zip_entry(bytes: &[u8], name: &str) -> (r: Result<String, (ZipStep, String)>)
    ensures
        match (r, zip_open_error(bytes@)) {
            (Err((step, e)), Some(m)) => step == ZipStep::Open && e@ == m,
            (Ok(_), Some(_)) => false,
            (Ok(t), None) => zip_entry_text(bytes@, name@) == Ok::<Seq<char>, (ZipStep, Seq<char>)>(t@),
            (Err((step, e)), None) => step != ZipStep::Open && zip_entry_text(bytes@, name@) == Err::<
                Seq<char>,
                (ZipStep, Seq<char>),
            >((step, e@)),
        },
{
    let mut archive = match zip::ZipArchive::new(std::io::Cursor::new(bytes)) {
        Ok(a) => a,
        Err(e) => return Err((ZipStep::Open, e.to_string())),
    };
    let mut entry = match archive.by_name_decrypt(name, b"") {
        Ok(Ok(f)) => f,
        Ok(Err(_)) => return Err((ZipStep::Find, ZipError::UnsupportedArchive(ZipError::PASSWORD_REQUIRED).to_string())),
        Err(e) => return Err((ZipStep::Find, e.to_string())),
    };
    let mut text = String::new();
    match std::io::Read::read_to_string(&mut entry, &mut text) {
        Ok(_) => Ok(text),
        Err(e) => Err((ZipStep::Read, e.to_string())),
    }
}

/// What extracting the text of a DOCX document held in `bytes` gives.
pub open spec fn docx_result(bytes: Seq<u8>) -> Result<Seq<char>, Seq<char>> {
    match zip_open_error(bytes) {
        Some(e) => Err("无法解析 DOCX (ZIP) 文件: "@ + e),
        None => match zip_entry_text(bytes, "word/document.xml"@) {
            Err((step, e)) => if step == ZipStep::Find {
                Err("DOCX 文件结构异常，缺少 word/document.xml: "@ + e)
            } else {
                Err("读取 DOCX 内容失败: "@ + e)
            },
            Ok(xml) => if trim(docx_text(xml)).len() == 0 {
                Err("DOCX 文件中未找到文本内容。"@)
            } else {
                Ok(docx_text(xml))
            },
        },
    }
}

/// The name of the entry of slide `i` of a PPTX archive.
pub open spec fn slide_entry(i: nat) -> Seq<char> {
    "ppt/slides/slide"@ + decimal(i) + ".xml"@
}

/// The texts of slides `i`, `i + 1`, ... (each under a `--- 幻灯片 i ---`
/// heading, those without text left out), up to the first slide that the
/// archive lacks, or the error of a slide that cannot be read. Slides are
/// numbered up to `i32::MAX`.
pub open spec fn slides_from(bytes: Seq<u8>, i: int, acc: Seq<Seq<char>>) -> Result<Seq<Seq<char>>, Seq<char>>
    decreases 0x8000_0000 - i,
{
    if i < 1 || i > 0x7fff_ffff {
        Ok(acc)
    } else {
        match zip_entry_text(bytes, slide_entry(i as nat)) {
            Ok(xml) => slides_from(
                bytes,
                i + 1,
                if trim(slide_text(xml)).len() > 0 {
                    acc.push("--- 幻灯片 "@ + decimal(i as nat) + " ---\n"@ + slide_text(xml))
                } else {
                    acc
                },
            ),
            Err((step, e)) => if step == ZipStep::Read {
                Err("读取幻灯片 "@ + decimal(i as nat) + " 失败: "@ + e)
            } else {
                Ok(acc)
            },
        }
    }
}

/// What extracting the text of a PPTX presentation held in `bytes` gives.
pub open spec fn pptx_result(bytes: Seq<u8>) -> Result<Seq<char>, Seq<char>> {
    match zip_open_error(bytes) {
        Some(e) => Err("无法解析 PPTX (ZIP) 文件: "@ + e),
        None => match slides_from(bytes, 1, seq![]) {
            Err(m) => Err(m),
            Ok(parts) => if parts.len() == 0 {
                Err("PPTX 文件中未找到文本内容。"@)
            } else {
                Ok(join(parts, "\n\n"@))
            },
        },
    }
}

// ---------------------------------------------------------------------------
// Scanning
// ---------------------------------------------------------------------------

/// The bounds of the text of the element starting at `p`, if one does.
fn element_text(cs: &Vec<char>, open: &Vec<char>, close: &Vec<char>, p: usize) -> (r: Option<(usize, usize)>)
    ensures
        match r {
            Some((a, b)) => element_text_at(cs@, open@, close@, p as int) == Some((a as int, b as int)),
            None => element_text_at(cs@, open@, close@, p as int) is None,
        },
{
    let n = cs.len();
    if !matches_at(cs, open, p) {
        return None;
    }
    assert(p + open@.len() <= n);
    match find_char(cs, '>', p + open.len()) {
        Some(q) => match find_char(cs, '<', {
            proof {
                lemma_find_from(cs@, seq!['>'], p + open@.len());
            }
            q + 1
        }) {
            Some(r) => if matches_at(cs, close, r) {
                Some((q + 1, r))
            } else {
                None
            },
            None => None,
        },
        None => None,
    }
}

/// The texts of the elements of `cs` (see `element_texts_from`).
fn element_texts(cs: &Vec<char>, open: &Vec<char>, close: &Vec<char>) -> (out: Vec<Vec<char>>)
    requires
        open@.len() > 0,
    ensures
        vviews(out@) == element_texts_from(cs@, open@, close@, 0),
{
    let mut out: Vec<Vec<char>> = Vec::new();
    let mut p: usize = 0;
    while p < cs.len()
        invariant
            p <= cs@.len() + close@.len(),
            open@.len() > 0,
            vviews(out@) + element_texts_from(cs@, open@, close@, p as int) == element_texts_from(
                cs@,
                open@,
                close@,
                0,
            ),
        decreases cs.len() + close.len() - p,
    {
        match element_text(cs, open, close, p) {
            Some((a, b)) => {
                proof {
                    lemma_find_from(cs@, seq!['>'], p + open@.len());
                    lemma_find_from(cs@, seq!['<'], a as int);
                }
                let t = slice_vec(cs, a, b);
                let ghost before = vviews(out@);
                out.push(t);
                assert(vviews(out@) =~= before.push(cs@.subrange(a as int, b as int)));
                assert(vviews(out@) + element_texts_from(cs@, open@, close@, b + close@.len()) =~= before
                    + element_texts_from(cs@, open@, close@, p as int));
                p = b + close.len();
            },
            None => {
                p = p + 1;
            },
        }
    }
    assert(vviews(out@) =~= vviews(out@) + element_texts_from(cs@, open@, close@, p as int));
    out
}

/// `cs` without its empty `open` elements (see `without_empty_from`).
fn without_empty(cs: &Vec<char>, open: &Vec<char>) -> (out: Vec<char>)
    requires
        open@.len() > 0,
    ensures
        out@ == without_empty_from(cs@, open@, 0),
{
    let mut out: Vec<char> = Vec::new();
    let mut p: usize = 0;
    while p < cs.len()
        invariant
            p <= cs@.len() + 1,
            open@.len() > 0,
            out@ + without_empty_from(cs@, open@, p as int) == without_empty_from(cs@, open@, 0),
        decreases cs.len() + 1 - p,
    {
        let end = if matches_at(cs, open, p) {
            assert(p + open@.len() <= cs@.len());
            match find_char(cs, '>', p + open.len()) {
                Some(q) => if {
                    proof {
                        lemma_find_from(cs@, seq!['>'], p + open@.len());
                    }
                    q >= p + open.len() + 1
                } && cs[q - 1] == '/' {
                    Some(q + 1)
                } else {
                    None
                },
                None => None,
            }
        } else {
            None
        };
        proof {
            lemma_find_from(cs@, seq!['>'], p + open@.len());
        }
        assert(end matches Some(e) ==> empty_element_end(cs@, open@, p as int) == Some(e as int));
        assert(end is None ==> empty_element_end(cs@, open@, p as int) is None);
        match end {
            Some(e) => {
                p = e;
            },
            None => {
                let ghost before = out@;
                out.push(cs[p]);
                assert(out@ + without_empty_from(cs@, open@, p + 1) =~= before + without_empty_from(
                    cs@,
                    open@,
                    p as int,
                ));
                p = p + 1;
            },
        }
    }
    assert(out@ =~= out@ + without_empty_from(cs@, open@, p as int));
    out
}

/// Appends `piece` to `out`, after a line break unless `out` holds nothing
/// yet.
pub(crate) fn push_line(out: &mut Vec<char>, count: usize, piece: &Vec<char>, Ghost(parts): Ghost<Seq<Seq<char>>>)
    requires
        old(out)@ == join(parts, "\n"@),
        count == parts.len(),
        count < usize::MAX,
    ensures
        final(out)@ == join(parts.push(piece@), "\n"@),
{
    proof {
        reveal_strlit("\n");
    }
    if count > 0 {
        out.push('\n');
    }
    let mut i: usize = 0;
    let ghost start = out@;
    while i < piece.len()
        invariant
            i <= piece@.len(),
            out@ == start + piece@.take(i as int),
        decreases piece.len() - i,
    {
        out.push(piece[i]);
        assert(piece@.take(i + 1) =~= piece@.take(i as int).push(piece@[i as int]));
        i = i + 1;
    }
    assert(piece@.take(piece@.len() as int) =~= piece@);
    let ghost q = parts.push(piece@);
    assert(q.drop_last() =~= parts);
    if count > 0 {
        assert(out@ =~= join(parts, "\n"@) + "\n"@ + piece@);
    } else {
        assert(out@ =~= piece@);
    }
}

/// The trimmed characters of `cs`.
pub(crate) fn trimmed(cs: &Vec<char>) -> (out: Vec<char>)
    ensures
        out@ == trim(cs@),
{
    let (a, b) = trim_bounds(cs, 0, cs.len());
    assert(cs@.subrange(0, cs@.len() as int) =~= cs@);
    slice_vec(cs, a, b)
}

impl DocxSkill {
    /// The text of a Word document's XML (see `docx_text`); this never
    /// fails.
    pub fn extract_text_from_xml(xml: &str) -> (r: Result<String, String>)
        ensures
            r matches Ok(t) && t@ == docx_text(xml@),
    {
        let cs = chars_of(xml);
        let sep = chars_of("</w:p>");
        let open = chars_of("<w:t");
        let close = chars_of("</w:t>");
        proof {
            reveal_strlit("</w:p>");
            reveal_strlit("<w:t");
        }
        let ghost pieces = split_from(cs@, sep@, 0);
        let ghost paras = pieces.map_values(|p: Seq<char>| docx_paragraph(p));
        let mut out: Vec<char> = Vec::new();
        let mut count: usize = 0;
        let mut p: usize = 0;
        let mut done = false;
        let ghost mut seen: Seq<Seq<char>> = seq![];
        assert(out@ == join(non_empty(seen), "\n"@));
        while !done
            invariant
                sep@ == "</w:p>"@,
                sep@.len() == 6,
                open@ == "<w:t"@,
                open@.len() == 4,
                close@ == "</w:t>"@,
                p <= cs@.len(),
                pieces == split_from(cs@, sep@, 0),
                !done ==> seen + split_from(cs@, sep@, p as int) == pieces,
                done ==> seen == pieces,
                out@ == join(non_empty(seen.map_values(|q: Seq<char>| docx_paragraph(q))), "\n"@),
                count == non_empty(seen.map_values(|q: Seq<char>| docx_paragraph(q))).len(),
                count <= seen.len(),
                !done ==> seen.len() * 6 <= p,
            decreases cs@.len() + 1 - p + (if done { 0int } else { 1int }),
        {
            let (piece, next) = match find_vec(&cs, &sep, p) {
                Some(k) => {
                    proof {
                        lemma_find_from(cs@, sep@, p as int);
                    }
                    assert(k + sep@.len() <= cs@.len() == cs.len());
                    (slice_vec(&cs, p, k), Some(k + sep.len()))
                },
                None => (slice_vec(&cs, p, cs.len()), None),
            };
            let cleaned = without_empty(&piece, &open);
            let texts = element_texts(&cleaned, &open, &close);
            let mut joined: Vec<char> = Vec::new();
            let mut j: usize = 0;
            while j < texts.len()
                invariant
                    j <= texts@.len(),
                    joined@ == join(vviews(texts@).take(j as int), seq![]),
                decreases texts.len() - j,
            {
                let ghost before = vviews(texts@).take(j as int);
                push_all_chars(&mut joined, &texts[j]);
                proof {
                    let after = vviews(texts@).take(j + 1);
                    assert(after.drop_last() =~= before);
                    if j > 0 {
                        assert(joined@ =~= join(before, seq![]) + seq![] + texts@[j as int]@);
                    } else {
                        assert(joined@ =~= texts@[j as int]@);
                    }
                }
                j = j + 1;
            }
            assert(vviews(texts@).take(texts@.len() as int) =~= vviews(texts@));
            let para = trimmed(&joined);
            let ghost seen2 = seen.push(piece@);
            assert(seen2.map_values(|q: Seq<char>| docx_paragraph(q)) =~= seen.map_values(
                |q: Seq<char>| docx_paragraph(q),
            ).push(para@));
            let ghost m1 = seen.map_values(|q: Seq<char>| docx_paragraph(q));
            let ghost m2 = seen2.map_values(|q: Seq<char>| docx_paragraph(q));
            assert(m2.drop_last() =~= m1);
            assert(m2.last() == para@);
            if para.len() > 0 {
                push_line(&mut out, count, &para, Ghost(non_empty(m1)));
                count = count + 1;
            }
            assert(out@ == join(non_empty(m2), "\n"@));
            assert(count == non_empty(m2).len());
            proof {
                seen = seen2;
            }
            match next {
                Some(n) => {
                    p = n;
                },
                None => {
                    done = true;
                },
            }
        }
        assert(seen.map_values(|q: Seq<char>| docx_paragraph(q)) =~= paras);
        Ok(string_of(&out))
    }
}

/// Appends the characters of `piece` to `out`.
pub(crate) fn push_all_chars(out: &mut Vec<char>, piece: &Vec<char>)
    ensures
        final(out)@ == old(out)@ + piece@,
{
    let mut i: usize = 0;
    while i < piece.len()
        invariant
            i <= piece@.len(),
            out@ == old(out)@ + piece@.take(i as int),
        decreases piece.len() - i,
    {
        out.push(piece[i]);
        assert(piece@.take(i + 1) =~= piece@.take(i as int).push(piece@[i as int]));
        i = i + 1;
    }
    assert(piece@.take(piece@.len() as int) =~= piece@);
}

impl DocxSkill {
    /// The text of a DOCX document held in `bytes` (see `docx_result`).
    pub fn extract_text(bytes: &[u8]) -> (r: Result<String, String>)
        ensures
            match (r, docx_result(bytes@)) {
                (Ok(t), Ok(u)) => t@ == u,
                (Err(e), Err(m)) => e@ == m,
                _ => false,
            },
    {
        match read_zip_entry(bytes, "word/document.xml") {
            Err((step, e)) => {
                let mut m = match step {
                    ZipStep::Open => String::from_str("无法解析 DOCX (ZIP) 文件: "),
                    ZipStep::Find => String::from_str("DOCX 文件结构异常，缺少 word/document.xml: "),
                    ZipStep::Read => String::from_str("读取 DOCX 内容失败: "),
                };
                push_str(&mut m, e.as_str());
                Err(m)
            },
            Ok(xml) => {
                let text = match Self::extract_text_from_xml(xml.as_str()) {
                    Ok(t) => t,
                    Err(e) => return Err(e),
                };
                let cs = chars_of(text.as_str());
                let t = trimmed(&cs);
                if t.len() == 0 {
                    Err(String::from_str("DOCX 文件中未找到文本内容。"))
                } else {
                    Ok(text)
                }
            },
        }
    }
}

impl PptxSkill {
    /// The text of a slide's XML (see `slide_text`); this never fails.
    pub fn extract_text_from_slide_xml(xml: &str) -> (r: Result<String, String>)
        ensures
            r matches Ok(t) && t@ == slide_text(xml@),
    {
        let cs = chars_of(xml);
        let open = chars_of("<a:t");
        let close = chars_of("</a:t>");
        proof {
            reveal_strlit("<a:t");
        }
        let texts = element_texts(&cs, &open, &close);
        let ghost ts = vviews(texts@);
        let mut out: Vec<char> = Vec::new();
        let mut count: usize = 0;
        let mut i: usize = 0;
        while i < texts.len()
            invariant
                i <= texts@.len(),
                ts == vviews(texts@),
                out@ == join(non_empty(ts.take(i as int).map_values(|t: Seq<char>| trim(t))), "\n"@),
                count == non_empty(ts.take(i as int).map_values(|t: Seq<char>| trim(t))).len(),
                count <= i,
            decreases texts.len() - i,
        {
            let t = trimmed(&texts[i]);
            let ghost m1 = ts.take(i as int).map_values(|t: Seq<char>| trim(t));
            let ghost m2 = ts.take(i + 1).map_values(|t: Seq<char>| trim(t));
            assert(m2.drop_last() =~= m1);
            assert(m2.last() == t@);
            if t.len() > 0 {
                push_line(&mut out, count, &t, Ghost(non_empty(m1)));
                count = count + 1;
            }
            i = i + 1;
        }
        assert(ts.take(ts.len() as int) =~= ts);
        Ok(string_of(&out))
    }

    /// The text of a PPTX presentation held in `bytes` (see `pptx_result`).
    pub fn extract_text(bytes: &[u8]) -> (r: Result<String, String>)
        ensures
            match (r, pptx_result(bytes@)) {
                (Ok(t), Ok(u)) => t@ == u,
                (Err(e), Err(m)) => e@ == m,
                _ => false,
            },
    {
        proof {
            reveal_strlit("\n\n");
        }
        let mut out: Vec<char> = Vec::new();
        let mut count: usize = 0;
        let ghost mut parts: Seq<Seq<char>> = seq![];
        let mut i: u64 = 1;
        while i <= 0x7fff_ffff
            invariant
                1 <= i <= 0x8000_0000,
                zip_open_error(bytes@) is None || (i == 1 && parts.len() == 0),
                slides_from(bytes@, i as int, parts) == slides_from(bytes@, 1, seq![]),
                out@ == join(parts, "\n\n"@),
                count == parts.len(),
                count < i,
            ensures
                zip_open_error(bytes@) is None,
                slides_from(bytes@, 1, seq![]) == Ok::<Seq<Seq<char>>, Seq<char>>(parts),
                out@ == join(parts, "\n\n"@),
                count == parts.len(),
            decreases 0x8000_0000 - i,
        {
            let mut name = String::from_str("ppt/slides/slide");
            push_decimal(&mut name, i);
            push_str(&mut name, ".xml");
            match read_zip_entry(bytes, name.as_str()) {
                Ok(xml) => {
                    let st = match Self::extract_text_from_slide_xml(xml.as_str()) {
                        Ok(t) => t,
                        Err(e) => return Err(e),
                    };
                    let cs = chars_of(st.as_str());
                    let tt = trimmed(&cs);
                    if tt.len() > 0 {
                        let mut part = String::from_str("--- 幻灯片 ");
                        push_decimal(&mut part, i);
                        push_str(&mut part, " ---\n");
                        push_str(&mut part, st.as_str());
                        let pc = chars_of(part.as_str());
                        proof {
                            reveal_strlit("\n\n");
                        }
                        push_sep_line(&mut out, count, &pc, Ghost(parts));
                        proof {
                            parts = parts.push(pc@);
                        }
                        count = count + 1;
                    }
                },
                Err((step, e)) => {
                    match step {
                        ZipStep::Open => {
                            let mut m = String::from_str("无法解析 PPTX (ZIP) 文件: ");
                            push_str(&mut m, e.as_str());
                            return Err(m);
                        },
                        ZipStep::Read => {
                            let mut m = String::from_str("读取幻灯片 ");
                            push_decimal(&mut m, i);
                            push_str(&mut m, " 失败: ");
                            push_str(&mut m, e.as_str());
                            return Err(m);
                        },
                        ZipStep::Find => {
                            break;
                        },
                    }
                },
            }
            i = i + 1;
        }
        if count == 0 {
            Err(String::from_str("PPTX 文件中未找到文本内容。"))
        } else {
            Ok(string_of(&out))
        }
    }
}

/// Appends `piece` to `out`, after a blank line unless `out` holds nothing
/// yet.
pub(crate) fn push_sep_line(out: &mut Vec<char>, count: usize, piece: &Vec<char>, Ghost(parts): Ghost<Seq<Seq<char>>>)
    requires
        old(out)@ == join(parts, "\n\n"@),
        count == parts.len(),
    ensures
        final(out)@ == join(parts.push(piece@), "\n\n"@),
{
    proof {
        reveal_strlit("\n\n");
    }
    if count > 0 {
        out.push('\n');
        out.push('\n');
    }
    push_all_chars(out, piece);
    let ghost q = parts.push(piece@);
    assert(q.drop_last() =~= parts);
    if count > 0 {
        assert(out@ =~= join(parts, "\n\n"@) + "\n\n"@ + piece@);
    } else {
        assert(out@ =~= piece@);
    }
}

} // verus!
