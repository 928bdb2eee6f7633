//! Web search through several engines (SearXNG, Brave, Bing, DuckDuckGo):
//! the request each engine is sent, the results read from its JSON reply,
//! the links kept from result pages, and the text kept of a fetched page.
use vstd::prelude::*;
use vstd::string::StringSliceAdditionalSpecFns;
use crate::search::{url_encode, urlencoding};
use crate::text::{
    chars_of, decimal, is_ws, join, lines, lines_of, push_decimal, push_str, starts_with, string_of,
    string_of_range, trim, vviews,
};
use crate::office::{non_empty, push_all_chars, push_line, trimmed};
use crate::text::byte_len;
use crate::validator::{array_field, get, get_field, str_field, JsonValue};
use crate::gateway::seq_eq;

verus! {

/// One search result.
#[derive(Debug, Clone)]
pub struct SearchResult {
    pub title: String,
    pub url: String,
    pub snippet: String,
}

/// The text of a fetched web page.
#[derive(Debug, Clone)]
pub struct WebPageContent {
    pub title: String,
    pub url: String,
    pub content: String,
    pub content_length: usize,
}

/// The search engine to use and its settings.
#[derive(Debug, Clone)]
pub struct EngineConfig {
    pub engine: String,
    pub max_results: u32,
    pub searxng_url: String,
    pub brave_api_key: String,
    pub bing_api_key: String,
    pub bing_endpoint: String,
}

/// Searches the web and fetches pages.
pub struct WebSearchSkill;

/// The engine that a configuration names.
#[derive(Debug, Clone, Copy, PartialEq, Eq, Structural)]
pub enum SearchEngine {
    SearXng,
    Brave,
    Bing,
    DuckDuckGo,
}

// ---------------------------------------------------------------------------
// Text helpers
// ---------------------------------------------------------------------------

/// `s` without the characters `c` at its end (`trim_end_matches(c)`).
pub open spec fn trim_end_char(s: Seq<char>, c: char) -> Seq<char>
    decreases s.len(),
{
    if s.len() > 0 && s.last() == c {
        trim_end_char(s.drop_last(), c)
    } else {
        s
    }
}

/// `s` without the repeated `pat` at its start (`trim_start_matches(pat)`).
pub open spec fn trim_start_str(s: Seq<char>, pat: Seq<char>) -> Seq<char>
    decreases s.len(),
{
    if pat.len() > 0 && starts_with(s, pat) {
        trim_start_str(s.skip(pat.len() as int), pat)
    } else {
        s
    }
}

/// The text of a string field, or an empty text.
pub open spec fn text_or_empty(v: JsonValue, key: Seq<char>) -> Seq<char> {
    match str_field(v, key) {
        Some(t) => t,
        None => seq![],
    }
}

/// The view of a result: title, URL, snippet.
pub open spec fn result_view(r: SearchResult) -> (Seq<char>, Seq<char>, Seq<char>) {
    (r.title@, r.url@, r.snippet@)
}

/// The views of results.
pub open spec fn results_view(v: Seq<SearchResult>) -> Seq<(Seq<char>, Seq<char>, Seq<char>)> {
    v.map_values(|r: SearchResult| result_view(r))
}

fn trim_end_slashes(cs: &Vec<char>) -> (out: Vec<char>)
    ensures
        out@ == trim_end_char(cs@, '/'),
{
    let mut n = cs.len();
    assert(cs@.take(n as int) =~= cs@);
    while n > 0 && cs[n - 1] == '/'
        invariant
            n <= cs@.len(),
            trim_end_char(cs@.take(n as int), '/') == trim_end_char(cs@, '/'),
        decreases n,
    {
        assert(cs@.take(n as int).drop_last() =~= cs@.take(n - 1));
        n = n - 1;
    }
    let mut out: Vec<char> = Vec::new();
    let mut i: usize = 0;
    while i < n
        invariant
            i <= n <= cs@.len(),
            out@ == cs@.take(i as int),
        decreases n - i,
    {
        out.push(cs[i]);
        assert(cs@.take(i + 1) =~= cs@.take(i as int).push(cs@[i as int]));
        i = i + 1;
    }
    out
}

fn trim_start_slashes(cs: &Vec<char>) -> (out: Vec<char>)
    ensures
        out@ == trim_start_str(cs@, "//"@),
{
    proof {
        reveal_strlit("//");
    }
    let mut p: usize = 0;
    assert(cs@.skip(0) =~= cs@);
    while p < cs.len() && cs.len() - p >= 2 && cs[p] == '/' && cs[p + 1] == '/'
        invariant
            p <= cs@.len(),
            trim_start_str(cs@.skip(p as int), "//"@) == trim_start_str(cs@, "//"@),
        decreases cs.len() - p,
    {
        proof {
            reveal_strlit("//");
        }
        let ghost rest = cs@.skip(p as int);
        assert(rest.take(2) =~= "//"@);
        assert(rest.skip(2) =~= cs@.skip(p + 2));
        p = p + 2;
    }
    proof {
        reveal_strlit("//");
        let rest = cs@.skip(p as int);
        if starts_with(rest, "//"@) {
            assert(rest.take(2)[0] == cs@[p as int]);
            assert(rest.take(2)[1] == cs@[p + 1]);
        }
    }
    let mut out: Vec<char> = Vec::new();
    let mut i = p;
    while i < cs.len()
        invariant
            p <= i <= cs@.len(),
            out@ == cs@.subrange(p as int, i as int),
        decreases cs.len() - i,
    {
        out.push(cs[i]);
        assert(cs@.subrange(p as int, i + 1) =~= cs@.subrange(p as int, i as int).push(cs@[i as int]));
        i = i + 1;
    }
    assert(cs@.subrange(p as int, cs@.len() as int) =~= cs@.skip(p as int));
    out
}

/// The text of a string field, or an empty string.
fn field_text(v: &JsonValue, key: &str) -> (r: String)
    ensures
        r@ == text_or_empty(*v, key@),
{
    match get_field(v, key) {
        Some(JsonValue::Str(s)) => s.clone(),
        _ => String::new(),
    }
}

/// Whether `s` is the text `lit`.
fn is_str(s: &str, lit: &str) -> (b: bool)
    ensures
        b == (s@ == lit@),
{
    let a = chars_of(s);
    let l = chars_of(lit);
    seq_eq(&a, &l)
}

// ---------------------------------------------------------------------------
// Engines and requests
// ---------------------------------------------------------------------------

/// The engine that an engine name selects; DuckDuckGo by default.
pub open spec fn engine_of(name: Seq<char>) -> SearchEngine {
    if name == "searxng"@ {
        SearchEngine::SearXng
    } else if name == "brave"@ {
        SearchEngine::Brave
    } else if name == "bing"@ {
        SearchEngine::Bing
    } else {
        SearchEngine::DuckDuckGo
    }
}

/// The request URL of a SearXNG search, or the error when no instance is
/// configured.
pub open spec fn searxng_url(base: Seq<char>, query_bytes: Seq<u8>) -> Result<Seq<char>, Seq<char>> {
    let b = trim_end_char(trim(base), '/');
    if b.len() == 0 {
        Err("SearXNG 地址未配置，请在设置中填写 SearXNG 实例 URL"@)
    } else {
        Ok(b + "/search?q="@ + url_encode(query_bytes) + "&format=json&categories=general"@)
    }
}

/// The request URL of a Brave search, or the error when no key is
/// configured.
pub open spec fn brave_url(key: Seq<char>, max: u32, query_bytes: Seq<u8>) -> Result<Seq<char>, Seq<char>> {
    if trim(key).len() == 0 {
        Err("Brave Search API Key 未配置，请在设置中填写"@)
    } else {
        Ok("https://api.search.brave.com/res/v1/web/search?q="@ + url_encode(query_bytes) + "&count="@ + decimal(
            max as nat,
        ))
    }
}

/// The request URL of a Bing search (at most 50 results), or the error when
/// no key is configured.
pub open spec fn bing_url(key: Seq<char>, endpoint: Seq<char>, max: u32, query_bytes: Seq<u8>) -> Result<Seq<char>, Seq<char>> {
    if trim(key).len() == 0 {
        Err("Bing Search API Key 未配置，请在设置中填写"@)
    } else {
        let e = if trim(endpoint).len() == 0 {
            "https://api.bing.microsoft.com/"@
        } else {
            trim_end_char(trim(endpoint), '/')
        };
        Ok(e + "v7.0/search?q="@ + url_encode(query_bytes) + "&count="@ + decimal(
            if max <= 50 {
                max as nat
            } else {
                50
            },
        ) + "&mkt=zh-CN"@)
    }
}

/// The DuckDuckGo endpoints, tried in order: label, base URL, and whether
/// the reply is JSON.
pub open spec fn ddg_endpoints() -> Seq<(Seq<char>, Seq<char>, bool)> {
    seq![
        ("lite"@, "https://lite.duckduckgo.com/lite/"@, false),
        ("html"@, "https://html.duckduckgo.com/html/"@, false),
        ("duckduckgo"@, "https://duckduckgo.com/html/"@, false),
        ("api"@, "https://api.duckduckgo.com/"@, true),
    ]
}

/// The request URL of DuckDuckGo endpoint `i`.
pub open spec fn ddg_url(i: int, query_bytes: Seq<u8>) -> Seq<char> {
    let (_, base, json) = ddg_endpoints()[i];
    if json {
        base + "?q="@ + url_encode(query_bytes) + "&format=json&no_html=1&skip_disambig=1"@
    } else {
        base + "?q="@ + url_encode(query_bytes)
    }
}

/// The results of a fallback list read from a reply, as `results_of`.
pub open spec fn mapped_results(items: Seq<JsonValue>, t: Seq<char>, u: Seq<char>, s: Seq<char>) -> Seq<(Seq<char>, Seq<char>, Seq<char>)>
    decreases items.len(),
{
    if items.len() == 0 {
        seq![]
    } else {
        let r = mapped_results(items.drop_last(), t, u, s);
        let it = items.last();
        if text_or_empty(it, t).len() > 0 {
            r.push((text_or_empty(it, t), text_or_empty(it, u), text_or_empty(it, s)))
        } else {
            r
        }
    }
}

/// The first `n` items, or all of them.
pub open spec fn first_items(items: Seq<JsonValue>, n: nat) -> Seq<JsonValue> {
    if n < items.len() {
        items.take(n as int)
    } else {
        items
    }
}

/// What a SearXNG reply gives: the first `max` entries of `results` that
/// have a title, or an error.
pub open spec fn searxng_outcome(v: JsonValue, max: u32) -> Result<Seq<(Seq<char>, Seq<char>, Seq<char>)>, Seq<char>> {
    match array_field(v, "results"@) {
        None => Err("SearXNG 返回结果格式异常"@),
        Some(items) => {
            let rs = mapped_results(first_items(items, max as nat), "title"@, "url"@, "content"@);
            if rs.len() == 0 {
                Err("SearXNG 未返回任何结果"@)
            } else {
                Ok(rs)
            }
        },
    }
}

/// What a Brave reply gives: the entries of `web.results` that have a
/// title, or an error.
pub open spec fn brave_outcome(v: JsonValue) -> Result<Seq<(Seq<char>, Seq<char>, Seq<char>)>, Seq<char>> {
    match get(v, "web"@) {
        Some(w) => match array_field(w, "results"@) {
            Some(items) => {
                let rs = mapped_results(items, "title"@, "url"@, "description"@);
                if rs.len() == 0 {
                    Err("Brave Search 未返回任何结果"@)
                } else {
                    Ok(rs)
                }
            },
            None => Err("Brave Search 返回结果格式异常"@),
        },
        None => Err("Brave Search 返回结果格式异常"@),
    }
}

/// What a Bing reply gives: the entries of `webPages.value` that have a
/// name, or an error.
pub open spec fn bing_outcome(v: JsonValue) -> Result<Seq<(Seq<char>, Seq<char>, Seq<char>)>, Seq<char>> {
    match get(v, "webPages"@) {
        Some(w) => match array_field(w, "value"@) {
            Some(items) => {
                let rs = mapped_results(items, "name"@, "url"@, "snippet"@);
                if rs.len() == 0 {
                    Err("Bing Search 未返回任何结果"@)
                } else {
                    Ok(rs)
                }
            },
            None => Err("Bing Search 未返回网页结果"@),
        },
        None => Err("Bing Search 未返回网页结果"@),
    }
}

/// The related topics of a DuckDuckGo reply that have a text and a URL, in
/// order, while fewer than `max` results are held: titled by their first 80
/// characters.
pub open spec fn ddg_topics(items: Seq<JsonValue>, max: nat, acc: Seq<(Seq<char>, Seq<char>, Seq<char>)>) -> Seq<(Seq<char>, Seq<char>, Seq<char>)>
    decreases items.len(),
{
    if items.len() == 0 || acc.len() >= max {
        acc
    } else {
        let it = items[0];
        let next = match (str_field(it, "Text"@), str_field(it, "FirstURL"@)) {
            (Some(t), Some(u)) => if t.len() > 0 {
                acc.push((if t.len() <= 80 { t } else { t.take(80) }, u, t))
            } else {
                acc
            },
            _ => acc,
        };
        ddg_topics(items.skip(1), max, next)
    }
}

/// The abstract of a DuckDuckGo reply, when it has a heading, a URL and a
/// text that is not empty.
pub open spec fn ddg_abstract(v: JsonValue) -> Seq<(Seq<char>, Seq<char>, Seq<char>)> {
    match (str_field(v, "Heading"@), str_field(v, "AbstractURL"@), str_field(v, "AbstractText"@)) {
        (Some(h), Some(u), Some(t)) => if t.len() > 0 {
            seq![(h, u, t)]
        } else {
            seq![]
        },
        _ => seq![],
    }
}

/// What a DuckDuckGo API reply gives: its abstract, then its related
/// topics.
pub open spec fn ddg_api_outcome(v: JsonValue, max: u32) -> Seq<(Seq<char>, Seq<char>, Seq<char>)> {
    match array_field(v, "RelatedTopics"@) {
        Some(items) => ddg_topics(items, max as nat, ddg_abstract(v)),
        None => ddg_abstract(v),
    }
}

// ---------------------------------------------------------------------------
// Result pages and fetched pages
// ---------------------------------------------------------------------------

/// The URL of a result link of the DuckDuckGo lite page, from its `href`:
/// trimmed, without leading `//`, and with `https://` put before it unless
/// it is empty or starts with `http`.
pub open spec fn lite_url(href: Seq<char>) -> Seq<char> {
    let u = trim_start_str(trim(href), "//"@);
    if u.len() > 0 && !starts_with(u, "http"@) {
        "https://"@ + u
    } else {
        u
    }
}

/// A link of a result page taken as a result: not a fragment, site-relative
/// or script link, with a trimmed text of at least 3 bytes; relative URLs
/// get `https://`.
pub open spec fn generic_link(href: Seq<char>, text: Seq<char>) -> Option<(Seq<char>, Seq<char>, Seq<char>)> {
    if starts_with(href, "#"@) || (starts_with(href, "/"@) && !starts_with(href, "//"@)) || href.len() == 0
        || starts_with(href, "javascript:"@) {
        None
    } else if byte_len(trim(text)) < 3 {
        None
    } else {
        Some(
            (
                trim(text),
                if !starts_with(href, "http"@) {
                    "https://"@ + trim_start_str(href, "//"@)
                } else {
                    href
                },
                seq![],
            ),
        )
    }
}

/// The lines of a page's text, trimmed, the empty ones left out, joined by
/// line breaks.
pub open spec fn cleaned_text(raw: Seq<char>) -> Seq<char> {
    join(non_empty(lines(raw).map_values(|l: Seq<char>| trim(l))), "\n"@)
}

/// The text kept of a page: at most 30000 characters, with a note of the
/// full length when it is cut.
pub open spec fn page_text(raw: Seq<char>) -> Seq<char> {
    let c = cleaned_text(raw);
    if c.len() > 30000 {
        c.take(30000) + "...\n\n[内容已截断，原文共 "@ + decimal(c.len()) + " 字符]"@
    } else {
        c
    }
}

/// The title of a page: the text of its `title` element, else of its first
/// `h1`, trimmed; else `无标题`.
pub open spec fn page_title(title: Option<Seq<char>>, h1: Option<Seq<char>>) -> Seq<char> {
    match title {
        Some(t) => trim(t),
        None => match h1 {
            Some(h) => trim(h),
            None => "无标题"@,
        },
    }
}

/// The results of the result blocks of a DuckDuckGo HTML page (their title,
/// URL and snippet texts), in order while fewer than `max` are held: those
/// with a title, trimmed.
pub open spec fn html_rows(rows: Seq<(Seq<char>, Seq<char>, Seq<char>)>, max: nat, acc: Seq<(Seq<char>, Seq<char>, Seq<char>)>) -> Seq<(Seq<char>, Seq<char>, Seq<char>)>
    decreases rows.len(),
{
    if rows.len() == 0 || acc.len() >= max {
        acc
    } else {
        let (t, u, sn) = rows[0];
        html_rows(rows.skip(1), max, if trim(t).len() > 0 { acc.push((trim(t), trim(u), trim(sn))) } else { acc })
    }
}

/// The results of the links of a DuckDuckGo lite page (their text and
/// `href`, numbered from `i`), in order while fewer than `max` are held:
/// those with a title, with the `i`-th snippet.
pub open spec fn lite_rows(links: Seq<(Seq<char>, Seq<char>)>, snippets: Seq<Seq<char>>, i: int, max: nat, acc: Seq<(Seq<char>, Seq<char>, Seq<char>)>) -> Seq<(Seq<char>, Seq<char>, Seq<char>)>
    decreases links.len() - i,
{
    if i < 0 || i >= links.len() || acc.len() >= max {
        acc
    } else {
        let (text, href) = links[i];
        let next = if trim(text).len() > 0 {
            acc.push((trim(text), lite_url(href), if i < snippets.len() { snippets[i] } else { seq![] }))
        } else {
            acc
        };
        lite_rows(links, snippets, i + 1, max, next)
    }
}

/// The links of a page taken as results (see `generic_link`), in order
/// while fewer than `max` are held.
pub open spec fn generic_rows(links: Seq<(Seq<char>, Seq<char>)>, max: nat, acc: Seq<(Seq<char>, Seq<char>, Seq<char>)>) -> Seq<(Seq<char>, Seq<char>, Seq<char>)>
    decreases links.len(),
{
    if links.len() == 0 || acc.len() >= max {
        acc
    } else {
        let (href, text) = links[0];
        generic_rows(links.skip(1), max, match generic_link(href, text) { Some(r) => acc.push(r), None => acc })
    }
}

/// The views of pairs of strings.
pub open spec fn pairs_view(v: Seq<(String, String)>) -> Seq<(Seq<char>, Seq<char>)> {
    v.map_values(|p: (String, String)| (p.0@, p.1@))
}

/// The views of triples of strings.
pub open spec fn triples_view(v: Seq<(String, String, String)>) -> Seq<(Seq<char>, Seq<char>, Seq<char>)> {
    v.map_values(|p: (String, String, String)| (p.0@, p.1@, p.2@))
}

/// The views of strings.
pub open spec fn strings_view(v: Seq<String>) -> Seq<Seq<char>> {
    v.map_values(|s: String| s@)
}

/// Whether `cs` begins with `lit`.
fn begins(cs: &Vec<char>, lit: &str) -> (b: bool)
    ensures
        b == starts_with(cs@, lit@),
{
    crate::text::has_prefix(cs, lit)
}

/// Reads the entries of a result list that have a title.
fn results_of(items: &Vec<JsonValue>, n: usize, t: &str, u: &str, s: &str) -> (out: Vec<SearchResult>)
    requires
        n <= items@.len(),
    ensures
        results_view(out@) == mapped_results(items@.take(n as int), t@, u@, s@),
{
    let mut out: Vec<SearchResult> = Vec::new();
    let mut i: usize = 0;
    while i < n
        invariant
            i <= n <= items@.len(),
            results_view(out@) == mapped_results(items@.take(i as int), t@, u@, s@),
        decreases n - i,
    {
        assert(items@.take(i + 1).drop_last() =~= items@.take(i as int));
        assert(items@.take(i + 1).last() == items@[i as int]);
        let title = field_text(&items[i], t);
        if title.as_str().is_empty() {
        } else {
            let url = field_text(&items[i], u);
            let snippet = field_text(&items[i], s);
            let ghost before = results_view(out@);
            out.push(SearchResult { title, url, snippet });
            assert(results_view(out@) =~= before.push(result_view(out@.last())));
        }
        i = i + 1;
    }
    out
}

/// What `scraper` finds in a page for a CSS selector: for each element of
/// `Html::parse_document(html)` that `Selector::parse(selector)` matches, in
/// document order, its text nodes joined by `sep`; nothing when the
/// selector does not parse (a function of the three texts alone).
pub uninterp spec fn element_texts(html: Seq<char>, selector: Seq<char>, sep: Seq<char>) -> Seq<Seq<char>>;

/// Calls `Html::parse_document`, `Selector::parse` and `Html::select`, and
/// joins the `text()` of each element found.
#[verifier::external_body]
fn select_texts(html: &str, selector: &str, sep: &str) -> (r: Vec<String>)
    ensures
        strings_view(r@) == element_texts(html@, selector@, sep@),
{
    let doc = scraper::Html::parse_document(html);
    match scraper::Selector::parse(selector) {
        Ok(sel) => doc.select(&sel).map(|el| el.text().collect::<Vec<_>>().join(sep)).collect(),
        Err(_) => Vec::new(),
    }
}

/// What `scraper` finds in a page for a CSS selector of links: for each
/// element matched, in document order, its text nodes joined and its
/// `href` attribute (empty when it has none); nothing when the selector does
/// not parse (a function of the two texts alone).
pub uninterp spec fn element_links(html: Seq<char>, selector: Seq<char>) -> Seq<(Seq<char>, Seq<char>)>;

/// Calls `Html::parse_document`, `Selector::parse` and `Html::select`, and
/// reads the `text()` and the `href` attribute of each element found.
#[verifier::external_body]
fn select_links(html: &str, selector: &str) -> (r: Vec<(String, String)>)
    ensures
        pairs_view(r@) == element_links(html@, selector@),
{
    let doc = scraper::Html::parse_document(html);
    match scraper::Selector::parse(selector) {
        Ok(sel) => doc.select(&sel).map(|el| (el.text().collect::<String>(), el.value().attr("href").unwrap_or("").to_string())).collect(),
        Err(_) => Vec::new(),
    }
}

/// What `scraper` finds in a page for blocks and three parts of them: for
/// each element that `outer` matches, in document order, the joined text of
/// the first element within it that each of `a`, `b` and `c` matches (empty
/// when none does); nothing when one of the selectors does not parse (a
/// function of the five texts alone).
pub uninterp spec fn element_blocks(html: Seq<char>, outer: Seq<char>, a: Seq<char>, b: Seq<char>, c: Seq<char>) -> Seq<(Seq<char>, Seq<char>, Seq<char>)>;

/// Calls `Html::parse_document`, `Selector::parse` on the four selectors,
/// `Html::select` for the blocks and `ElementRef::select` within each.
#[verifier::external_body]
fn select_blocks(html: &str, outer: &str, a: &str, b: &str, c: &str) -> (r: Vec<(String, String, String)>)
    ensures
        triples_view(r@) == element_blocks(html@, outer@, a@, b@, c@),
{
    let doc = scraper::Html::parse_document(html);
    let (Ok(o), Ok(sa), Ok(sb), Ok(sc)) = (scraper::Selector::parse(outer), scraper::Selector::parse(a), scraper::Selector::parse(b), scraper::Selector::parse(c)) else { return Vec::new() };
    let first = |el: &scraper::ElementRef, s: &scraper::Selector| el.select(s).next().map(|x| x.text().collect::<String>()).unwrap_or_default();
    doc.select(&o).map(|el| (first(&el, &sa), first(&el, &sb), first(&el, &sc))).collect()
}

/// The first of some texts, if any.
pub open spec fn first_of(v: Seq<Seq<char>>) -> Option<Seq<char>> {
    if v.len() > 0 {
        Some(v[0])
    } else {
        None
    }
}

/// The text a fetched page's content is read from: that of its first
/// `article` element, else its first `main`, else its `body`, else its root
/// element, text nodes joined by spaces.
pub open spec fn content_root_text(html: Seq<char>) -> Seq<char> {
    match first_of(element_texts(html, "article"@, " "@)) {
        Some(t) => t,
        None => match first_of(element_texts(html, "main"@, " "@)) {
            Some(t) => t,
            None => match first_of(element_texts(html, "body"@, " "@)) {
                Some(t) => t,
                None => match first_of(element_texts(html, ":root"@, " "@)) {
                    Some(t) => t,
                    None => seq![],
                },
            },
        },
    }
}

/// Each pair with its two parts swapped.
pub open spec fn swapped(v: Seq<(Seq<char>, Seq<char>)>) -> Seq<(Seq<char>, Seq<char>)> {
    v.map_values(|p: (Seq<char>, Seq<char>)| (p.1, p.0))
}

fn first_text(v: &Vec<String>) -> (r: Option<&str>)
    ensures
        match (r, first_of(strings_view(v@))) {
            (Some(t), Some(u)) => t@ == u,
            (None, None) => true,
            _ => false,
        },
{
    if v.len() > 0 {
        Some(v[0].as_str())
    } else {
        None
    }
}

impl WebSearchSkill {
    /// The engine that a configuration selects (see `engine_of`).
    pub fn engine(config: &EngineConfig) -> (e: SearchEngine)
        ensures
            e == engine_of(config.engine@),
    {
        let name = config.engine.as_str();
        if is_str(name, "searxng") {
            SearchEngine::SearXng
        } else if is_str(name, "brave") {
            SearchEngine::Brave
        } else if is_str(name, "bing") {
            SearchEngine::Bing
        } else {
            SearchEngine::DuckDuckGo
        }
    }

    /// The request URL of a SearXNG search (see `searxng_url`).
    pub fn searxng_request(config: &EngineConfig, query: &str) -> (r: Result<String, String>)
        ensures
            match (r, searxng_url(config.searxng_url@, query.spec_bytes())) {
                (Ok(a), Ok(b)) => a@ == b,
                (Err(a), Err(b)) => a@ == b,
                _ => false,
            },
    {
        let cs = chars_of(config.searxng_url.as_str());
        let base = trim_end_slashes(&trimmed(&cs));
        if base.len() == 0 {
            return Err(String::from_str("SearXNG 地址未配置，请在设置中填写 SearXNG 实例 URL"));
        }
        let mut u = string_of(&base);
        push_str(&mut u, "/search?q=");
        let q = urlencoding(query);
        push_str(&mut u, q.as_str());
        push_str(&mut u, "&format=json&categories=general");
        Ok(u)
    }

    /// The request URL of a Brave search (see `brave_url`).
    pub fn brave_request(config: &EngineConfig, query: &str) -> (r: Result<String, String>)
        ensures
            match (r, brave_url(config.brave_api_key@, config.max_results, query.spec_bytes())) {
                (Ok(a), Ok(b)) => a@ == b,
                (Err(a), Err(b)) => a@ == b,
                _ => false,
            },
    {
        let cs = chars_of(config.brave_api_key.as_str());
        if trimmed(&cs).len() == 0 {
            return Err(String::from_str("Brave Search API Key 未配置，请在设置中填写"));
        }
        let mut u = String::from_str("https://api.search.brave.com/res/v1/web/search?q=");
        let q = urlencoding(query);
        push_str(&mut u, q.as_str());
        push_str(&mut u, "&count=");
        push_decimal(&mut u, config.max_results as u64);
        Ok(u)
    }

    /// The request URL of a Bing search (see `bing_url`).
    pub fn bing_request(config: &EngineConfig, query: &str) -> (r: Result<String, String>)
        ensures
            match (r, bing_url(config.bing_api_key@, config.bing_endpoint@, config.max_results, query.spec_bytes())) {
                (Ok(a), Ok(b)) => a@ == b,
                (Err(a), Err(b)) => a@ == b,
                _ => false,
            },
    {
        let kc = chars_of(config.bing_api_key.as_str());
        if trimmed(&kc).len() == 0 {
            return Err(String::from_str("Bing Search API Key 未配置，请在设置中填写"));
        }
        let ec = trimmed(&chars_of(config.bing_endpoint.as_str()));
        let mut u = if ec.len() == 0 {
            String::from_str("https://api.bing.microsoft.com/")
        } else {
            string_of(&trim_end_slashes(&ec))
        };
        push_str(&mut u, "v7.0/search?q=");
        let q = urlencoding(query);
        push_str(&mut u, q.as_str());
        push_str(&mut u, "&count=");
        let n: u64 = if config.max_results <= 50 {
            config.max_results as u64
        } else {
            50
        };
        push_decimal(&mut u, n);
        push_str(&mut u, "&mkt=zh-CN");
        Ok(u)
    }

    /// The request URL of DuckDuckGo endpoint `i` (see `ddg_url`).
    pub fn ddg_request(i: usize, query: &str) -> (r: String)
        requires
            i < 4,
        ensures
            r@ == ddg_url(i as int, query.spec_bytes()),
    {
        let mut u = if i == 0 {
            String::from_str("https://lite.duckduckgo.com/lite/")
        } else if i == 1 {
            String::from_str("https://html.duckduckgo.com/html/")
        } else if i == 2 {
            String::from_str("https://duckduckgo.com/html/")
        } else {
            String::from_str("https://api.duckduckgo.com/")
        };
        push_str(&mut u, "?q=");
        let q = urlencoding(query);
        push_str(&mut u, q.as_str());
        if i == 3 {
            push_str(&mut u, "&format=json&no_html=1&skip_disambig=1");
        }
        u
    }

    /// The URL of a result link of the lite page (see `lite_url`).
    pub fn lite_result_url(href: &str) -> (r: String)
        ensures
            r@ == lite_url(href@),
    {
        let cs = chars_of(href);
        let u = trim_start_slashes(&trimmed(&cs));
        if u.len() > 0 && !begins(&u, "http") {
            let mut r = String::from_str("https://");
            let us = string_of(&u);
            push_str(&mut r, us.as_str());
            r
        } else {
            string_of(&u)
        }
    }

    /// A link of a result page taken as a result (see `generic_link`).
    pub fn generic_link_result(href: &str, text: &str) -> (r: Option<SearchResult>)
        ensures
            match (r, generic_link(href@, text@)) {
                (Some(a), Some(b)) => result_view(a) == b,
                (None, None) => true,
                _ => false,
            },
    {
        let hc = chars_of(href);
        if begins(&hc, "#") || (begins(&hc, "/") && !begins(&hc, "//")) || hc.len() == 0 || begins(&hc, "javascript:") {
            return None;
        }
        let title = string_of(&trimmed(&chars_of(text)));
        if title.as_str().as_bytes().len() < 3 {
            return None;
        }
        let url = if !begins(&hc, "http") {
            let mut r = String::from_str("https://");
            let t = string_of(&trim_start_slashes(&hc));
            push_str(&mut r, t.as_str());
            r
        } else {
            String::from_str(href)
        };
        Some(SearchResult { title, url, snippet: String::new() })
    }

    /// The content kept of a fetched page (see `page_title` and
    /// `page_text`), from the texts of its `title` element, its first `h1`
    /// and its main content.
    pub fn page_content(url: &str, title: Option<&str>, h1: Option<&str>, raw_text: &str) -> (r: WebPageContent)
        ensures
            r.title@ == page_title(
                match title {
                    Some(t) => Some(t@),
                    None => None,
                },
                match h1 {
                    Some(h) => Some(h@),
                    None => None,
                },
            ),
            r.url@ == url@,
            r.content@ == page_text(raw_text@),
            r.content_length == byte_len(r.content@),
    {
        let t = match title {
            Some(t) => string_of(&trimmed(&chars_of(t))),
            None => match h1 {
                Some(h) => string_of(&trimmed(&chars_of(h))),
                None => String::from_str("无标题"),
            },
        };
        let cs = chars_of(raw_text);
        let ls = lines_of(&cs);
        let ghost lv = vviews(ls@).map_values(|l: Seq<char>| trim(l));
        let mut out: Vec<char> = Vec::new();
        let mut count: usize = 0;
        let mut i: usize = 0;
        while i < ls.len()
            invariant
                i <= ls@.len(),
                lv == vviews(ls@).map_values(|l: Seq<char>| trim(l)),
                out@ == join(non_empty(lv.take(i as int)), "\n"@),
                count == non_empty(lv.take(i as int)).len(),
                count <= i,
            decreases ls.len() - i,
        {
            let l = trimmed(&ls[i]);
            assert(lv.take(i + 1).drop_last() =~= lv.take(i as int));
            assert(lv.take(i + 1).last() == l@);
            if l.len() > 0 {
                push_line(&mut out, count, &l, Ghost(non_empty(lv.take(i as int))));
                count = count + 1;
            }
            i = i + 1;
        }
        assert(lv.take(ls@.len() as int) =~= lv);
        assert(vviews(ls@) == lines(raw_text@));
        let content = if out.len() > 30000 {
            let mut c = string_of_range(&out, 0, 30000);
            assert(out@.subrange(0, 30000) =~= out@.take(30000));
            push_str(&mut c, "...\n\n[内容已截断，原文共 ");
            push_decimal(&mut c, out.len() as u64);
            push_str(&mut c, " 字符]");
            c
        } else {
            string_of(&out)
        };
        let n = content.as_str().as_bytes().len();
        WebPageContent { title: t, url: String::from_str(url), content, content_length: n }
    }

    /// The results of a DuckDuckGo HTML page: its `.result` blocks, with the
    /// texts of their title link, URL and snippet (see `html_rows`).
    pub fn parse_html_results(html: &str, max_results: u32) -> (r: Vec<SearchResult>)
        ensures
            results_view(r@) == html_rows(
                element_blocks(html@, ".result"@, ".result__title a.result__a"@, ".result__url"@, ".result__snippet"@),
                max_results as nat,
                seq![],
            ),
    {
        let rows = select_blocks(html, ".result", ".result__title a.result__a", ".result__url", ".result__snippet");
        Self::html_results(&rows, max_results)
    }

    /// The results of a DuckDuckGo lite page: its `a.result-link` links with
    /// the trimmed `.result-snippet` texts, or, when none of them has a
    /// title, all its links (see `lite_results`).
    pub fn parse_lite_results(html: &str, max_results: u32) -> (r: Vec<SearchResult>)
        ensures
            ({
                let links = element_links(html@, "a.result-link"@);
                let snippets = element_texts(html@, ".result-snippet"@, ""@).map_values(|s: Seq<char>| trim(s));
                let rows = lite_rows(links, snippets, 0, max_results as nat, seq![]);
                results_view(r@) == if rows.len() > 0 {
                    rows
                } else {
                    generic_rows(swapped(element_links(html@, "a[href]"@)), max_results as nat, seq![])
                }
            }),
    {
        let links = select_links(html, "a.result-link");
        let raw = select_texts(html, ".result-snippet", "");
        let mut snippets: Vec<String> = Vec::new();
        let mut i: usize = 0;
        while i < raw.len()
            invariant
                i <= raw@.len(),
                strings_view(snippets@) == strings_view(raw@).take(i as int).map_values(|s: Seq<char>| trim(s)),
            decreases raw.len() - i,
        {
            let ghost before = strings_view(snippets@);
            let s = string_of(&trimmed(&chars_of(raw[i].as_str())));
            assert(s@ == trim(raw@[i as int]@));
            snippets.push(s);
            proof {
                let rv = strings_view(raw@);
                assert(rv.take(i + 1) =~= rv.take(i as int).push(raw@[i as int]@));
                assert(rv.take(i + 1).map_values(|s: Seq<char>| trim(s)) =~= rv.take(i as int).map_values(
                    |s: Seq<char>| trim(s),
                ).push(trim(raw@[i as int]@)));
                assert(strings_view(snippets@) =~= before.push(s@));
            }
            i = i + 1;
        }
        assert(strings_view(raw@).take(raw@.len() as int) =~= strings_view(raw@));
        let all = select_links(html, "a[href]");
        let mut flipped: Vec<(String, String)> = Vec::new();
        let mut j: usize = 0;
        while j < all.len()
            invariant
                j <= all@.len(),
                pairs_view(flipped@) == swapped(pairs_view(all@).take(j as int)),
            decreases all.len() - j,
        {
            let ghost before = pairs_view(flipped@);
            let h = all[j].1.clone();
            let x = all[j].0.clone();
            flipped.push((h, x));
            proof {
                let av = pairs_view(all@);
                assert(av.take(j + 1) =~= av.take(j as int).push(av[j as int]));
                assert(swapped(av.take(j + 1)) =~= swapped(av.take(j as int)).push((av[j as int].1, av[j as int].0)));
                assert(pairs_view(flipped@) =~= before.push((h@, x@)));
            }
            j = j + 1;
        }
        assert(pairs_view(all@).take(all@.len() as int) =~= pairs_view(all@));
        Self::lite_results(&links, &snippets, &flipped, max_results)
    }

    /// The content kept of a fetched page from its HTML: the text of its
    /// `title` element, else of its first `h1`, and the text of its main
    /// content (see `page_content` and `content_root_text`).
    pub fn page_content_from_html(url: &str, html: &str) -> (r: WebPageContent)
        ensures
            r.title@ == page_title(
                first_of(element_texts(html@, "title"@, ""@)),
                first_of(element_texts(html@, "h1"@, ""@)),
            ),
            r.url@ == url@,
            r.content@ == page_text(content_root_text(html@)),
            r.content_length == byte_len(r.content@),
    {
        let titles = select_texts(html, "title", "");
        let h1s = select_texts(html, "h1", "");
        let articles = select_texts(html, "article", " ");
        let mains = select_texts(html, "main", " ");
        let bodies = select_texts(html, "body", " ");
        let roots = select_texts(html, ":root", " ");
        let raw: &str = match first_text(&articles) {
            Some(t) => t,
            None => match first_text(&mains) {
                Some(t) => t,
                None => match first_text(&bodies) {
                    Some(t) => t,
                    None => match first_text(&roots) {
                        Some(t) => t,
                        None => "",
                    },
                },
            },
        };
        proof {
            reveal_strlit("");
        }
        Self::page_content(url, first_text(&titles), first_text(&h1s), raw)
    }

    /// The results of the result blocks of a DuckDuckGo HTML page (see
    /// `html_rows`).
    pub fn html_results(rows: &Vec<(String, String, String)>, max_results: u32) -> (r: Vec<SearchResult>)
        ensures
            results_view(r@) == html_rows(triples_view(rows@), max_results as nat, seq![]),
    {
        let ghost rv = triples_view(rows@);
        let mut out: Vec<SearchResult> = Vec::new();
        let mut i: usize = 0;
        assert(rv.skip(0) =~= rv);
        assert(results_view(out@) =~= Seq::<(Seq<char>, Seq<char>, Seq<char>)>::empty());
        while i < rows.len() && out.len() < max_results as usize
            invariant
                i <= rows@.len(),
                rv == triples_view(rows@),
                html_rows(rv.skip(i as int), max_results as nat, results_view(out@)) == html_rows(rv, max_results as nat, seq![]),
            decreases rows.len() - i,
        {
            let ghost rest = rv.skip(i as int);
            assert(rest[0] == rv[i as int]);
            assert(rest.skip(1) =~= rv.skip(i + 1));
            let title = string_of(&trimmed(&chars_of(rows[i].0.as_str())));
            if !title.as_str().is_empty() {
                let url = string_of(&trimmed(&chars_of(rows[i].1.as_str())));
                let snippet = string_of(&trimmed(&chars_of(rows[i].2.as_str())));
                let ghost before = results_view(out@);
                out.push(SearchResult { title, url, snippet });
                assert(results_view(out@) =~= before.push(result_view(out@.last())));
            }
            i = i + 1;
        }
        out
    }

    /// The results of the links of a DuckDuckGo lite page (see `lite_rows`),
    /// or, when there are none, of all its links (see `generic_rows`).
    pub fn lite_results(links: &Vec<(String, String)>, snippets: &Vec<String>, all_links: &Vec<(String, String)>, max_results: u32) -> (r: Vec<SearchResult>)
        ensures
            results_view(r@) == if lite_rows(pairs_view(links@), strings_view(snippets@), 0, max_results as nat, seq![]).len() > 0 {
                lite_rows(pairs_view(links@), strings_view(snippets@), 0, max_results as nat, seq![])
            } else {
                generic_rows(pairs_view(all_links@), max_results as nat, seq![])
            },
    {
        let ghost lv = pairs_view(links@);
        let ghost sv = strings_view(snippets@);
        let mut out: Vec<SearchResult> = Vec::new();
        let mut i: usize = 0;
        assert(results_view(out@) =~= Seq::<(Seq<char>, Seq<char>, Seq<char>)>::empty());
        while i < links.len() && out.len() < max_results as usize
            invariant
                i <= links@.len(),
                lv == pairs_view(links@),
                sv == strings_view(snippets@),
                lite_rows(lv, sv, i as int, max_results as nat, results_view(out@)) == lite_rows(lv, sv, 0, max_results as nat, seq![]),
            decreases links.len() - i,
        {
            let title = string_of(&trimmed(&chars_of(links[i].0.as_str())));
            if !title.as_str().is_empty() {
                let url = Self::lite_result_url(links[i].1.as_str());
                let snippet = if i < snippets.len() {
                    snippets[i].clone()
                } else {
                    String::new()
                };
                let ghost before = results_view(out@);
                out.push(SearchResult { title, url, snippet });
                assert(results_view(out@) =~= before.push(result_view(out@.last())));
            }
            i = i + 1;
        }
        if out.len() > 0 {
            return out;
        }
        let ghost gv = pairs_view(all_links@);
        let mut g: Vec<SearchResult> = Vec::new();
        let mut j: usize = 0;
        assert(gv.skip(0) =~= gv);
        assert(results_view(g@) =~= Seq::<(Seq<char>, Seq<char>, Seq<char>)>::empty());
        while j < all_links.len() && g.len() < max_results as usize
            invariant
                j <= all_links@.len(),
                gv == pairs_view(all_links@),
                generic_rows(gv.skip(j as int), max_results as nat, results_view(g@)) == generic_rows(gv, max_results as nat, seq![]),
            decreases all_links.len() - j,
        {
            let ghost rest = gv.skip(j as int);
            assert(rest[0] == gv[j as int]);
            assert(rest.skip(1) =~= gv.skip(j + 1));
            match Self::generic_link_result(all_links[j].0.as_str(), all_links[j].1.as_str()) {
                Some(res) => {
                    let ghost before = results_view(g@);
                    g.push(res);
                    assert(results_view(g@) =~= before.push(result_view(g@.last())));
                },
                None => {},
            }
            j = j + 1;
        }
        g
    }

    /// The results of a SearXNG reply (see `searxng_outcome`).
    pub fn searxng_results(json: &JsonValue, max_results: u32) -> (r: Result<Vec<SearchResult>, String>)
        ensures
            match (r, searxng_outcome(*json, max_results)) {
                (Ok(a), Ok(b)) => results_view(a@) == b,
                (Err(a), Err(b)) => a@ == b,
                _ => false,
            },
    {
        match get_field(json, "results") {
            Some(JsonValue::Array(items)) => {
                let n: usize = if (max_results as usize) < items.len() {
                    max_results as usize
                } else {
                    items.len()
                };
                assert(first_items(items@, max_results as nat) =~= items@.take(n as int));
                let rs = results_of(items, n, "title", "url", "content");
                if rs.len() == 0 {
                    Err(String::from_str("SearXNG 未返回任何结果"))
                } else {
                    Ok(rs)
                }
            },
            _ => Err(String::from_str("SearXNG 返回结果格式异常")),
        }
    }

    /// The results of a Brave reply (see `brave_outcome`).
    pub fn brave_results(json: &JsonValue) -> (r: Result<Vec<SearchResult>, String>)
        ensures
            match (r, brave_outcome(*json)) {
                (Ok(a), Ok(b)) => results_view(a@) == b,
                (Err(a), Err(b)) => a@ == b,
                _ => false,
            },
    {
        match get_field(json, "web") {
            Some(w) => match get_field(w, "results") {
                Some(JsonValue::Array(items)) => {
                    assert(items@.take(items@.len() as int) =~= items@);
                    let rs = results_of(items, items.len(), "title", "url", "description");
                    if rs.len() == 0 {
                        Err(String::from_str("Brave Search 未返回任何结果"))
                    } else {
                        Ok(rs)
                    }
                },
                _ => Err(String::from_str("Brave Search 返回结果格式异常")),
            },
            None => Err(String::from_str("Brave Search 返回结果格式异常")),
        }
    }

    /// The results of a Bing reply (see `bing_outcome`).
    pub fn bing_results(json: &JsonValue) -> (r: Result<Vec<SearchResult>, String>)
        ensures
            match (r, bing_outcome(*json)) {
                (Ok(a), Ok(b)) => results_view(a@) == b,
                (Err(a), Err(b)) => a@ == b,
                _ => false,
            },
    {
        match get_field(json, "webPages") {
            Some(w) => match get_field(w, "value") {
                Some(JsonValue::Array(items)) => {
                    assert(items@.take(items@.len() as int) =~= items@);
                    let rs = results_of(items, items.len(), "name", "url", "snippet");
                    if rs.len() == 0 {
                        Err(String::from_str("Bing Search 未返回任何结果"))
                    } else {
                        Ok(rs)
                    }
                },
                _ => Err(String::from_str("Bing Search 未返回网页结果")),
            },
            None => Err(String::from_str("Bing Search 未返回网页结果")),
        }
    }

    /// The results of a DuckDuckGo API reply (see `ddg_api_outcome`).
    pub fn ddg_api_results(json: &JsonValue, max_results: u32) -> (r: Vec<SearchResult>)
        ensures
            results_view(r@) == ddg_api_outcome(*json, max_results),
    {
        let mut results: Vec<SearchResult> = Vec::new();
        let h = get_field(json, "Heading");
        let u = get_field(json, "AbstractURL");
        let t = get_field(json, "AbstractText");
        match (h, u, t) {
            (Some(JsonValue::Str(h)), Some(JsonValue::Str(u)), Some(JsonValue::Str(t))) => {
                if !t.as_str().is_empty() {
                    results.push(SearchResult { title: h.clone(), url: u.clone(), snippet: t.clone() });
                }
            },
            _ => {},
        }
        assert(results_view(results@) =~= ddg_abstract(*json));
        match get_field(json, "RelatedTopics") {
            Some(JsonValue::Array(items)) => {
                let ghost its = items@;
                let mut i: usize = 0;
                assert(its.skip(0) =~= its);
                while i < items.len() && results.len() < max_results as usize
                    invariant
                        i <= items@.len(),
                        its == items@,
                        ddg_topics(its.skip(i as int), max_results as nat, results_view(results@))
                            == ddg_topics(its, max_results as nat, ddg_abstract(*json)),
                    decreases items.len() - i,
                {
                    let ghost rest = its.skip(i as int);
                    assert(rest[0] == items@[i as int]);
                    assert(rest.skip(1) =~= its.skip(i + 1));
                    let ghost before = results_view(results@);
                    match (get_field(&items[i], "Text"), get_field(&items[i], "FirstURL")) {
                        (Some(JsonValue::Str(text)), Some(JsonValue::Str(url))) => {
                            if !text.as_str().is_empty() {
                                let tc = chars_of(text.as_str());
                                let k: usize = if tc.len() <= 80 {
                                    tc.len()
                                } else {
                                    80
                                };
                                let title = string_of_range(&tc, 0, k);
                                assert(tc@.subrange(0, k as int) =~= (if tc@.len() <= 80 {
                                    tc@
                                } else {
                                    tc@.take(80)
                                }));
                                results.push(SearchResult { title, url: url.clone(), snippet: text.clone() });
                                assert(results_view(results@) =~= before.push(result_view(results@.last())));
                            }
                        },
                        _ => {},
                    }
                    i = i + 1;
                }
                assert(its.skip(i as int).len() == 0 || results_view(results@).len() >= max_results);
            },
            _ => {},
        }
        results
    }
}

} // verus!
