//! Text helpers of wiki search and web search: the SQL `LIKE` pattern of a
//! fuzzy query, the snippet around a match, and form URL-encoding of a query.
use vstd::prelude::*;
use vstd::string::StringSliceAdditionalSpecFns;
use crate::dedup::{lowercase, to_lowercase};
use crate::text::{
    byte_len, char_width, chars_of, find, find_vec, lemma_char_width, lemma_encode_utf8_append,
    lemma_find_from, push_str, string_of_range,
};

verus! {

/// One page found by the full-text search.
#[derive(Debug, Clone)]
pub struct SearchResult {
    pub title: String,
    pub path: String,
    pub page_type: String,
    /// `title`, `content`, `tags` or `fuzzy`.
    pub matched_field: String,
    pub snippet: String,
    pub updated_at: String,
    pub page_id: String,
    pub tags: Vec<String>,
    pub is_broken: bool,
}

/// Searches the wiki pages of a knowledge base.
pub struct FullTextSearch;

// ---------------------------------------------------------------------------
// Fuzzy pattern
// ---------------------------------------------------------------------------

/// `%` followed by each character of the query and a `%`.
pub open spec fn fuzzy_pattern(q: Seq<char>) -> Seq<char>
    decreases q.len(),
{
    if q.len() == 0 {
        seq!['%']
    } else {
        fuzzy_pattern(q.drop_last()) + seq![q.last(), '%']
    }
}

// ---------------------------------------------------------------------------
// Snippet around a match
// ---------------------------------------------------------------------------

/// Characters of context kept on each side of a match, counted in bytes.
pub const SNIPPET_CONTEXT: usize = 50;

/// Characters shown when the query is not found.
pub const SNIPPET_FALLBACK_CHARS: usize = 200;

/// Byte offset in the lower-cased content at which the query occurs.
pub open spec fn match_byte(content: Seq<char>, query: Seq<char>) -> Option<int> {
    match find(lowercase(content), query) {
        Some(p) => Some(byte_len(lowercase(content).take(p)) as int),
        None => None,
    }
}

/// The byte window `[start, end)` of the content shown around a match at
/// byte `pos`: fifty bytes before and after the query, within the content.
pub open spec fn snippet_window(content: Seq<char>, query: Seq<char>, pos: int) -> (int, int) {
    let start = if pos >= SNIPPET_CONTEXT {
        pos - SNIPPET_CONTEXT
    } else {
        0
    };
    let reach = pos + byte_len(query) + SNIPPET_CONTEXT;
    let end = if reach < byte_len(content) {
        reach
    } else {
        byte_len(content) as int
    };
    (start, end)
}

/// Whether byte offset `b` of the content starts a character (or ends the
/// content), with `k` the number of characters before it.
pub open spec fn char_at_byte(content: Seq<char>, b: int, k: int) -> bool {
    0 <= k <= content.len() && byte_len(content.take(k)) == b
}

/// Slicing the content at the window panics unless the window is ordered and
/// both its ends start characters.
pub open spec fn snippet_ok(content: Seq<char>, query: Seq<char>) -> bool {
    match match_byte(content, query) {
        Some(pos) => {
            let (s, e) = snippet_window(content, query, pos);
            s <= e && (exists|k: int| char_at_byte(content, s, k)) && (exists|k: int|
                char_at_byte(content, e, k))
        },
        None => true,
    }
}

/// What `make_snippet` returns: the window around the first match, with
/// "..." where the content is cut, or else the first 200 characters.
pub open spec fn snippet(content: Seq<char>, query: Seq<char>) -> Seq<char> {
    match match_byte(content, query) {
        Some(pos) => {
            let (s, e) = snippet_window(content, query, pos);
            let a = choose|k: int| char_at_byte(content, s, k);
            let b = choose|k: int| char_at_byte(content, e, k);
            (if s > 0 {
                "..."@
            } else {
                seq![]
            }) + content.subrange(a, b) + (if e < byte_len(content) {
                "..."@
            } else {
                seq![]
            })
        },
        None => content.take(
            if content.len() < SNIPPET_FALLBACK_CHARS {
                content.len() as int
            } else {
                SNIPPET_FALLBACK_CHARS as int
            },
        ),
    }
}

proof fn lemma_byte_len_step(s: Seq<char>, k: int)
    requires
        0 <= k < s.len(),
    ensures
        byte_len(s.take(k + 1)) == byte_len(s.take(k)) + char_width(s[k]),
{
    assert(s.take(k + 1) =~= s.take(k) + seq![s[k]]);
    lemma_encode_utf8_append(s.take(k), seq![s[k]]);
    lemma_char_width(s[k]);
}

proof fn lemma_byte_len_strict(s: Seq<char>, a: int, b: int)
    requires
        0 <= a <= b <= s.len(),
    ensures
        byte_len(s.take(a)) + (b - a) <= byte_len(s.take(b)),
    decreases b - a,
{
    if a < b {
        lemma_byte_len_strict(s, a, b - 1);
        lemma_byte_len_step(s, b - 1);
    }
}

fn width_exec(c: char) -> (w: usize)
    ensures
        w == char_width(c),
{
    let u = c as u32;
    if u <= 0x7f {
        1
    } else if u <= 0x7ff {
        2
    } else if u <= 0xffff {
        3
    } else {
        4
    }
}

/// The character index whose byte offset is `b`, if `b` starts a character.
fn char_index_of_byte(cs: &Vec<char>, b: usize) -> (r: Option<usize>)
    ensures
        match r {
            Some(k) => char_at_byte(cs@, b as int, k as int),
            None => forall|k: int| !char_at_byte(cs@, b as int, k),
        },
{
    let mut k: usize = 0;
    let mut used: usize = 0;
    assert(cs@.take(0) =~= Seq::<char>::empty());
    while k < cs.len() && used < b
        invariant
            k <= cs.len(),
            used <= b,
            used == byte_len(cs@.take(k as int)),
            forall|m: int| 0 <= m < k ==> byte_len(cs@.take(m)) < used,
        decreases cs.len() - k,
    {
        proof {
            lemma_byte_len_step(cs@, k as int);
            assert forall|m: int| 0 <= m < k + 1 implies byte_len(cs@.take(m)) < used + char_width(
                cs@[k as int],
            ) by {}
        }
        let w = width_exec(cs[k]);
        if w > b - used {
            proof {
                assert forall|m: int| !char_at_byte(cs@, b as int, m) by {
                    if 0 <= m <= cs@.len() {
                        if m <= k {
                        } else {
                            lemma_byte_len_strict(cs@, k + 1, m);
                        }
                    }
                }
            }
            return None;
        }
        used = used + w;
        k = k + 1;
    }
    if used == b {
        Some(k)
    } else {
        proof {
            assert forall|m: int| !char_at_byte(cs@, b as int, m) by {
                if 0 <= m <= cs@.len() && m > k {
                    lemma_byte_len_strict(cs@, k as int, m);
                }
            }
        }
        None
    }
}

impl FullTextSearch {
    /// The LIKE pattern of a fuzzy query: `%` around and between its
    /// characters.
    pub fn build_fuzzy_pattern(query: &str) -> (p: String)
        ensures
            p@ == fuzzy_pattern(query@),
    {
        let cs = chars_of(query);
        let mut p = String::new();
        p.push('%');
        let mut i: usize = 0;
        while i < cs.len()
            invariant
                i <= cs.len(),
                p@ == fuzzy_pattern(cs@.take(i as int)),
            decreases cs.len() - i,
        {
            p.push(cs[i]);
            p.push('%');
            i = i + 1;
            assert(cs@.take(i as int).drop_last() =~= cs@.take(i - 1));
        }
        assert(cs@.take(cs@.len() as int) =~= cs@);
        p
    }

    /// The part of the content around the first case-insensitive match of
    /// the (lower-case) query, or the first 200 characters without a match.
    pub fn make_snippet(content: &str, query: &str) -> (s: String)
        requires
            snippet_ok(content@, query@),
        ensures
            s@ == snippet(content@, query@),
    {
        match Self::try_make_snippet(content, query) {
            Some(s) => s,
            None => {
                proof {
                    assert(false);
                }
                String::new()
            },
        }
    }

    /// `make_snippet` where slicing the content at the window around the
    /// match does not panic; `None` where it would (the window is reversed,
    /// or one of its ends falls inside a character).
    pub fn try_make_snippet(content: &str, query: &str) -> (r: Option<String>)
        ensures
            r is Some <==> snippet_ok(content@, query@),
            r matches Some(s) ==> s@ == snippet(content@, query@),
    {
        let lower = to_lowercase(content);
        let lc = chars_of(lower.as_str());
        let qc = chars_of(query);
        let cs = chars_of(content);
        match find_vec(&lc, &qc, 0) {
            Some(p) => {
                proof {
                    lemma_find_from(lc@, qc@, 0);
                }
                let lower_len = lower.as_str().as_bytes().len();
                proof {
                    assert(lc@.take(lc@.len() as int) =~= lc@);
                    lemma_byte_len_monotone_inv(lc@, p as int, lc@.len() as int);
                }
                let pos = byte_prefix_len(&lc, p);
                let qlen = query.as_bytes().len();
                let clen = content.as_bytes().len();
                assert(qlen == byte_len(query@));
                assert(clen == byte_len(content@));
                let start = if pos >= SNIPPET_CONTEXT {
                    pos - SNIPPET_CONTEXT
                } else {
                    0
                };
                let end = if qlen < clen && SNIPPET_CONTEXT < clen - qlen && pos < clen - qlen
                    - SNIPPET_CONTEXT {
                    pos + qlen + SNIPPET_CONTEXT
                } else {
                    clen
                };
                if start > end {
                    return None;
                }
                let a = char_index_of_byte(&cs, start);
                let b = char_index_of_byte(&cs, end);
                match (a, b) {
                    (Some(a), Some(b)) => {
                        proof {
                            lemma_char_at_byte_unique(cs@, start as int, a as int);
                            lemma_char_at_byte_unique(cs@, end as int, b as int);
                            if b < a {
                                lemma_byte_len_strict(cs@, b as int, a as int);
                            }
                        }
                        let mut s = String::new();
                        if start > 0 {
                            push_str(&mut s, "...");
                        }
                        let mid = string_of_range(&cs, a, b);
                        push_str(&mut s, mid.as_str());
                        if end < clen {
                            push_str(&mut s, "...");
                        }
                        Some(s)
                    },
                    _ => None,
                }
            },
            None => {
                let n = if cs.len() < SNIPPET_FALLBACK_CHARS {
                    cs.len()
                } else {
                    SNIPPET_FALLBACK_CHARS
                };
                assert(cs@.subrange(0, n as int) =~= cs@.take(n as int));
                Some(string_of_range(&cs, 0, n))
            },
        }
    }
}

/// Byte length of the first `k` characters.
fn byte_prefix_len(cs: &Vec<char>, k: usize) -> (n: usize)
    requires
        k <= cs.len(),
        byte_len(cs@.take(k as int)) <= usize::MAX,
    ensures
        n == byte_len(cs@.take(k as int)),
{
    let mut i: usize = 0;
    let mut n: usize = 0;
    assert(cs@.take(0) =~= Seq::<char>::empty());
    while i < k
        invariant
            i <= k <= cs.len(),
            byte_len(cs@.take(k as int)) <= usize::MAX,
            n == byte_len(cs@.take(i as int)),
        decreases k - i,
    {
        proof {
            lemma_byte_len_step(cs@, i as int);
            lemma_byte_len_monotone_inv(cs@, i + 1, k as int);
        }
        n = n + width_exec(cs[i]);
        i = i + 1;
    }
    n
}

proof fn lemma_byte_len_monotone_inv(s: Seq<char>, a: int, b: int)
    requires
        0 <= a <= b <= s.len(),
    ensures
        byte_len(s.take(a)) <= byte_len(s.take(b)),
{
    lemma_byte_len_strict(s, a, b);
}

proof fn lemma_char_at_byte_unique(s: Seq<char>, b: int, k: int)
    requires
        char_at_byte(s, b, k),
    ensures
        forall|m: int| char_at_byte(s, b, m) ==> m == k,
{
    assert forall|m: int| char_at_byte(s, b, m) implies m == k by {
        if m < k {
            lemma_byte_len_strict(s, m, k);
        } else if m > k {
            lemma_byte_len_strict(s, k, m);
        }
    }
}

// ---------------------------------------------------------------------------
// Assembling the results of a search
// ---------------------------------------------------------------------------

/// A row found by one of the successive searches of `search`, before it
/// becomes a result. `tags` is the page's tag field as stored (tags
/// separated by whitespace).
#[derive(Debug, Clone)]
pub enum SearchHit {
    Title { page_id: String, title: String, path: String, page_type: String, tags: String, updated_at: String, status: String },
    CanonicalName { page_id: String, title: String, path: String, page_type: String, canonical_name: String, updated_at: String, tags: String, status: String },
    Tags { page_id: String, title: String, path: String, page_type: String, tags: String, updated_at: String, status: String },
    Content { title: String, path: String, page_type: String, updated_at: String, content: String },
    Alias { alias: String, canonical_name: String, page_path: String },
    Fuzzy { page_id: String, title: String, path: String, page_type: String, tags: String, updated_at: String, status: String },
}

/// The view of a search result: title, path, page type, matched field,
/// snippet, update time, page id, tags and broken flag.
pub open spec fn result_view(r: SearchResult) -> (Seq<char>, Seq<char>, Seq<char>, Seq<char>, Seq<char>, Seq<char>, Seq<char>, Seq<Seq<char>>, bool) {
    (r.title@, r.path@, r.page_type@, r.matched_field@, r.snippet@, r.updated_at@, r.page_id@, r.tags@.map_values(|t: String| t@), r.is_broken)
}

/// The result a hit becomes; `query` is the lower-cased query.
pub open spec fn hit_result(hit: SearchHit, query: Seq<char>) -> (Seq<char>, Seq<char>, Seq<char>, Seq<char>, Seq<char>, Seq<char>, Seq<char>, Seq<Seq<char>>, bool) {
    match hit {
        SearchHit::Title { page_id, title, path, page_type, tags, updated_at, status } =>
            (title@, path@, page_type@, "title"@, title@, updated_at@, page_id@, crate::dedup::words(tags@), status@ == "broken"@),
        SearchHit::CanonicalName { page_id, title, path, page_type, canonical_name, updated_at, tags, status } =>
            (title@, path@, page_type@, "canonical_name"@, canonical_name@, updated_at@, page_id@, crate::dedup::words(tags@), status@ == "broken"@),
        SearchHit::Tags { page_id, title, path, page_type, tags, updated_at, status } =>
            (title@, path@, page_type@, "tags"@, "标签: "@ + tags@, updated_at@, page_id@, crate::dedup::words(tags@), status@ == "broken"@),
        SearchHit::Content { title, path, page_type, updated_at, content } =>
            (title@, path@, page_type@, "content"@, snippet(content@, query), updated_at@, Seq::empty(), Seq::empty(), false),
        SearchHit::Alias { alias, canonical_name, page_path } =>
            (canonical_name@, page_path@, "alias"@, "alias"@, "别名: "@ + alias@, Seq::empty(), Seq::empty(), Seq::empty(), false),
        SearchHit::Fuzzy { page_id, title, path, page_type, tags, updated_at, status } =>
            (title@, path@, page_type@, "fuzzy"@, "模糊匹配"@, updated_at@, page_id@, crate::dedup::words(tags@), status@ == "broken"@),
    }
}

/// Whether a content hit can be cut into a snippet (see `snippet_ok`).
pub open spec fn hit_ok(hit: SearchHit, query: Seq<char>) -> bool {
    match hit {
        SearchHit::Content { content, .. } => snippet_ok(content@, query),
        _ => true,
    }
}

/// No two results share a path.
pub open spec fn paths_unique(rs: Seq<SearchResult>) -> bool {
    forall|i: int, j: int| 0 <= i < j < rs.len() ==> rs[i].path@ != rs[j].path@
}

/// Whether some result has this path.
pub open spec fn has_path(rs: Seq<SearchResult>, p: Seq<char>) -> bool {
    exists|i: int| 0 <= i < rs.len() && rs[i].path@ == p
}

fn words_vec(s: &str) -> (out: Vec<String>)
    ensures
        out@.map_values(|t: String| t@) == crate::dedup::words(s@),
{
    let w = crate::dedup::split_whitespace(s);
    assert(w@.map_values(|t: String| t@) =~= w@.map_values(|w: String| w@));
    w
}

fn is_broken(status: &String) -> (b: bool)
    ensures
        b == (status@ == "broken"@),
{
    let cs = chars_of(status.as_str());
    let l = chars_of("broken");
    crate::gateway::seq_eq(&cs, &l)
}

fn prefixed(head: &str, s: &String) -> (out: String)
    ensures
        out@ == head@ + s@,
{
    let mut out = String::from_str(head);
    push_str(&mut out, s.as_str());
    out
}

impl FullTextSearch {
    /// The result a hit becomes (see `hit_result`); `query_lower` is the
    /// lower-cased query.
    pub fn hit_to_result(hit: SearchHit, query_lower: &str) -> (r: SearchResult)
        requires
            hit_ok(hit, query_lower@),
        ensures
            result_view(r) == hit_result(hit, query_lower@),
    {
        match hit {
            SearchHit::Title { page_id, title, path, page_type, tags, updated_at, status } => {
                let tag_list = words_vec(tags.as_str());
                let broken = is_broken(&status);
                let snippet = title.clone();
                SearchResult { title, path, page_type, matched_field: String::from_str("title"), snippet, updated_at, page_id, tags: tag_list, is_broken: broken }
            },
            SearchHit::CanonicalName { page_id, title, path, page_type, canonical_name, updated_at, tags, status } => {
                let tag_list = words_vec(tags.as_str());
                let broken = is_broken(&status);
                SearchResult { title, path, page_type, matched_field: String::from_str("canonical_name"), snippet: canonical_name, updated_at, page_id, tags: tag_list, is_broken: broken }
            },
            SearchHit::Tags { page_id, title, path, page_type, tags, updated_at, status } => {
                let tag_list = words_vec(tags.as_str());
                let broken = is_broken(&status);
                let snippet = prefixed("标签: ", &tags);
                SearchResult { title, path, page_type, matched_field: String::from_str("tags"), snippet, updated_at, page_id, tags: tag_list, is_broken: broken }
            },
            SearchHit::Content { title, path, page_type, updated_at, content } => {
                let snippet = Self::make_snippet(content.as_str(), query_lower);
                let tags: Vec<String> = Vec::new();
                assert(tags@.map_values(|t: String| t@) =~= Seq::<Seq<char>>::empty());
                SearchResult { title, path, page_type, matched_field: String::from_str("content"), snippet, updated_at, page_id: String::new(), tags, is_broken: false }
            },
            SearchHit::Alias { alias, canonical_name, page_path } => {
                let snippet = prefixed("别名: ", &alias);
                let tags: Vec<String> = Vec::new();
                assert(tags@.map_values(|t: String| t@) =~= Seq::<Seq<char>>::empty());
                SearchResult { title: canonical_name, path: page_path, page_type: String::from_str("alias"), matched_field: String::from_str("alias"), snippet, updated_at: String::new(), page_id: String::new(), tags, is_broken: false }
            },
            SearchHit::Fuzzy { page_id, title, path, page_type, tags, updated_at, status } => {
                let tag_list = words_vec(tags.as_str());
                let broken = is_broken(&status);
                SearchResult { title, path, page_type, matched_field: String::from_str("fuzzy"), snippet: String::from_str("模糊匹配"), updated_at, page_id, tags: tag_list, is_broken: broken }
            },
        }
    }

    /// `hit_to_result` where making the snippet of a content hit does not
    /// panic; `None` for a content hit whose snippet window cannot be cut.
    pub fn try_hit_to_result(hit: SearchHit, query_lower: &str) -> (r: Option<SearchResult>)
        ensures
            r is Some <==> hit_ok(hit, query_lower@),
            r matches Some(res) ==> result_view(res) == hit_result(hit, query_lower@),
    {
        let ok = match &hit {
            SearchHit::Content { content, .. } => Self::try_make_snippet(content.as_str(), query_lower).is_some(),
            _ => true,
        };
        if ok {
            Some(Self::hit_to_result(hit, query_lower))
        } else {
            None
        }
    }

    /// Adds a result unless a result with the same path is already there,
    /// so that the first search to find a page decides how it is shown.
    /// Keeps the paths of the results unique.
    pub fn add_result(results: &mut Vec<SearchResult>, r: SearchResult) -> (added: bool)
        ensures
            added == !has_path(old(results)@, r.path@),
            added ==> final(results)@ == old(results)@.push(r),
            !added ==> final(results)@ == old(results)@,
            paths_unique(old(results)@) ==> paths_unique(final(results)@),
    {
        let p = chars_of(r.path.as_str());
        let mut i: usize = 0;
        while i < results.len()
            invariant
                i <= results@.len(),
                results@ == old(results)@,
                p@ == r.path@,
                forall|k: int| 0 <= k < i ==> results@[k].path@ != r.path@,
            decreases results.len() - i,
        {
            let q = chars_of(results[i].path.as_str());
            if crate::gateway::seq_eq(&q, &p) {
                return false;
            }
            i = i + 1;
        }
        results.push(r);
        true
    }

    /// Whether the fuzzy search runs: nothing was found and the query has
    /// at least two bytes.
    pub fn wants_fuzzy(results: &Vec<SearchResult>, query_lower: &str) -> (b: bool)
        ensures
            b == (results@.len() == 0 && query_lower.spec_bytes().len() >= 2),
    {
        results.len() == 0 && query_lower.as_bytes().len() >= 2
    }
}

// ---------------------------------------------------------------------------
// URL encoding
// ---------------------------------------------------------------------------

/// Bytes that stay as they are: ASCII letters, digits and `-_.~`.
pub open spec fn is_unreserved(b: u8) -> bool {
    (65 <= b <= 90) || (97 <= b <= 122) || (48 <= b <= 57) || b == 45 || b == 95 || b == 46
        || b == 126
}

/// The upper-case hexadecimal digit of `d < 16`.
pub open spec fn hex_digit(d: u8) -> char {
    if d == 0 {
        '0'
    } else if d == 1 {
        '1'
    } else if d == 2 {
        '2'
    } else if d == 3 {
        '3'
    } else if d == 4 {
        '4'
    } else if d == 5 {
        '5'
    } else if d == 6 {
        '6'
    } else if d == 7 {
        '7'
    } else if d == 8 {
        '8'
    } else if d == 9 {
        '9'
    } else if d == 10 {
        'A'
    } else if d == 11 {
        'B'
    } else if d == 12 {
        'C'
    } else if d == 13 {
        'D'
    } else if d == 14 {
        'E'
    } else {
        'F'
    }
}

/// The value of an upper-case hexadecimal digit.
pub open spec fn hex_value(c: char) -> u8 {
    if c == '0' {
        0
    } else if c == '1' {
        1
    } else if c == '2' {
        2
    } else if c == '3' {
        3
    } else if c == '4' {
        4
    } else if c == '5' {
        5
    } else if c == '6' {
        6
    } else if c == '7' {
        7
    } else if c == '8' {
        8
    } else if c == '9' {
        9
    } else if c == 'A' {
        10
    } else if c == 'B' {
        11
    } else if c == 'C' {
        12
    } else if c == 'D' {
        13
    } else if c == 'E' {
        14
    } else {
        15
    }
}

/// The encoding of one byte: itself when unreserved, `+` for a space, and
/// `%XX` with upper-case hex digits otherwise.
pub open spec fn encode_byte(b: u8) -> Seq<char> {
    if is_unreserved(b) {
        seq![b as char]
    } else if b == 32 {
        seq!['+']
    } else {
        seq!['%', hex_digit(b / 16), hex_digit(b % 16)]
    }
}

/// Form URL-encoding of a byte string.
pub open spec fn url_encode(bs: Seq<u8>) -> Seq<char>
    decreases bs.len(),
{
    if bs.len() == 0 {
        seq![]
    } else {
        encode_byte(bs[0]) + url_encode(bs.drop_first())
    }
}

/// Form URL-decoding: `%XX` is a byte, `+` a space, another character its
/// own byte.
pub open spec fn url_decode(s: Seq<char>) -> Seq<u8>
    decreases s.len(),
{
    if s.len() == 0 {
        seq![]
    } else if s[0] == '%' && s.len() >= 3 {
        seq![(hex_value(s[1]) * 16 + hex_value(s[2])) as u8] + url_decode(s.skip(3))
    } else if s[0] == '+' {
        seq![32u8] + url_decode(s.drop_first())
    } else {
        seq![s[0] as u8] + url_decode(s.drop_first())
    }
}

proof fn lemma_hex_roundtrip(d: u8)
    requires
        d < 16,
    ensures
        hex_value(hex_digit(d)) == d,
        hex_digit(d) != '%' && hex_digit(d) != '+',
{
}

/// Law: URL-decoding the encoding of a byte string gives the byte string
/// back.
pub proof fn url_decode_encode(bs: Seq<u8>)
    ensures
        url_decode(url_encode(bs)) == bs,
    decreases bs.len(),
{
    if bs.len() > 0 {
        let b = bs[0];
        let rest = url_encode(bs.drop_first());
        url_decode_encode(bs.drop_first());
        let e = url_encode(bs);
        if is_unreserved(b) {
            assert((b as char) as u8 == b);
            assert(b as char != '%' && b as char != '+');
            assert(e.drop_first() =~= rest);
        } else if b == 32 {
            assert(e.drop_first() =~= rest);
        } else {
            lemma_hex_roundtrip(b / 16);
            lemma_hex_roundtrip(b % 16);
            assert(e.skip(3) =~= rest);
            assert((((b / 16) * 16 + b % 16) as u8) == b);
        }
        assert(bs =~= seq![b] + bs.drop_first());
    }
}

fn hex_digit_exec(d: u8) -> (c: char)
    requires
        d < 16,
    ensures
        c == hex_digit(d),
{
    if d == 0 {
        '0'
    } else if d == 1 {
        '1'
    } else if d == 2 {
        '2'
    } else if d == 3 {
        '3'
    } else if d == 4 {
        '4'
    } else if d == 5 {
        '5'
    } else if d == 6 {
        '6'
    } else if d == 7 {
        '7'
    } else if d == 8 {
        '8'
    } else if d == 9 {
        '9'
    } else if d == 10 {
        'A'
    } else if d == 11 {
        'B'
    } else if d == 12 {
        'C'
    } else if d == 13 {
        'D'
    } else if d == 14 {
        'E'
    } else {
        'F'
    }
}

/// Form URL-encodes the UTF-8 bytes of a search query.
pub fn urlencoding(s: &str) -> (encoded: String)
    ensures
        encoded@ == url_encode(s.spec_bytes()),
{
    let bs = s.as_bytes();
    let mut encoded = String::new();
    let mut i: usize = 0;
    assert(bs@.skip(0) =~= bs@);
    while i < bs.len()
        invariant
            i <= bs.len(),
            bs@ == s.spec_bytes(),
            encoded@ + url_encode(bs@.skip(i as int)) == url_encode(bs@),
        decreases bs.len() - i,
    {
        let b = bs[i];
        let ghost before = encoded@;
        if (65 <= b && b <= 90) || (97 <= b && b <= 122) || (48 <= b && b <= 57) || b == 45 || b
            == 95 || b == 46 || b == 126 {
            encoded.push(b as char);
        } else if b == 32 {
            encoded.push('+');
        } else {
            encoded.push('%');
            encoded.push(hex_digit_exec(b / 16));
            encoded.push(hex_digit_exec(b % 16));
        }
        proof {
            assert(bs@.skip(i as int).drop_first() =~= bs@.skip(i + 1));
            assert(encoded@ =~= before + encode_byte(b));
        }
        i = i + 1;
    }
    assert(bs@.skip(i as int) =~= Seq::<u8>::empty());
    encoded
}

} // verus!
