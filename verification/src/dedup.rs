//! Name normalisation and string distances used to detect duplicate wiki
//! pages: full-width to half-width folding, lower-casing, separator
//! unification, hash-suffix stripping of slugs and Levenshtein distance.
use vstd::prelude::*;
use crate::text::{
    chars_of, is_whitespace, is_ws, join, lead_ws, lemma_lead_ws, slice_vec, string_of, trim,
    trim_bounds, trim_start,
};

verus! {

/// What `str::to_lowercase` returns for a text (Unicode lower-casing, which
/// depends on the text alone).
pub uninterp spec fn lowercase(s: Seq<char>) -> Seq<char>;

/// Calls `str::to_lowercase`.
#[verifier::external_body]
pub(crate) fn to_lowercase(s: &str) -> (out: String)
    ensures
        out@ == lowercase(s@),
{
    s.to_lowercase()
}

/// Wiki pages that look like duplicates of one another.
#[derive(Debug, Clone)]
pub struct DuplicatePageGroup {
    pub canonical_name: String,
    pub normalized_name: String,
    pub page_ids: Vec<String>,
    pub page_titles: Vec<String>,
    pub page_paths: Vec<String>,
    /// `exact_title`, `normalized`, `slug_base` or `canonical`.
    pub match_type: String,
}

/// Detects duplicate names and pages.
pub struct DedupService;

// ---------------------------------------------------------------------------
// Name normalisation
// ---------------------------------------------------------------------------

/// Full-width letters and digits, the ideographic space and full-width
/// parentheses folded to their ASCII forms.
pub open spec fn half_width(c: char) -> char {
    let u = c as u32;
    if 0xFF21 <= u <= 0xFF3A {
        ((u - 0xFF21 + 0x41) as u8) as char
    } else if 0xFF41 <= u <= 0xFF5A {
        ((u - 0xFF41 + 0x61) as u8) as char
    } else if 0xFF10 <= u <= 0xFF19 {
        ((u - 0xFF10 + 0x30) as u8) as char
    } else if c == '\u{3000}' {
        ' '
    } else if c == '\u{FF08}' {
        '('
    } else if c == '\u{FF09}' {
        ')'
    } else {
        c
    }
}

/// `_` and `-` become spaces.
pub open spec fn unify_separator(c: char) -> char {
    if c == '_' || c == '-' {
        ' '
    } else {
        c
    }
}

/// Index of the first whitespace character of `s` (or its length).
pub open spec fn word_len(s: Seq<char>) -> nat
    decreases s.len(),
{
    if s.len() == 0 || is_ws(s[0]) {
        0
    } else {
        1 + word_len(s.drop_first())
    }
}

/// `str::split_whitespace`: the maximal runs of non-whitespace characters.
pub open spec fn words(s: Seq<char>) -> Seq<Seq<char>>
    decreases s.len(),
{
    let t = trim_start(s);
    if t.len() == 0 {
        seq![]
    } else {
        let k = word_len(t);
        if 0 < k <= t.len() && t.len() < s.len() + 1 {
            seq![t.take(k as int)] + words(t.skip(k as int))
        } else {
            seq![]
        }
    }
}

/// What `normalize_name` returns: trimmed, folded to half width,
/// lower-cased, `_` and `-` turned to spaces, and runs of whitespace
/// collapsed to single spaces.
pub open spec fn normalized(name: Seq<char>) -> Seq<char> {
    let folded = trim(name).map_values(|c: char| half_width(c));
    let unified = lowercase(folded).map_values(|c: char| unify_separator(c));
    join(words(unified), seq![' '])
}

fn half_width_exec(c: char) -> (r: char)
    ensures
        r == half_width(c),
{
    let u = c as u32;
    if 0xFF21 <= u && u <= 0xFF3A {
        ((u - 0xFF21 + 0x41) as u8) as char
    } else if 0xFF41 <= u && u <= 0xFF5A {
        ((u - 0xFF41 + 0x61) as u8) as char
    } else if 0xFF10 <= u && u <= 0xFF19 {
        ((u - 0xFF10 + 0x30) as u8) as char
    } else if c == '\u{3000}' {
        ' '
    } else if c == '\u{FF08}' {
        '('
    } else if c == '\u{FF09}' {
        ')'
    } else {
        c
    }
}

proof fn lemma_word_len(s: Seq<char>)
    ensures
        word_len(s) <= s.len(),
        forall|k: int| 0 <= k < word_len(s) ==> !is_ws(#[trigger] s[k]),
        word_len(s) < s.len() ==> is_ws(s[word_len(s) as int]),
    decreases s.len(),
{
    if s.len() > 0 && !is_ws(s[0]) {
        lemma_word_len(s.drop_first());
        assert forall|k: int| 0 <= k < word_len(s) implies !is_ws(#[trigger] s[k]) by {
            if k > 0 {
                assert(s[k] == s.drop_first()[k - 1]);
            }
        }
    }
}

proof fn lemma_word_len_char(s: Seq<char>, n: nat)
    requires
        n <= s.len(),
        forall|k: int| 0 <= k < n ==> !is_ws(#[trigger] s[k]),
        n < s.len() ==> is_ws(s[n as int]),
    ensures
        word_len(s) == n,
    decreases s.len(),
{
    if n > 0 {
        assert(!is_ws(s[0]));
        assert forall|k: int| 0 <= k < n - 1 implies !is_ws(#[trigger] s.drop_first()[k]) by {
            assert(s.drop_first()[k] == s[k + 1]);
        }
        if n - 1 < s.drop_first().len() {
            assert(s.drop_first()[n - 1] == s[n as int]);
        }
        lemma_word_len_char(s.drop_first(), (n - 1) as nat);
    }
}

/// `split_whitespace` followed by `join(" ")`.
pub fn collapse_whitespace(cs: &Vec<char>) -> (out: Vec<char>)
    ensures
        out@ == join(words(cs@), seq![' ']),
{
    let mut out: Vec<char> = Vec::new();
    let mut p: usize = 0;
    let ghost mut done: Seq<Seq<char>> = seq![];
    let mut first = true;
    assert(cs@.skip(0) =~= cs@);
    while p < cs.len()
        invariant
            p <= cs.len(),
            done + words(cs@.skip(p as int)) == words(cs@),
            out@ == join(done, seq![' ']),
            first == (done.len() == 0),
        decreases cs.len() - p,
    {
        let ghost rest = cs@.skip(p as int);
        let mut q = p;
        while q < cs.len() && is_whitespace(cs[q])
            invariant
                p <= q <= cs.len(),
                forall|k: int| p <= k < q ==> is_ws(#[trigger] cs@[k]),
            decreases cs.len() - q,
        {
            q = q + 1;
        }
        proof {
            assert forall|k: int| 0 <= k < q - p implies is_ws(#[trigger] rest[k]) by {
                assert(rest[k] == cs@[p + k]);
            }
            if q < cs.len() {
                assert(rest[q - p] == cs@[q as int]);
            }
            crate::text::lemma_lead_ws_char(rest, (q - p) as nat);
            assert(trim_start(rest) =~= cs@.skip(q as int));
        }
        if q == cs.len() {
            proof {
                assert(trim_start(rest).len() == 0);
                assert(words(rest) =~= Seq::<Seq<char>>::empty());
                assert(done + words(cs@.skip(q as int)) =~= done);
                assert(cs@.skip(q as int) =~= Seq::<char>::empty());
            }
            p = q;
        } else {
            let mut e = q;
            while e < cs.len() && !is_whitespace(cs[e])
                invariant
                    q <= e <= cs.len(),
                    forall|k: int| q <= k < e ==> !is_ws(#[trigger] cs@[k]),
                decreases cs.len() - e,
            {
                e = e + 1;
            }
            let ghost t = cs@.skip(q as int);
            proof {
                assert forall|k: int| 0 <= k < e - q implies !is_ws(#[trigger] t[k]) by {
                    assert(t[k] == cs@[q + k]);
                }
                if e < cs.len() {
                    assert(t[e - q] == cs@[e as int]);
                }
                lemma_word_len_char(t, (e - q) as nat);
                assert(t.take(e - q) =~= cs@.subrange(q as int, e as int));
                assert(t.skip(e - q) =~= cs@.skip(e as int));
                assert(words(rest) =~= seq![cs@.subrange(q as int, e as int)] + words(
                    cs@.skip(e as int),
                ));
            }
            let ghost before = out@;
            if !first {
                out.push(' ');
            }
            let mut k = q;
            while k < e
                invariant
                    q <= k <= e <= cs.len(),
                    out@ == (if done.len() > 0 {
                        before.push(' ')
                    } else {
                        before
                    }) + cs@.subrange(q as int, k as int),
                decreases e - k,
            {
                out.push(cs[k]);
                k = k + 1;
                assert(cs@.subrange(q as int, k as int) =~= cs@.subrange(q as int, k - 1).push(
                    cs@[k - 1],
                ));
            }
            proof {
                let w = cs@.subrange(q as int, e as int);
                let nd = done.push(w);
                assert(nd.drop_last() =~= done);
                if done.len() == 0 {
                    assert(out@ =~= join(nd, seq![' ']));
                } else {
                    assert(out@ =~= join(done, seq![' ']) + seq![' '] + w);
                }
                assert(nd + words(cs@.skip(e as int)) =~= done + (seq![w] + words(
                    cs@.skip(e as int),
                )));
                done = nd;
            }
            first = false;
            p = e;
        }
    }
    assert(words(cs@.skip(p as int)) =~= Seq::<Seq<char>>::empty()) by {
        assert(cs@.skip(p as int).len() == 0);
        assert(trim_start(cs@.skip(p as int)).len() == 0);
    }
    assert(done =~= words(cs@));
    out
}

/// `str::split_whitespace`, collected.
pub fn split_whitespace(s: &str) -> (out: Vec<String>)
    ensures
        out@.map_values(|w: String| w@) == words(s@),
{
    let cs = chars_of(s);
    let mut out: Vec<String> = Vec::new();
    let mut p: usize = 0;
    assert(cs@.skip(0) =~= cs@);
    assert(out@.map_values(|w: String| w@) =~= Seq::<Seq<char>>::empty());
    while p < cs.len()
        invariant
            p <= cs.len(),
            cs@ == s@,
            out@.map_values(|w: String| w@) + words(cs@.skip(p as int)) == words(cs@),
        decreases cs.len() - p,
    {
        let ghost rest = cs@.skip(p as int);
        let ghost done = out@.map_values(|w: String| w@);
        let mut q = p;
        while q < cs.len() && is_whitespace(cs[q])
            invariant
                p <= q <= cs.len(),
                forall|k: int| p <= k < q ==> is_ws(#[trigger] cs@[k]),
            decreases cs.len() - q,
        {
            q = q + 1;
        }
        proof {
            assert forall|k: int| 0 <= k < q - p implies is_ws(#[trigger] rest[k]) by {
                assert(rest[k] == cs@[p + k]);
            }
            if q < cs.len() {
                assert(rest[q - p] == cs@[q as int]);
            }
            crate::text::lemma_lead_ws_char(rest, (q - p) as nat);
            assert(trim_start(rest) =~= cs@.skip(q as int));
        }
        if q == cs.len() {
            proof {
                assert(trim_start(rest).len() == 0);
                assert(words(rest) =~= Seq::<Seq<char>>::empty());
                assert(cs@.skip(q as int) =~= Seq::<char>::empty());
                assert(done + words(cs@.skip(q as int)) =~= done);
            }
            p = q;
        } else {
            let mut e = q;
            while e < cs.len() && !is_whitespace(cs[e])
                invariant
                    q <= e <= cs.len(),
                    forall|k: int| q <= k < e ==> !is_ws(#[trigger] cs@[k]),
                decreases cs.len() - e,
            {
                e = e + 1;
            }
            let ghost t = cs@.skip(q as int);
            proof {
                assert forall|k: int| 0 <= k < e - q implies !is_ws(#[trigger] t[k]) by {
                    assert(t[k] == cs@[q + k]);
                }
                if e < cs.len() {
                    assert(t[e - q] == cs@[e as int]);
                }
                lemma_word_len_char(t, (e - q) as nat);
                assert(t.take(e - q) =~= cs@.subrange(q as int, e as int));
                assert(t.skip(e - q) =~= cs@.skip(e as int));
                assert(words(rest) =~= seq![cs@.subrange(q as int, e as int)] + words(
                    cs@.skip(e as int),
                ));
            }
            let w = crate::text::string_of_range(&cs, q, e);
            out.push(w);
            proof {
                let nd = out@.map_values(|w: String| w@);
                assert(nd =~= done.push(cs@.subrange(q as int, e as int)));
                assert(nd + words(cs@.skip(e as int)) =~= done + (seq![cs@.subrange(q as int, e as int)]
                    + words(cs@.skip(e as int))));
            }
            p = e;
        }
    }
    assert(words(cs@.skip(p as int)) =~= Seq::<Seq<char>>::empty()) by {
        assert(cs@.skip(p as int).len() == 0);
        assert(trim_start(cs@.skip(p as int)).len() == 0);
    }
    assert(out@.map_values(|w: String| w@) =~= words(cs@));
    out
}

impl DedupService {
    /// Normalises a page name: trims it, folds full-width letters, digits,
    /// space and parentheses to ASCII, lower-cases it, turns `_` and `-`
    /// into spaces and collapses runs of whitespace into single spaces.
    pub fn normalize_name(name: &str) -> (out: String)
        ensures
            out@ == normalized(name@),
    {
        let cs = chars_of(name);
        let (lo, hi) = trim_bounds(&cs, 0, cs.len());
        assert(cs@.subrange(0, cs@.len() as int) =~= cs@);
        let mut folded: Vec<char> = Vec::new();
        let mut i = lo;
        while i < hi
            invariant
                lo <= i <= hi <= cs.len(),
                folded@ == cs@.subrange(lo as int, i as int).map_values(|c: char| half_width(c)),
            decreases hi - i,
        {
            folded.push(half_width_exec(cs[i]));
            i = i + 1;
            assert(cs@.subrange(lo as int, i as int).map_values(|c: char| half_width(c))
                =~= cs@.subrange(lo as int, i - 1).map_values(|c: char| half_width(c)).push(
                half_width(cs@[i - 1]),
            ));
        }
        let fs = string_of(&folded);
        let lower = to_lowercase(fs.as_str());
        let lc = chars_of(lower.as_str());
        let mut unified: Vec<char> = Vec::new();
        let mut k: usize = 0;
        while k < lc.len()
            invariant
                k <= lc.len(),
                unified@ == lc@.take(k as int).map_values(|c: char| unify_separator(c)),
            decreases lc.len() - k,
        {
            let c = lc[k];
            unified.push(if c == '_' || c == '-' {
                ' '
            } else {
                c
            });
            k = k + 1;
            assert(lc@.take(k as int).map_values(|c: char| unify_separator(c)) =~= lc@.take(
                k - 1,
            ).map_values(|c: char| unify_separator(c)).push(unify_separator(lc@[k - 1])));
        }
        assert(lc@.take(lc@.len() as int) =~= lc@);
        let out = collapse_whitespace(&unified);
        string_of(&out)
    }

    /// The slug base of a name: the name with its hash suffix stripped.
    pub fn slug_base_from_name(name: &str) -> (out: String)
        ensures
            out@ == slug_base(name@),
    {
        Self::strip_hash_suffix(name)
    }

    /// Strips a trailing "-<hex>" hash of at least six hex digits from a
    /// lower-cased slug and turns the remaining hyphens into spaces.
    pub fn strip_hash_suffix(slug: &str) -> (out: String)
        ensures
            out@ == slug_base(slug@),
    {
        let lower = to_lowercase(slug);
        let cs = chars_of(lower.as_str());
        let cut = find_hash_cut(&cs);
        proof {
            lemma_hash_cut(cs@, cs@.len() as int);
        }
        let mut out: Vec<char> = Vec::new();
        let mut k: usize = 0;
        while k < cut
            invariant
                cut <= cs.len(),
                k <= cut,
                out@ == cs@.take(k as int).map_values(|c: char| dash_to_space(c)),
            decreases cut - k,
        {
            out.push(if cs[k] == '-' {
                ' '
            } else {
                cs[k]
            });
            k = k + 1;
            assert(cs@.take(k as int).map_values(|c: char| dash_to_space(c)) =~= cs@.take(
                k - 1,
            ).map_values(|c: char| dash_to_space(c)).push(dash_to_space(cs@[k - 1])));
        }
        string_of(&out)
    }
}

/// ASCII hexadecimal digit (`char::is_ascii_hexdigit`).
pub open spec fn is_hex(c: char) -> bool {
    ('0' <= c && c <= '9') || ('a' <= c && c <= 'f') || ('A' <= c && c <= 'F')
}

/// Whether position `i` starts a hash suffix: a `-` followed by at least six
/// characters, all hexadecimal digits.
pub open spec fn hash_suffix_at(cs: Seq<char>, i: int) -> bool {
    0 <= i < cs.len() && cs[i] == '-' && cs.len() - i > 6 && forall|k: int|
        i < k < cs.len() ==> is_hex(#[trigger] cs[k])
}

/// The last hash-suffix position before `n`, or the length when there is none.
pub open spec fn hash_cut_before(cs: Seq<char>, n: int) -> int
    decreases n,
{
    if n <= 0 || n > cs.len() {
        cs.len() as int
    } else if hash_suffix_at(cs, n - 1) {
        n - 1
    } else {
        hash_cut_before(cs, n - 1)
    }
}

pub open spec fn dash_to_space(c: char) -> char {
    if c == '-' {
        ' '
    } else {
        c
    }
}

/// What `strip_hash_suffix` returns: the lower-cased slug cut before its
/// hash suffix, hyphens turned into spaces.
pub open spec fn slug_base(slug: Seq<char>) -> Seq<char> {
    let cs = lowercase(slug);
    cs.take(hash_cut_before(cs, cs.len() as int)).map_values(|c: char| dash_to_space(c))
}

proof fn lemma_hash_cut(cs: Seq<char>, n: int)
    requires
        0 <= n <= cs.len(),
    ensures
        0 <= hash_cut_before(cs, n) <= cs.len(),
    decreases n,
{
    if n > 0 && !hash_suffix_at(cs, n - 1) {
        lemma_hash_cut(cs, n - 1);
    }
}

fn find_hash_cut(cs: &Vec<char>) -> (cut: usize)
    ensures
        cut == hash_cut_before(cs@, cs@.len() as int),
{
    let len = cs.len();
    let mut n = len;
    while n > 0
        invariant
            n <= len == cs.len(),
            hash_cut_before(cs@, len as int) == hash_cut_before(cs@, n as int),
        decreases n,
    {
        let i = n - 1;
        if cs[i] == '-' && len - i > 6 && all_hex(cs, i + 1) {
            return i;
        }
        n = n - 1;
    }
    len
}

fn all_hex(cs: &Vec<char>, from: usize) -> (b: bool)
    requires
        from <= cs.len(),
    ensures
        b == forall|k: int| from <= k < cs.len() ==> is_hex(#[trigger] cs@[k]),
{
    let mut k = from;
    while k < cs.len()
        invariant
            from <= k <= cs.len(),
            forall|m: int| from <= m < k ==> is_hex(#[trigger] cs@[m]),
        decreases cs.len() - k,
    {
        let c = cs[k];
        if !(('0' <= c && c <= '9') || ('a' <= c && c <= 'f') || ('A' <= c && c <= 'F')) {
            return false;
        }
        k = k + 1;
    }
    true
}

// ---------------------------------------------------------------------------
// Edit distance
// ---------------------------------------------------------------------------

/// Levenshtein distance: the least number of single-character insertions,
/// deletions and substitutions that turn `a` into `b`.
pub open spec fn levenshtein(a: Seq<char>, b: Seq<char>) -> nat
    decreases a.len() + b.len(),
{
    if a.len() == 0 {
        b.len()
    } else if b.len() == 0 {
        a.len()
    } else {
        let cost: nat = if a.last() == b.last() {
            0
        } else {
            1
        };
        vstd::math::min(
            vstd::math::min(
                (levenshtein(a.drop_last(), b) + 1) as int,
                (levenshtein(a, b.drop_last()) + 1) as int,
            ),
            (levenshtein(a.drop_last(), b.drop_last()) + cost) as int,
        ) as nat
    }
}

/// Law: the distance is at most the length of the longer string.
pub proof fn levenshtein_bounded(a: Seq<char>, b: Seq<char>)
    ensures
        levenshtein(a, b) <= vstd::math::max(a.len() as int, b.len() as int),
    decreases a.len() + b.len(),
{
    if a.len() > 0 && b.len() > 0 {
        levenshtein_bounded(a.drop_last(), b.drop_last());
        levenshtein_bounded(a.drop_last(), b);
        levenshtein_bounded(a, b.drop_last());
    }
}

/// Law: a string is at distance zero from itself.
pub proof fn levenshtein_self(a: Seq<char>)
    ensures
        levenshtein(a, a) == 0,
    decreases a.len(),
{
    if a.len() > 0 {
        levenshtein_self(a.drop_last());
    }
}

/// Law: the distance is at least the difference of the lengths.
pub proof fn levenshtein_at_least_length_gap(a: Seq<char>, b: Seq<char>)
    ensures
        levenshtein(a, b) >= a.len() - b.len(),
        levenshtein(a, b) >= b.len() - a.len(),
    decreases a.len() + b.len(),
{
    if a.len() > 0 && b.len() > 0 {
        levenshtein_at_least_length_gap(a.drop_last(), b.drop_last());
        levenshtein_at_least_length_gap(a.drop_last(), b);
        levenshtein_at_least_length_gap(a, b.drop_last());
    }
}

/// Law: the distance is zero exactly when the strings are equal.
pub proof fn levenshtein_zero_iff_equal(a: Seq<char>, b: Seq<char>)
    ensures
        levenshtein(a, b) == 0 <==> a == b,
    decreases a.len() + b.len(),
{
    if a == b {
        levenshtein_self(a);
    } else if levenshtein(a, b) == 0 {
        levenshtein_at_least_length_gap(a, b);
        if a.len() > 0 && b.len() > 0 {
            levenshtein_zero_iff_equal(a.drop_last(), b.drop_last());
            assert(a.last() == b.last());
            assert(a.drop_last() == b.drop_last());
            assert(a =~= a.drop_last().push(a.last()));
            assert(b =~= b.drop_last().push(b.last()));
        } else {
            assert(a =~= b);
        }
    }
}

/// Law: the distance satisfies the triangle inequality.
pub proof fn levenshtein_triangle(a: Seq<char>, b: Seq<char>, c: Seq<char>)
    ensures
        levenshtein(a, c) <= levenshtein(a, b) + levenshtein(b, c),
    decreases a.len() + b.len() + c.len(),
{
    if b.len() == 0 {
        levenshtein_bounded(a, c);
    } else if a.len() == 0 {
        levenshtein_at_least_length_gap(b, c);
    } else if c.len() == 0 {
        levenshtein_at_least_length_gap(a, b);
    } else {
        let a1 = a.drop_last();
        let b1 = b.drop_last();
        let c1 = c.drop_last();
        levenshtein_triangle(a1, b, c);
        levenshtein_triangle(a, b, c1);
        levenshtein_triangle(a, b1, c);
        levenshtein_triangle(a, b1, c1);
        levenshtein_triangle(a1, b1, c);
        levenshtein_triangle(a1, b1, c1);
    }
}

/// Law: the distance is symmetric.
pub proof fn levenshtein_symmetric(a: Seq<char>, b: Seq<char>)
    ensures
        levenshtein(a, b) == levenshtein(b, a),
    decreases a.len() + b.len(),
{
    if a.len() > 0 && b.len() > 0 {
        levenshtein_symmetric(a.drop_last(), b);
        levenshtein_symmetric(a, b.drop_last());
        levenshtein_symmetric(a.drop_last(), b.drop_last());
    }
}

impl DedupService {
    /// Levenshtein distance of two strings, counted in characters.
    pub fn edit_distance(a: &str, b: &str) -> (d: usize)
        requires
            a@.len() < usize::MAX,
            b@.len() < usize::MAX,
        ensures
            d == levenshtein(a@, b@),
    {
        let ac = chars_of(a);
        let bc = chars_of(b);
        let n = ac.len();
        let m = bc.len();
        let mut prev: Vec<usize> = Vec::new();
        let mut j: usize = 0;
        while j <= m
            invariant
                m == bc.len() < usize::MAX,
                j <= m + 1,
                prev.len() == j,
                forall|k: int|
                    0 <= k < j ==> prev@[k] == levenshtein(ac@.take(0), bc@.take(k)),
            decreases m + 1 - j,
        {
            proof {
                assert(ac@.take(0).len() == 0);
            }
            prev.push(j);
            j = j + 1;
        }
        let mut i: usize = 1;
        while i <= n
            invariant
                n == ac.len() < usize::MAX,
                m == bc.len() < usize::MAX,
                1 <= i <= n + 1,
                prev.len() == m + 1,
                forall|k: int|
                    0 <= k <= m ==> prev@[k] == levenshtein(ac@.take(i - 1), bc@.take(k)),
            decreases n + 1 - i,
        {
            let mut cur: Vec<usize> = Vec::new();
            proof {
                assert(bc@.take(0).len() == 0);
                assert(ac@.take(i as int).len() == i);
            }
            cur.push(i);
            let mut j: usize = 1;
            while j <= m
                invariant
                    n == ac.len() < usize::MAX,
                    m == bc.len() < usize::MAX,
                    1 <= i <= n,
                    1 <= j <= m + 1,
                    prev.len() == m + 1,
                    cur.len() == j,
                    forall|k: int|
                        0 <= k <= m ==> prev@[k] == levenshtein(ac@.take(i - 1), bc@.take(k)),
                    forall|k: int|
                        0 <= k < j ==> cur@[k] == levenshtein(ac@.take(i as int), bc@.take(k)),
                decreases m + 1 - j,
            {
                let ghost ai = ac@.take(i as int);
                let ghost bj = bc@.take(j as int);
                proof {
                    assert(ai.drop_last() =~= ac@.take(i - 1));
                    assert(bj.drop_last() =~= bc@.take(j - 1));
                    assert(ai.last() == ac@[i - 1]);
                    assert(bj.last() == bc@[j - 1]);
                    levenshtein_bounded(ac@.take(i - 1), bc@.take(j as int));
                    levenshtein_bounded(ai, bc@.take(j - 1));
                    levenshtein_bounded(ac@.take(i - 1), bc@.take(j - 1));
                }
                let cost: usize = if ac[i - 1] == bc[j - 1] {
                    0
                } else {
                    1
                };
                let del = prev[j] + 1;
                let ins = cur[j - 1] + 1;
                let sub = prev[j - 1] + cost;
                let best = if del < ins {
                    del
                } else {
                    ins
                };
                let best = if best < sub {
                    best
                } else {
                    sub
                };
                cur.push(best);
                j = j + 1;
            }
            prev = cur;
            i = i + 1;
        }
        proof {
            assert(ac@.take(n as int) =~= ac@);
            assert(bc@.take(m as int) =~= bc@);
        }
        prev[m]
    }
}

/// Law: a normalised name is made of non-empty words without whitespace,
/// joined by single spaces; it has no `_` or `-`.
pub proof fn normalized_is_normal_form(name: Seq<char>)
    ensures
        forall|k: int|
            0 <= k < words_of_normalized(name).len() ==> #[trigger] words_of_normalized(name)[k].len()
                > 0,
        normalized(name) == join(words_of_normalized(name), seq![' ']),
        forall|k: int, m: int|
            0 <= k < words_of_normalized(name).len() && 0 <= m < words_of_normalized(name)[k].len()
                ==> !is_ws(#[trigger] words_of_normalized(name)[k][m]) && words_of_normalized(
                name,
            )[k][m] != '_' && words_of_normalized(name)[k][m] != '-',
{
    let unified = lowercase(trim(name).map_values(|c: char| half_width(c))).map_values(
        |c: char| unify_separator(c),
    );
    assert forall|k: int| 0 <= k < unified.len() implies #[trigger] unified[k] != '_'
        && unified[k] != '-' by {}
    lemma_words(unified);
}

/// The words of a normalised name.
pub open spec fn words_of_normalized(name: Seq<char>) -> Seq<Seq<char>> {
    words(
        lowercase(trim(name).map_values(|c: char| half_width(c))).map_values(
            |c: char| unify_separator(c),
        ),
    )
}

/// The words of `s` are non-empty, hold no whitespace, and hold only
/// characters of `s`.
proof fn lemma_words(s: Seq<char>)
    requires
        forall|k: int| 0 <= k < s.len() ==> #[trigger] s[k] != '_' && s[k] != '-',
    ensures
        forall|k: int| 0 <= k < words(s).len() ==> #[trigger] words(s)[k].len() > 0,
        forall|k: int, m: int|
            0 <= k < words(s).len() && 0 <= m < words(s)[k].len() ==> !is_ws(
                #[trigger] words(s)[k][m],
            ) && words(s)[k][m] != '_' && words(s)[k][m] != '-',
    decreases s.len(),
{
    let t = trim_start(s);
    lemma_lead_ws(s);
    if t.len() > 0 {
        let kk = word_len(t);
        lemma_word_len(t);
        assert(!is_ws(t[0]));
        assert(kk > 0);
        let rest = t.skip(kk as int);
        assert forall|k: int| 0 <= k < rest.len() implies #[trigger] rest[k] != '_' && rest[k]
            != '-' by {
            assert(rest[k] == s[lead_ws(s) + kk + k]);
        }
        lemma_words(rest);
        let ws = words(s);
        assert(ws == seq![t.take(kk as int)] + words(rest));
        assert forall|k: int, m: int| 0 <= k < ws.len() && 0 <= m < ws[k].len() implies !is_ws(
            #[trigger] ws[k][m],
        ) && ws[k][m] != '_' && ws[k][m] != '-' by {
            if k == 0 {
                assert(ws[k][m] == t[m]);
                assert(t[m] == s[lead_ws(s) + m]);
            } else {
                assert(ws[k] == words(rest)[k - 1]);
            }
        }
        assert forall|k: int| 0 <= k < ws.len() implies #[trigger] ws[k].len() > 0 by {
            if k > 0 {
                assert(ws[k] == words(rest)[k - 1]);
            }
        }
    }
}

// ---------------------------------------------------------------------------
// Duplicate pages
// ---------------------------------------------------------------------------

/// A wiki page as the duplicate detection reads it.
#[derive(Debug, Clone)]
pub struct PageRow {
    pub id: String,
    pub title: String,
    pub canonical_name: String,
    pub path: String,
}

/// Why page `b` is taken for a duplicate of page `a`, tried in order: the
/// same title, the same normalised title (not empty), the same slug base
/// of more than 3 bytes, the same canonical name (not empty).
pub open spec fn duplicate_kind(a: PageRow, b: PageRow) -> Option<Seq<char>> {
    if a.title@ == b.title@ {
        Some("exact_title"@)
    } else if normalized(a.title@) == normalized(b.title@) && normalized(a.title@).len() > 0 {
        Some("normalized"@)
    } else if slug_base(a.title@) == slug_base(b.title@) && crate::text::byte_len(slug_base(a.title@))
        > 3 {
        Some("slug_base"@)
    } else if a.canonical_name@ == b.canonical_name@ && a.canonical_name@.len() > 0 {
        Some("canonical"@)
    } else {
        None
    }
}

/// The pages after page `i` and before page `j` that join the group of page
/// `i`, given the ids already grouped before the scan: each page not yet
/// grouped that duplicates page `i` joins. Also gives the ids grouped after
/// the scan and the reason of the first page that joined.
pub open spec fn members_upto(pages: Seq<PageRow>, i: int, j: int, grouped: Set<Seq<char>>) -> (
    Seq<int>,
    Set<Seq<char>>,
    Seq<char>,
)
    decreases j - i,
{
    if j <= i + 1 {
        (Seq::empty(), grouped, Seq::empty())
    } else {
        let (ms, g, kind) = members_upto(pages, i, j - 1, grouped);
        let k = j - 1;
        if g.contains(pages[k].id@) {
            (ms, g, kind)
        } else {
            match duplicate_kind(pages[i], pages[k]) {
                Some(why) => (
                    ms.push(k),
                    g.insert(pages[k].id@),
                    if kind.len() == 0 {
                        why
                    } else {
                        kind
                    },
                ),
                None => (ms, g, kind),
            }
        }
    }
}

/// A group of duplicates as the specification describes it: the index of
/// its first page, the indices of the others, and the reason.
pub type GroupSpec = (int, Seq<int>, Seq<char>);

/// The groups found among the first `i` pages, and the ids grouped so far:
/// each page not yet grouped gathers the later pages that duplicate it; it
/// forms a group when at least one does.
pub open spec fn groups_upto(pages: Seq<PageRow>, i: int) -> (Seq<GroupSpec>, Set<Seq<char>>)
    decreases i,
{
    if i <= 0 {
        (Seq::empty(), Set::empty())
    } else {
        let (gs, g) = groups_upto(pages, i - 1);
        let a = i - 1;
        if g.contains(pages[a].id@) {
            (gs, g)
        } else {
            let (ms, g2, kind) = members_upto(pages, a, pages.len() as int, g);
            if ms.len() > 0 {
                (gs.push((a, ms, kind)), g2.insert(pages[a].id@))
            } else {
                (gs, g2)
            }
        }
    }
}

/// What a group of duplicates holds, from its specification.
pub open spec fn group_matches(pages: Seq<PageRow>, g: DuplicatePageGroup, s: GroupSpec) -> bool {
    let (a, ms, kind) = s;
    let members = seq![a] + ms;
    &&& g.canonical_name@ == pages[a].canonical_name@
    &&& g.normalized_name@ == normalized(pages[a].title@)
    &&& g.match_type@ == kind
    &&& g.page_ids@.len() == members.len()
    &&& g.page_titles@.len() == members.len()
    &&& g.page_paths@.len() == members.len()
    &&& forall|k: int|
        0 <= k < members.len() ==> {
            &&& #[trigger] g.page_ids@[k]@ == pages[members[k]].id@
            &&& g.page_titles@[k]@ == pages[members[k]].title@
            &&& g.page_paths@[k]@ == pages[members[k]].path@
        }
}

fn vec_has(v: &Vec<String>, x: &String) -> (b: bool)
    ensures
        b == v@.map_values(|s: String| s@).contains(x@),
{
    let xc = chars_of(x.as_str());
    let mut i: usize = 0;
    while i < v.len()
        invariant
            i <= v@.len(),
            xc@ == x@,
            forall|k: int| 0 <= k < i ==> v@[k]@ != x@,
        decreases v.len() - i,
    {
        let c = chars_of(v[i].as_str());
        if crate::gateway::seq_eq(&c, &xc) {
            assert(v@.map_values(|s: String| s@)[i as int] == x@);
            return true;
        }
        i = i + 1;
    }
    let ghost vs = v@.map_values(|s: String| s@);
    assert forall|k: int| 0 <= k < vs.len() implies #[trigger] vs[k] != x@ by {
        assert(vs[k] == v@[k]@);
    }
    false
}

impl DedupService {
    /// Groups wiki pages that look like duplicates (see `groups_upto`),
    /// scanning the pages in the given order.
    #[verifier::spinoff_prover]
    #[verifier::rlimit(40)]
    pub fn detect_duplicate_pages(pages: &Vec<PageRow>) -> (groups: Vec<DuplicatePageGroup>)
        requires
            pages@.len() < usize::MAX,
        ensures
            groups@.len() == groups_upto(pages@, pages@.len() as int).0.len(),
            forall|k: int|
                0 <= k < groups@.len() ==> group_matches(
                    pages@,
                    #[trigger] groups@[k],
                    groups_upto(pages@, pages@.len() as int).0[k],
                ),
    {
        let n = pages.len();
        let mut norms: Vec<String> = Vec::new();
        let mut slugs: Vec<String> = Vec::new();
        let mut slug_long: Vec<bool> = Vec::new();
        let mut t: usize = 0;
        while t < n
            invariant
                t <= n == pages@.len(),
                norms@.len() == t,
                slugs@.len() == t,
                slug_long@.len() == t,
                forall|k: int| 0 <= k < t ==> #[trigger] norms@[k]@ == normalized(pages@[k].title@),
                forall|k: int| 0 <= k < t ==> #[trigger] slugs@[k]@ == slug_base(pages@[k].title@),
                forall|k: int|
                    0 <= k < t ==> #[trigger] slug_long@[k] == (crate::text::byte_len(
                        slug_base(pages@[k].title@),
                    ) > 3),
            decreases n - t,
        {
            norms.push(Self::normalize_name(pages[t].title.as_str()));
            let sl = Self::strip_hash_suffix(pages[t].title.as_str());
            slug_long.push(sl.as_str().as_bytes().len() > 3);
            slugs.push(sl);
            t = t + 1;
        }
        let mut groups: Vec<DuplicatePageGroup> = Vec::new();
        let mut grouped: Vec<String> = Vec::new();
        let mut i: usize = 0;
        while i < n
            invariant
                i <= n == pages@.len(),
                n < usize::MAX,
                norms@.len() == n && slugs@.len() == n && slug_long@.len() == n,
                forall|k: int| 0 <= k < n ==> #[trigger] norms@[k]@ == normalized(pages@[k].title@),
                forall|k: int| 0 <= k < n ==> #[trigger] slugs@[k]@ == slug_base(pages@[k].title@),
                forall|k: int|
                    0 <= k < n ==> #[trigger] slug_long@[k] == (crate::text::byte_len(
                        slug_base(pages@[k].title@),
                    ) > 3),
                grouped@.map_values(|s: String| s@).to_set() == groups_upto(pages@, i as int).1,
                groups@.len() == groups_upto(pages@, i as int).0.len(),
                forall|k: int|
                    0 <= k < groups@.len() ==> group_matches(
                        pages@,
                        #[trigger] groups@[k],
                        groups_upto(pages@, i as int).0[k],
                    ),
            decreases n - i,
        {
            let ghost before = groups_upto(pages@, i as int);
            if vec_has(&grouped, &pages[i].id) {
                assert(groups_upto(pages@, i + 1) == before);
                i = i + 1;
                continue;
            }
            assert(!before.1.contains(pages@[i as int].id@));
            let mut ids: Vec<String> = Vec::new();
            let mut titles: Vec<String> = Vec::new();
            let mut paths: Vec<String> = Vec::new();
            ids.push(pages[i].id.clone());
            titles.push(pages[i].title.clone());
            paths.push(pages[i].path.clone());
            let mut kind = String::new();
            let mut j: usize = i + 1;
            let ghost g0 = before.1;
            assert(members_upto(pages@, i as int, j as int, g0) == (Seq::<int>::empty(), g0, Seq::<char>::empty()));
            while j < n
                invariant
                    i < n == pages@.len(),
                    i + 1 <= j <= n,
                    norms@.len() == n && slugs@.len() == n && slug_long@.len() == n,
                    forall|k: int| 0 <= k < n ==> #[trigger] norms@[k]@ == normalized(pages@[k].title@),
                    forall|k: int| 0 <= k < n ==> #[trigger] slugs@[k]@ == slug_base(pages@[k].title@),
                    forall|k: int|
                        0 <= k < n ==> #[trigger] slug_long@[k] == (crate::text::byte_len(
                            slug_base(pages@[k].title@),
                        ) > 3),
                    ({
                        let (ms, g, why) = members_upto(pages@, i as int, j as int, g0);
                        &&& grouped@.map_values(|s: String| s@).to_set() == g
                        &&& kind@ == why
                        &&& ids@.len() == ms.len() + 1
                        &&& titles@.len() == ms.len() + 1
                        &&& paths@.len() == ms.len() + 1
                        &&& forall|k: int|
                            0 <= k < ms.len() + 1 ==> {
                                let idx = (seq![i as int] + ms)[k];
                                &&& #[trigger] ids@[k]@ == pages@[idx].id@
                                &&& titles@[k]@ == pages@[idx].title@
                                &&& paths@[k]@ == pages@[idx].path@
                            }
                    }),
                decreases n - j,
            {
                let ghost (ms0, gs0, why0) = members_upto(pages@, i as int, j as int, g0);
                let ghost gv = grouped@.map_values(|s: String| s@);
                let pi = &pages[i];
                let pj = &pages[j];
                if !vec_has(&grouped, &pj.id) {
                    assert(!gs0.contains(pj.id@));
                    let why: Option<&str> = if pi.title == pj.title {
                        Some("exact_title")
                    } else if norms[i] == norms[j] && !norms[i].as_str().is_empty() {
                        Some("normalized")
                    } else if slugs[i] == slugs[j] && slug_long[i] {
                        Some("slug_base")
                    } else if pi.canonical_name == pj.canonical_name && !pi.canonical_name.as_str().is_empty() {
                        Some("canonical")
                    } else {
                        None
                    };
                    assert(match (why, duplicate_kind(pages@[i as int], pages@[j as int])) {
                        (Some(w), Some(w2)) => w@ == w2,
                        (None, None) => true,
                        _ => false,
                    });
                    if let Some(w) = why {
                        if kind.as_str().is_empty() {
                            kind = String::from_str(w);
                        }
                        ids.push(pj.id.clone());
                        titles.push(pj.title.clone());
                        paths.push(pj.path.clone());
                        grouped.push(pj.id.clone());
                        proof {
                            assert(grouped@.map_values(|s: String| s@) =~= gv.push(pj.id@));
                            assert(gv.push(pj.id@) =~= gv + seq![pj.id@]);
                            Seq::<Seq<char>>::lemma_to_set_insert_commutes(gv, pj.id@);
                            let ms1 = ms0.push(j as int);
                            assert forall|k: int| 0 <= k < ms1.len() + 1 implies {
                                let idx = (seq![i as int] + ms1)[k];
                                &&& #[trigger] ids@[k]@ == pages@[idx].id@
                                &&& titles@[k]@ == pages@[idx].title@
                                &&& paths@[k]@ == pages@[idx].path@
                            } by {
                                if k < ms0.len() + 1 {
                                    assert((seq![i as int] + ms1)[k] == (seq![i as int] + ms0)[k]);
                                } else {
                                    assert((seq![i as int] + ms1)[k] == j);
                                }
                            }
                        }
                    }
                } else {
                    assert(gs0.contains(pj.id@));
                }
                proof {
                    let nx = members_upto(pages@, i as int, j + 1, g0);
                    assert(nx.1 == grouped@.map_values(|s: String| s@).to_set());
                    assert(nx.2 == kind@);
                    assert(ids@.len() == nx.0.len() + 1);
                }
                j = j + 1;
            }
            let ghost (ms, g1, why1) = members_upto(pages@, i as int, n as int, g0);
            if ids.len() > 1 {
                let ghost gv = grouped@.map_values(|s: String| s@);
                grouped.push(pages[i].id.clone());
                proof {
                    assert(grouped@.map_values(|s: String| s@) =~= gv.push(pages@[i as int].id@));
                    assert(gv.push(pages@[i as int].id@) =~= gv + seq![pages@[i as int].id@]);
                    Seq::<Seq<char>>::lemma_to_set_insert_commutes(gv, pages@[i as int].id@);
                }
                let g = DuplicatePageGroup {
                    canonical_name: pages[i].canonical_name.clone(),
                    normalized_name: norms[i].clone(),
                    page_ids: ids,
                    page_titles: titles,
                    page_paths: paths,
                    match_type: kind,
                };
                let ghost old_groups = groups@;
                groups.push(g);
                proof {
                    let now = groups_upto(pages@, i + 1).0;
                    assert(now == before.0.push((i as int, ms, why1)));
                    assert forall|k: int| 0 <= k < groups@.len() implies group_matches(
                        pages@,
                        #[trigger] groups@[k],
                        now[k],
                    ) by {
                        if k < old_groups.len() {
                            assert(groups@[k] == old_groups[k]);
                        }
                    }
                }
            }
            i = i + 1;
        }
        groups
    }
}

/// The pages of a group: its first page, then the others.
pub open spec fn group_pages(g: GroupSpec) -> Seq<int> {
    seq![g.0] + g.1
}

proof fn lemma_members(pages: Seq<PageRow>, i: int, j: int, grouped: Set<Seq<char>>)
    requires
        0 <= i < pages.len(),
        j <= pages.len(),
    ensures
        ({
            let (ms, g, kind) = members_upto(pages, i, j, grouped);
            &&& forall|x: int, y: int| 0 <= x < y < ms.len() ==> ms[x] < ms[y]
            &&& forall|x: int| 0 <= x < ms.len() ==> i < #[trigger] ms[x] < j
            &&& forall|x: int|
                0 <= x < ms.len() ==> !grouped.contains(pages[#[trigger] ms[x]].id@)
                    && duplicate_kind(pages[i], pages[ms[x]]) is Some
            &&& grouped.subset_of(g)
            &&& forall|x: int| 0 <= x < ms.len() ==> g.contains(pages[#[trigger] ms[x]].id@)
            &&& forall|id: Seq<char>| #[trigger] g.contains(id) ==> grouped.contains(id) || exists|x: int|
                0 <= x < ms.len() && pages[ms[x]].id@ == id
        }),
    decreases j - i,
{
    if j > i + 1 {
        lemma_members(pages, i, j - 1, grouped);
        let (ms, g, kind) = members_upto(pages, i, j - 1, grouped);
        let k = j - 1;
        if !g.contains(pages[k].id@) {
            if duplicate_kind(pages[i], pages[k]) is Some {
                let ms2 = ms.push(k);
                let g2 = g.insert(pages[k].id@);
                assert forall|id: Seq<char>| #[trigger] g2.contains(id) implies grouped.contains(id)
                    || exists|x: int| 0 <= x < ms2.len() && pages[ms2[x]].id@ == id by {
                    if id == pages[k].id@ {
                        assert(ms2[ms.len() as int] == k);
                    } else {
                        assert(g.contains(id));
                        if !grouped.contains(id) {
                            let x = choose|x: int| 0 <= x < ms.len() && pages[ms[x]].id@ == id;
                            assert(ms2[x] == ms[x]);
                        }
                    }
                }
                assert forall|x: int| 0 <= x < ms2.len() implies !grouped.contains(
                    pages[#[trigger] ms2[x]].id@,
                ) && duplicate_kind(pages[i], pages[ms2[x]]) is Some by {
                    if x == ms.len() {
                        assert(!grouped.contains(pages[k].id@));
                    } else {
                        assert(ms2[x] == ms[x]);
                    }
                }
            }
        }
    }
}

/// Every page of every group has its id among the grouped ids.
pub open spec fn groups_recorded(pages: Seq<PageRow>, gs: Seq<GroupSpec>, g: Set<Seq<char>>) -> bool {
    forall|a: int, x: int|
        0 <= a < gs.len() && 0 <= x < group_pages(gs[a]).len() ==> g.contains(
            pages[#[trigger] group_pages(gs[a])[x]].id@,
        ) && 0 <= group_pages(gs[a])[x] < pages.len()
}

/// No page belongs to two groups.
pub open spec fn groups_disjoint(gs: Seq<GroupSpec>) -> bool {
    forall|a: int, b: int, x: int, y: int|
        0 <= a < b < gs.len() && 0 <= x < group_pages(gs[a]).len() && 0 <= y < group_pages(
            gs[b],
        ).len() ==> #[trigger] group_pages(gs[a])[x] != #[trigger] group_pages(gs[b])[y]
}

/// Every group has at least two pages, in page order, and its other pages
/// duplicate its first.
pub open spec fn groups_well_formed(pages: Seq<PageRow>, gs: Seq<GroupSpec>) -> bool {
    forall|a: int| 0 <= a < gs.len() ==> group_ok(pages, #[trigger] gs[a])
}

/// A group has at least two pages, in page order, and its other pages
/// duplicate its first.
pub open spec fn group_ok(pages: Seq<PageRow>, g: GroupSpec) -> bool {
    &&& g.1.len() > 0
    &&& forall|x: int, y: int|
        0 <= x < y < group_pages(g).len() ==> #[trigger] group_pages(g)[x] < #[trigger] group_pages(
            g,
        )[y]
    &&& forall|x: int| 0 <= x < g.1.len() ==> duplicate_kind(pages[g.0], pages[#[trigger] g.1[x]]) is Some
}

proof fn lemma_groups(pages: Seq<PageRow>, i: int)
    requires
        0 <= i <= pages.len(),
    ensures
        groups_recorded(pages, groups_upto(pages, i).0, groups_upto(pages, i).1),
        groups_disjoint(groups_upto(pages, i).0),
        groups_well_formed(pages, groups_upto(pages, i).0),
    decreases i,
{
    if i > 0 {
        lemma_groups(pages, i - 1);
        let (gs, g) = groups_upto(pages, i - 1);
        let a = i - 1;
        if !g.contains(pages[a].id@) {
            lemma_members(pages, a, pages.len() as int, g);
            let (ms, g2, kind) = members_upto(pages, a, pages.len() as int, g);
            if ms.len() > 0 {
                let ng = (a, ms, kind);
                let gs2 = gs.push(ng);
                let g3 = g2.insert(pages[a].id@);
                let np = group_pages(ng);
                assert(groups_upto(pages, i) == (gs2, g3));
                assert forall|x: int| 0 <= x < np.len() implies g3.contains(pages[#[trigger] np[x]].id@)
                    && 0 <= np[x] < pages.len() by {
                    if x > 0 {
                        assert(np[x] == ms[x - 1]);
                    }
                }
                assert forall|b: int, x: int|
                    0 <= b < gs2.len() && 0 <= x < group_pages(gs2[b]).len() implies g3.contains(
                    pages[#[trigger] group_pages(gs2[b])[x]].id@,
                ) && 0 <= group_pages(gs2[b])[x] < pages.len() by {
                    if b < gs.len() {
                        assert(gs2[b] == gs[b]);
                    }
                }
                assert forall|b: int, c: int, x: int, y: int|
                    0 <= b < c < gs2.len() && 0 <= x < group_pages(gs2[b]).len() && 0 <= y
                        < group_pages(gs2[c]).len() implies #[trigger] group_pages(gs2[b])[x]
                    != #[trigger] group_pages(gs2[c])[y] by {
                    assert(gs2[b] == gs[b]);
                    if c < gs.len() {
                        assert(gs2[c] == gs[c]);
                    } else {
                        let u = group_pages(gs[b])[x];
                        assert(g.contains(pages[u].id@));
                        if y == 0 {
                            assert(np[0] == a);
                        } else {
                            assert(np[y] == ms[y - 1]);
                            assert(!g.contains(pages[ms[y - 1]].id@));
                        }
                    }
                }
                assert(group_ok(pages, ng)) by {
                    assert forall|x: int| 0 <= x < ms.len() implies duplicate_kind(pages[a], pages[#[trigger] ms[x]]) is Some by {
                        assert(!g.contains(pages[ms[x]].id@));
                    }
                    assert forall|x: int, y: int| 0 <= x < y < np.len() implies #[trigger] np[x] < #[trigger] np[y] by {
                        if x == 0 {
                            assert(np[y] == ms[y - 1]);
                        } else {
                            assert(np[x] == ms[x - 1]);
                            assert(np[y] == ms[y - 1]);
                        }
                    }
                }
                assert forall|b: int| 0 <= b < gs2.len() implies group_ok(pages, #[trigger] gs2[b]) by {
                    if b < gs.len() {
                        assert(gs2[b] == gs[b]);
                    }
                }
                assert(groups_well_formed(pages, gs2));
            } else {
                assert(groups_upto(pages, i) == (gs, g2));
                assert forall|b: int, x: int|
                    0 <= b < gs.len() && 0 <= x < group_pages(gs[b]).len() implies g2.contains(
                    pages[#[trigger] group_pages(gs[b])[x]].id@,
                ) && 0 <= group_pages(gs[b])[x] < pages.len() by {}
            }
        } else {
            assert(groups_upto(pages, i) == (gs, g));
        }
    }
}

/// Whether no two pages share an id.
pub open spec fn ids_distinct(pages: Seq<PageRow>) -> bool {
    forall|p: int, q: int| 0 <= p < q < pages.len() ==> (#[trigger] pages[p]).id@ != (#[trigger] pages[q]).id@
}

proof fn lemma_groups_grow(pages: Seq<PageRow>, i: int, m: int)
    requires
        0 <= i <= m <= pages.len(),
    ensures
        groups_upto(pages, i).0.len() <= groups_upto(pages, m).0.len(),
        forall|a: int| 0 <= a < groups_upto(pages, i).0.len() ==> #[trigger] groups_upto(pages, m).0[a] == groups_upto(pages, i).0[a],
    decreases m - i,
{
    if m > i {
        lemma_groups_grow(pages, i, m - 1);
        let gs = groups_upto(pages, m - 1).0;
        let gm = groups_upto(pages, m).0;
        assert(gm == gs || gm == gs.push(gm.last()));
        assert forall|a: int| 0 <= a < groups_upto(pages, i).0.len() implies #[trigger] gm[a] == groups_upto(pages, i).0[a] by {
            assert(gs[a] == groups_upto(pages, i).0[a]);
            if gm != gs {
                assert(gm[a] == gs[a]);
            }
        }
    }
}

proof fn lemma_groups_start_before(pages: Seq<PageRow>, i: int)
    requires
        0 <= i <= pages.len(),
    ensures
        forall|a: int| 0 <= a < groups_upto(pages, i).0.len() ==> (#[trigger] groups_upto(pages, i).0[a]).0 < i,
    decreases i,
{
    if i > 0 {
        lemma_groups_start_before(pages, i - 1);
        let gs = groups_upto(pages, i - 1).0;
        let gi = groups_upto(pages, i).0;
        assert forall|a: int| 0 <= a < gi.len() implies (#[trigger] gi[a]).0 < i by {
            if a < gs.len() {
                assert(gi[a] == gs[a]);
            }
        }
    }
}

/// Every id grouped so far is that of a page of one of the groups.
proof fn lemma_grouped_ids_in_groups(pages: Seq<PageRow>, i: int)
    requires
        0 <= i <= pages.len(),
    ensures
        ({
            let (gs, g) = groups_upto(pages, i);
            forall|id: Seq<char>|
                #[trigger] g.contains(id) ==> exists|a: int, x: int|
                    0 <= a < gs.len() && 0 <= x < group_pages(gs[a]).len() && pages[#[trigger] group_pages(
                        gs[a],
                    )[x]].id@ == id
        }),
    decreases i,
{
    if i > 0 {
        lemma_grouped_ids_in_groups(pages, i - 1);
        let (gs, g) = groups_upto(pages, i - 1);
        let a = i - 1;
        let (gs2, g2) = groups_upto(pages, i);
        if !g.contains(pages[a].id@) {
            lemma_members(pages, a, pages.len() as int, g);
            let (ms, gm, kind) = members_upto(pages, a, pages.len() as int, g);
            assert forall|id: Seq<char>| #[trigger] g2.contains(id) implies exists|b: int, x: int|
                0 <= b < gs2.len() && 0 <= x < group_pages(gs2[b]).len() && pages[#[trigger] group_pages(
                    gs2[b],
                )[x]].id@ == id by {
                if g.contains(id) {
                    let (b, x) = choose|b: int, x: int|
                        0 <= b < gs.len() && 0 <= x < group_pages(gs[b]).len() && pages[#[trigger] group_pages(
                            gs[b],
                        )[x]].id@ == id;
                    if ms.len() > 0 {
                        assert(gs2[b] == gs[b]);
                    }
                    assert(group_pages(gs2[b])[x] == group_pages(gs[b])[x]);
                } else {
                    assert(ms.len() > 0);
                    let ng = (a, ms, kind);
                    assert(gs2 == gs.push(ng));
                    assert(gs2[gs.len() as int] == ng);
                    if id == pages[a].id@ {
                        assert(group_pages(ng)[0] == a);
                    } else {
                        assert(gm.contains(id));
                        let x = choose|x: int| 0 <= x < ms.len() && pages[ms[x]].id@ == id;
                        assert(group_pages(ng)[x + 1] == ms[x]);
                    }
                }
            }
        }
    }
}

/// Page `j` joins the group of page `i` when it duplicates it, is not yet
/// grouped, and no other page has its id.
proof fn lemma_member_joins(pages: Seq<PageRow>, i: int, j: int, n: int, grouped: Set<Seq<char>>)
    requires
        0 <= i < j < n <= pages.len(),
        ids_distinct(pages),
        !grouped.contains(pages[j].id@),
        duplicate_kind(pages[i], pages[j]) is Some,
    ensures
        members_upto(pages, i, n, grouped).0.contains(j),
    decreases n,
{
    lemma_members(pages, i, n - 1, grouped);
    let (ms, g, kind) = members_upto(pages, i, n - 1, grouped);
    if n - 1 == j {
        if g.contains(pages[j].id@) {
            let x = choose|x: int| 0 <= x < ms.len() && pages[ms[x]].id@ == pages[j].id@;
            assert(ms[x] < j);
            assert(pages[ms[x]].id@ != pages[j].id@);
        }
        let ms2 = members_upto(pages, i, n, grouped).0;
        assert(ms2 == ms.push(j));
        assert(ms2[ms.len() as int] == j);
    } else {
        lemma_member_joins(pages, i, j, n - 1, grouped);
        let x = choose|x: int| 0 <= x < ms.len() && ms[x] == j;
        let ms2 = members_upto(pages, i, n, grouped).0;
        assert(ms2 == ms || ms2 == ms.push(n - 1));
        assert(ms2[x] == j);
    }
}

/// Whether two pages have the same slug base (their titles lower-cased,
/// cut before a hash suffix, hyphens as spaces) and it is longer than
/// three bytes.
pub open spec fn same_long_slug(a: PageRow, b: PageRow) -> bool {
    slug_base(a.title@) == slug_base(b.title@) && crate::text::byte_len(slug_base(a.title@)) > 3
}

/// Law: two pages whose titles have the same slug base of more than three
/// bytes (`liu-wen-lin` and `liu-wen-lin-63f45abc`, say) end up together:
/// unless one of them already belongs to a group that starts before the
/// first of them, the first of them starts a group that holds the second.
/// The same holds of two pages with the same title, the same normalised
/// title, or the same canonical name (not empty). Pages are told apart by
/// their ids, which are taken to be distinct.
pub proof fn duplicates_are_grouped_together(pages: Seq<PageRow>, i: int, j: int)
    requires
        0 <= i < j < pages.len(),
        ids_distinct(pages),
        same_long_slug(pages[i], pages[j]) || pages[i].title@ == pages[j].title@ || (normalized(
            pages[i].title@,
        ) == normalized(pages[j].title@) && normalized(pages[i].title@).len() > 0) || (
        pages[i].canonical_name@ == pages[j].canonical_name@ && pages[i].canonical_name@.len() > 0),
    ensures
        ({
            let gs = groups_upto(pages, pages.len() as int).0;
            ||| exists|a: int, x: int|
                0 <= a < gs.len() && gs[a].0 < i && 0 <= x < group_pages(gs[a]).len() && (#[trigger] group_pages(
                    gs[a],
                )[x] == i || group_pages(gs[a])[x] == j)
            ||| exists|a: int| 0 <= a < gs.len() && (#[trigger] gs[a]).0 == i && gs[a].1.contains(j)
        }),
{
    let n = pages.len() as int;
    let gs = groups_upto(pages, n).0;
    let (g0, set0) = groups_upto(pages, i);
    lemma_groups_grow(pages, i, n);
    lemma_groups_start_before(pages, i);
    lemma_grouped_ids_in_groups(pages, i);
    assert(duplicate_kind(pages[i], pages[j]) is Some);
    if set0.contains(pages[i].id@) || set0.contains(pages[j].id@) {
        let id = if set0.contains(pages[i].id@) {
            pages[i].id@
        } else {
            pages[j].id@
        };
        let (a, x) = choose|a: int, x: int|
            0 <= a < g0.len() && 0 <= x < group_pages(g0[a]).len() && pages[#[trigger] group_pages(
                g0[a],
            )[x]].id@ == id;
        lemma_groups(pages, i);
        let u = group_pages(g0[a])[x];
        assert(0 <= u < pages.len());
        assert(u == i || u == j) by {
            if u != i && u != j {
                if u < i {
                    assert(pages[u].id@ != pages[i].id@);
                } else {
                    assert(pages[i].id@ != pages[u].id@);
                }
                if u < j {
                    assert(pages[u].id@ != pages[j].id@);
                } else {
                    assert(pages[j].id@ != pages[u].id@);
                }
            }
        }
        assert(gs[a] == g0[a]);
        assert(g0[a].0 < i);
    } else {
        lemma_member_joins(pages, i, j, n, set0);
        lemma_groups_grow(pages, i + 1, n);
        let (ms, g2, kind) = members_upto(pages, i, n, set0);
        let g1 = groups_upto(pages, i + 1).0;
        assert(ms.len() > 0);
        assert(g1 == g0.push((i, ms, kind)));
        assert(g1[g0.len() as int] == (i, ms, kind));
        assert(gs[g0.len() as int] == (i, ms, kind));
    }
}

proof fn lemma_members_kind(pages: Seq<PageRow>, i: int, j: int, grouped: Set<Seq<char>>)
    requires
        0 <= i < pages.len(),
        j <= pages.len(),
    ensures
        ({
            let (ms, g, kind) = members_upto(pages, i, j, grouped);
            &&& ms.len() == 0 ==> kind.len() == 0
            &&& ms.len() > 0 ==> Some(kind) == duplicate_kind(pages[i], pages[ms[0]])
        }),
    decreases j - i,
{
    reveal_strlit("exact_title");
    reveal_strlit("normalized");
    reveal_strlit("slug_base");
    reveal_strlit("canonical");
    if j > i + 1 {
        lemma_members_kind(pages, i, j - 1, grouped);
        let (ms, g, kind) = members_upto(pages, i, j - 1, grouped);
        let (ms2, g2, kind2) = members_upto(pages, i, j, grouped);
        if ms2 != ms {
            assert(ms2 == ms.push(j - 1));
            if ms.len() > 0 {
                assert(ms2[0] == ms[0]);
            }
        }
    }
}

/// Law: the reason a group gives is how its first page and the next page
/// of it agree, in this order of precedence: `exact_title` when their
/// titles are the same; `normalized` when their normalised titles are the
/// same and not empty; `slug_base` when their slug bases are the same and
/// longer than three bytes; `canonical` otherwise (their canonical names
/// are then the same and not empty).
pub proof fn group_reason_is_first_agreement(pages: Seq<PageRow>, a: int)
    requires
        0 <= a < groups_upto(pages, pages.len() as int).0.len(),
    ensures
        ({
            let g = groups_upto(pages, pages.len() as int).0[a];
            let p = pages[g.0];
            let q = pages[g.1[0]];
            &&& g.1.len() > 0
            &&& p.title@ == q.title@ ==> g.2 == "exact_title"@
            &&& p.title@ != q.title@ && normalized(p.title@) == normalized(q.title@) && normalized(
                p.title@,
            ).len() > 0 ==> g.2 == "normalized"@
            &&& p.title@ != q.title@ && !(normalized(p.title@) == normalized(q.title@) && normalized(
                p.title@,
            ).len() > 0) && same_long_slug(p, q) ==> g.2 == "slug_base"@
            &&& p.title@ != q.title@ && !(normalized(p.title@) == normalized(q.title@) && normalized(
                p.title@,
            ).len() > 0) && !same_long_slug(p, q) ==> g.2 == "canonical"@ && p.canonical_name@
                == q.canonical_name@ && p.canonical_name@.len() > 0
        }),
{
    lemma_groups_reasons(pages, pages.len() as int);
    lemma_groups(pages, pages.len() as int);
}

proof fn lemma_groups_reasons(pages: Seq<PageRow>, i: int)
    requires
        0 <= i <= pages.len(),
    ensures
        forall|a: int|
            0 <= a < groups_upto(pages, i).0.len() ==> {
                let g = #[trigger] groups_upto(pages, i).0[a];
                &&& 0 <= g.0 < pages.len()
                &&& g.1.len() > 0
                &&& Some(g.2) == duplicate_kind(pages[g.0], pages[g.1[0]])
            },
    decreases i,
{
    if i > 0 {
        lemma_groups_reasons(pages, i - 1);
        let (gs, g) = groups_upto(pages, i - 1);
        let gi = groups_upto(pages, i).0;
        let a = i - 1;
        if !g.contains(pages[a].id@) {
            lemma_members_kind(pages, a, pages.len() as int, g);
        }
        assert forall|b: int| 0 <= b < gi.len() implies {
            let h = #[trigger] gi[b];
            &&& 0 <= h.0 < pages.len()
            &&& h.1.len() > 0
            &&& Some(h.2) == duplicate_kind(pages[h.0], pages[h.1[0]])
        } by {
            if b < gs.len() {
                assert(gi[b] == gs[b]);
            }
        }
    }
}

/// The groups of duplicate pages are sound: every group has at least two
/// pages, listed in page order, each page of it after the first duplicates
/// the first (`group_ok`), and no page belongs to two groups.
pub proof fn duplicate_groups_are_disjoint(pages: Seq<PageRow>)
    ensures
        ({
            let gs = groups_upto(pages, pages.len() as int).0;
            &&& forall|a: int, b: int, x: int, y: int|
                0 <= a < b < gs.len() && 0 <= x < group_pages(gs[a]).len() && 0 <= y < group_pages(
                    gs[b],
                ).len() ==> #[trigger] group_pages(gs[a])[x] != #[trigger] group_pages(gs[b])[y]
            &&& forall|a: int| 0 <= a < gs.len() ==> group_ok(pages, #[trigger] gs[a])
        }),
{
    lemma_groups(pages, pages.len() as int);
}

} // verus!
