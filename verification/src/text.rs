//! Character-level text primitives shared by the parsers and formatters of the
//! library: whitespace, trimming, line splitting, substring search, decimal
//! formatting and UTF-8 byte lengths. Every operation is stated over the
//! `Seq<char>` view of a string.
use vstd::prelude::*;
use vstd::utf8::{decode_utf8, encode_utf8, encode_scalar, valid_utf8};

verus! {

/// `String::push` appends one character.
pub assume_specification[ String::push ](s: &mut String, ch: char)
    ensures
        final(s)@ == old(s)@.push(ch),
;

// ---------------------------------------------------------------------------
// Conversions between strings and character vectors
// ---------------------------------------------------------------------------

/// Collects the characters of a string slice, in order.
pub fn chars_of(s: &str) -> (out: Vec<char>)
    ensures
        out@ == s@,
{
    let mut out: Vec<char> = Vec::new();
    for c in it: s.chars()
        invariant
            out@ == it.seq().take(it.index() as int),
    {
        out.push(c);
    }
    out
}

/// Appends the characters `cs[from..to]` to `out`.
pub fn push_range(out: &mut String, cs: &Vec<char>, from: usize, to: usize)
    requires
        from <= to <= cs.len(),
    ensures
        final(out)@ == old(out)@ + cs@.subrange(from as int, to as int),
{
    let mut i = from;
    while i < to
        invariant
            from <= i <= to <= cs.len(),
            out@ == old(out)@ + cs@.subrange(from as int, i as int),
        decreases to - i,
    {
        out.push(cs[i]);
        i = i + 1;
        assert(cs@.subrange(from as int, i as int) =~= cs@.subrange(from as int, i - 1).push(
            cs@[i - 1],
        ));
    }
}

/// Appends all characters of `cs` to `out`.
pub fn push_all(out: &mut String, cs: &Vec<char>)
    ensures
        final(out)@ == old(out)@ + cs@,
{
    push_range(out, cs, 0, cs.len());
    assert(cs@.subrange(0, cs@.len() as int) =~= cs@);
}

/// Appends a string slice to `out`.
pub fn push_str(out: &mut String, s: &str)
    ensures
        final(out)@ == old(out)@ + s@,
{
    let cs = chars_of(s);
    push_all(out, &cs);
}

/// Builds a `String` from the characters `cs[from..to]`.
pub fn string_of_range(cs: &Vec<char>, from: usize, to: usize) -> (out: String)
    requires
        from <= to <= cs.len(),
    ensures
        out@ == cs@.subrange(from as int, to as int),
{
    let mut out = String::new();
    push_range(&mut out, cs, from, to);
    assert(out@ =~= cs@.subrange(from as int, to as int));
    out
}

/// Builds a `String` from a sequence of characters.
pub fn string_of(cs: &Vec<char>) -> (out: String)
    ensures
        out@ == cs@,
{
    let out = string_of_range(cs, 0, cs.len());
    assert(cs@.subrange(0, cs@.len() as int) =~= cs@);
    out
}

// ---------------------------------------------------------------------------
// Whitespace and trimming
// ---------------------------------------------------------------------------

/// The Unicode `White_Space` property, which `char::is_whitespace` tests.
pub open spec fn is_ws(c: char) -> bool {
    ||| ('\u{9}' <= c && c <= '\u{d}')
    ||| c == ' '
    ||| c == '\u{85}'
    ||| c == '\u{a0}'
    ||| c == '\u{1680}'
    ||| ('\u{2000}' <= c && c <= '\u{200a}')
    ||| c == '\u{2028}'
    ||| c == '\u{2029}'
    ||| c == '\u{202f}'
    ||| c == '\u{205f}'
    ||| c == '\u{3000}'
}

/// Whether `c` has the Unicode `White_Space` property.
pub fn is_whitespace(c: char) -> (b: bool)
    ensures
        b == is_ws(c),
{
    ('\u{9}' <= c && c <= '\u{d}') || c == ' ' || c == '\u{85}' || c == '\u{a0}' || c
        == '\u{1680}' || ('\u{2000}' <= c && c <= '\u{200a}') || c == '\u{2028}' || c
        == '\u{2029}' || c == '\u{202f}' || c == '\u{205f}' || c == '\u{3000}'
}

/// Number of leading whitespace characters of `s`.
pub open spec fn lead_ws(s: Seq<char>) -> nat
    decreases s.len(),
{
    if s.len() > 0 && is_ws(s[0]) {
        1 + lead_ws(s.drop_first())
    } else {
        0
    }
}

/// Number of trailing whitespace characters of `s`.
pub open spec fn trail_ws(s: Seq<char>) -> nat
    decreases s.len(),
{
    if s.len() > 0 && is_ws(s.last()) {
        1 + trail_ws(s.drop_last())
    } else {
        0
    }
}

/// `s` without its leading whitespace (`str::trim_start`).
pub open spec fn trim_start(s: Seq<char>) -> Seq<char> {
    s.skip(lead_ws(s) as int)
}

/// `s` without its trailing whitespace (`str::trim_end`).
pub open spec fn trim_end(s: Seq<char>) -> Seq<char> {
    s.take(s.len() - trail_ws(s))
}

/// `s` without leading and trailing whitespace (`str::trim`).
pub open spec fn trim(s: Seq<char>) -> Seq<char> {
    trim_end(trim_start(s))
}

pub proof fn lemma_lead_ws(s: Seq<char>)
    ensures
        lead_ws(s) <= s.len(),
        forall|k: int| 0 <= k < lead_ws(s) ==> is_ws(#[trigger] s[k]),
        lead_ws(s) < s.len() ==> !is_ws(s[lead_ws(s) as int]),
    decreases s.len(),
{
    if s.len() > 0 && is_ws(s[0]) {
        lemma_lead_ws(s.drop_first());
        assert forall|k: int| 0 <= k < lead_ws(s) implies is_ws(#[trigger] s[k]) by {
            if k > 0 {
                assert(s[k] == s.drop_first()[k - 1]);
            }
        }
    }
}

pub proof fn lemma_trail_ws(s: Seq<char>)
    ensures
        trail_ws(s) <= s.len(),
        forall|k: int| s.len() - trail_ws(s) <= k < s.len() ==> is_ws(#[trigger] s[k]),
        trail_ws(s) < s.len() ==> !is_ws(s[s.len() - trail_ws(s) - 1]),
    decreases s.len(),
{
    if s.len() > 0 && is_ws(s.last()) {
        lemma_trail_ws(s.drop_last());
        assert forall|k: int| s.len() - trail_ws(s) <= k < s.len() implies is_ws(
            #[trigger] s[k],
        ) by {
            if k < s.len() - 1 {
                assert(s[k] == s.drop_last()[k]);
            }
        }
    }
}

/// A count of leading characters with a property is determined by the first
/// character that lacks it.
pub proof fn lemma_lead_ws_char(s: Seq<char>, n: nat)
    requires
        n <= s.len(),
        forall|k: int| 0 <= k < n ==> is_ws(#[trigger] s[k]),
        n < s.len() ==> !is_ws(s[n as int]),
    ensures
        lead_ws(s) == n,
    decreases s.len(),
{
    if n > 0 {
        assert(is_ws(s[0]));
        assert forall|k: int| 0 <= k < n - 1 implies is_ws(#[trigger] s.drop_first()[k]) by {
            assert(s.drop_first()[k] == s[k + 1]);
        }
        if n - 1 < s.drop_first().len() {
            assert(s.drop_first()[n - 1] == s[n as int]);
        }
        lemma_lead_ws_char(s.drop_first(), (n - 1) as nat);
    }
}

pub proof fn lemma_trail_ws_char(s: Seq<char>, n: nat)
    requires
        n <= s.len(),
        forall|k: int| s.len() - n <= k < s.len() ==> is_ws(#[trigger] s[k]),
        n < s.len() ==> !is_ws(s[s.len() - n - 1]),
    ensures
        trail_ws(s) == n,
    decreases s.len(),
{
    if n > 0 {
        assert(is_ws(s[s.len() - 1]));
        let t = s.drop_last();
        assert forall|k: int| t.len() - (n - 1) <= k < t.len() implies is_ws(#[trigger] t[k]) by {
            assert(t[k] == s[k]);
        }
        if n - 1 < t.len() {
            assert(t[t.len() - (n - 1) - 1] == s[s.len() - n - 1]);
        }
        lemma_trail_ws_char(t, (n - 1) as nat);
    }
}

/// Index of the first non-whitespace character of `cs[from..to]` (or `to`).
pub fn skip_ws_forward(cs: &Vec<char>, from: usize, to: usize) -> (r: usize)
    requires
        from <= to <= cs.len(),
    ensures
        from <= r <= to,
        r - from == lead_ws(cs@.subrange(from as int, to as int)),
{
    let mut i = from;
    while i < to && is_whitespace(cs[i])
        invariant
            from <= i <= to <= cs.len(),
            forall|k: int| from <= k < i ==> is_ws(#[trigger] cs@[k]),
        decreases to - i,
    {
        i = i + 1;
    }
    proof {
        let s = cs@.subrange(from as int, to as int);
        assert forall|k: int| 0 <= k < i - from implies is_ws(#[trigger] s[k]) by {
            assert(s[k] == cs@[from + k]);
        }
        if i < to {
            assert(s[i - from] == cs@[i as int]);
        }
        lemma_lead_ws_char(s, (i - from) as nat);
    }
    i
}

/// One past the last non-whitespace character of `cs[from..to]` (or `from`).
pub fn skip_ws_backward(cs: &Vec<char>, from: usize, to: usize) -> (r: usize)
    requires
        from <= to <= cs.len(),
    ensures
        from <= r <= to,
        to - r == trail_ws(cs@.subrange(from as int, to as int)),
{
    let mut j = to;
    while j > from && is_whitespace(cs[j - 1])
        invariant
            from <= j <= to <= cs.len(),
            forall|k: int| j <= k < to ==> is_ws(#[trigger] cs@[k]),
        decreases j - from,
    {
        j = j - 1;
    }
    proof {
        let s = cs@.subrange(from as int, to as int);
        assert forall|k: int| s.len() - (to - j) <= k < s.len() implies is_ws(#[trigger] s[k]) by {
            assert(s[k] == cs@[from + k]);
        }
        if j > from {
            assert(s[s.len() - (to - j) - 1] == cs@[j - 1]);
        }
        lemma_trail_ws_char(s, (to - j) as nat);
    }
    j
}

/// Bounds `(lo, hi)` such that `cs[lo..hi]` is `trim(cs[from..to])`.
pub fn trim_bounds(cs: &Vec<char>, from: usize, to: usize) -> (r: (usize, usize))
    requires
        from <= to <= cs.len(),
    ensures
        from <= r.0 <= r.1 <= to,
        cs@.subrange(r.0 as int, r.1 as int) == trim(cs@.subrange(from as int, to as int)),
{
    let lo = skip_ws_forward(cs, from, to);
    let hi = skip_ws_backward(cs, lo, to);
    proof {
        let s = cs@.subrange(from as int, to as int);
        assert(trim_start(s) =~= cs@.subrange(lo as int, to as int));
        let t = cs@.subrange(lo as int, to as int);
        assert(trim_end(t) =~= cs@.subrange(lo as int, hi as int));
    }
    (lo, hi)
}

/// `str::trim` of a string slice.
pub fn trim_str(s: &str) -> (out: String)
    ensures
        out@ == trim(s@),
{
    let cs = chars_of(s);
    let (lo, hi) = trim_bounds(&cs, 0, cs.len());
    assert(cs@.subrange(0, cs@.len() as int) =~= cs@);
    string_of_range(&cs, lo, hi)
}

// ---------------------------------------------------------------------------
// Substring search
// ---------------------------------------------------------------------------

/// Whether `pat` occurs in `s` starting at index `i`.
pub open spec fn occurs_at(s: Seq<char>, pat: Seq<char>, i: int) -> bool {
    0 <= i && i + pat.len() <= s.len() && s.subrange(i, i + pat.len()) == pat
}

/// First index `>= i` at which `pat` occurs in `s` (`str::find` at char level).
pub open spec fn find_from(s: Seq<char>, pat: Seq<char>, i: int) -> Option<int>
    decreases s.len() + 1 - i,
{
    if i < 0 || i + pat.len() > s.len() {
        None
    } else if occurs_at(s, pat, i) {
        Some(i)
    } else {
        find_from(s, pat, i + 1)
    }
}

/// First index at which `pat` occurs in `s`.
pub open spec fn find(s: Seq<char>, pat: Seq<char>) -> Option<int> {
    find_from(s, pat, 0)
}

/// Whether `pat` occurs anywhere in `s`.
pub open spec fn contains(s: Seq<char>, pat: Seq<char>) -> bool {
    find(s, pat) is Some
}

/// First index `>= i` holding character `c`.
pub open spec fn find_char_from(s: Seq<char>, c: char, i: int) -> Option<int> {
    find_from(s, seq![c], i)
}

pub proof fn lemma_find_from(s: Seq<char>, pat: Seq<char>, i: int)
    requires
        0 <= i,
    ensures
        match find_from(s, pat, i) {
            Some(k) => i <= k && occurs_at(s, pat, k) && forall|m: int|
                i <= m < k ==> !occurs_at(s, pat, m),
            None => forall|m: int| i <= m ==> !occurs_at(s, pat, m),
        },
    decreases s.len() + 1 - i,
{
    if i + pat.len() > s.len() {
    } else if occurs_at(s, pat, i) {
    } else {
        lemma_find_from(s, pat, i + 1);
    }
}

/// The first index that satisfies the conditions of `find_from` is its value.
pub proof fn lemma_find_from_at(s: Seq<char>, pat: Seq<char>, i: int, k: int)
    requires
        0 <= i <= k,
        occurs_at(s, pat, k),
        forall|m: int| i <= m < k ==> !occurs_at(s, pat, m),
    ensures
        find_from(s, pat, i) == Some(k),
    decreases k - i,
{
    if i < k {
        assert(!occurs_at(s, pat, i));
        lemma_find_from_at(s, pat, i + 1, k);
    }
}

pub proof fn lemma_find_from_none(s: Seq<char>, pat: Seq<char>, i: int)
    requires
        0 <= i,
        forall|m: int| i <= m ==> !occurs_at(s, pat, m),
    ensures
        find_from(s, pat, i) is None,
    decreases s.len() + 1 - i,
{
    if i + pat.len() <= s.len() {
        assert(!occurs_at(s, pat, i));
        lemma_find_from_none(s, pat, i + 1);
    }
}

/// `contains` holds exactly when `pat` occurs at some index.
pub proof fn lemma_contains_iff(s: Seq<char>, pat: Seq<char>)
    ensures
        contains(s, pat) <==> exists|m: int| occurs_at(s, pat, m),
{
    lemma_find_from(s, pat, 0);
    if contains(s, pat) {
        let k = find(s, pat).unwrap();
        assert(occurs_at(s, pat, k));
    }
}

/// A text none of whose characters is the first character of `pat` holds
/// no occurrence of `pat`.
pub proof fn lemma_no_first_char(s: Seq<char>, pat: Seq<char>)
    requires
        pat.len() > 0,
        forall|i: int| 0 <= i < s.len() ==> s[i] != pat[0],
    ensures
        forall|m: int| !occurs_at(s, pat, m),
{
    assert forall|m: int| !occurs_at(s, pat, m) by {
        if occurs_at(s, pat, m) {
            assert(s.subrange(m, m + pat.len())[0] == s[m]);
        }
    }
}

/// An occurrence of `pat` in `a + x + b` lies within one of the three
/// pieces, when the last character of `a` and the first of `b` are not
/// characters of `pat`.
pub proof fn lemma_no_occurrence_concat(a: Seq<char>, x: Seq<char>, b: Seq<char>, pat: Seq<char>)
    requires
        pat.len() > 0,
        a.len() > 0 ==> !pat.contains(a.last()),
        b.len() > 0 ==> !pat.contains(b[0]),
        forall|m: int| !occurs_at(a, pat, m),
        forall|m: int| !occurs_at(x, pat, m),
        forall|m: int| !occurs_at(b, pat, m),
    ensures
        forall|m: int| !occurs_at(a + x + b, pat, m),
{
    let s = a + x + b;
    let la = a.len() as int;
    let lx = x.len() as int;
    assert forall|m: int| !occurs_at(s, pat, m) by {
        if occurs_at(s, pat, m) {
            let e = m + pat.len();
            let w = s.subrange(m, e);
            assert(w == pat);
            if m < la && e > la {
                assert(w[la - 1 - m] == a.last());
                assert(pat.contains(a.last()));
            } else if m < la + lx && e > la + lx {
                assert(w[la + lx - m] == b[0]);
                assert(pat.contains(b[0]));
            } else if e <= la {
                assert(a.subrange(m, e) =~= w);
                assert(occurs_at(a, pat, m));
            } else if m >= la && e <= la + lx {
                assert(x.subrange(m - la, e - la) =~= w);
                assert(occurs_at(x, pat, m - la));
            } else {
                assert(m >= la + lx);
                assert(b.subrange(m - la - lx, e - la - lx) =~= w);
                assert(occurs_at(b, pat, m - la - lx));
            }
        }
    }
}

/// Whether `pat` occurs in `cs` at index `i`.
pub fn matches_at(cs: &Vec<char>, pat: &Vec<char>, i: usize) -> (b: bool)
    ensures
        b == occurs_at(cs@, pat@, i as int),
{
    if i > cs.len() || pat.len() > cs.len() - i {
        return false;
    }
    let mut k: usize = 0;
    while k < pat.len()
        invariant
            i + pat.len() <= cs.len(),
            k <= pat.len(),
            forall|m: int| 0 <= m < k ==> cs@[i + m] == pat@[m],
        decreases pat.len() - k,
    {
        if cs[i + k] != pat[k] {
            assert(cs@.subrange(i as int, i + pat.len())[k as int] != pat@[k as int]);
            return false;
        }
        k = k + 1;
    }
    assert(cs@.subrange(i as int, i + pat.len()) =~= pat@);
    true
}

/// First index `>= from` at which `pat` occurs in `cs`.
pub fn find_vec(cs: &Vec<char>, pat: &Vec<char>, from: usize) -> (r: Option<usize>)
    ensures
        match r {
            Some(k) => find_from(cs@, pat@, from as int) == Some(k as int),
            None => find_from(cs@, pat@, from as int) is None,
        },
{
    let mut i = from;
    while i < cs.len()
        invariant
            from <= i,
            forall|m: int| from <= m < i ==> !occurs_at(cs@, pat@, m),
        decreases cs.len() - i,
    {
        if matches_at(cs, pat, i) {
            proof {
                lemma_find_from_at(cs@, pat@, from as int, i as int);
            }
            return Some(i);
        }
        i = i + 1;
    }
    if matches_at(cs, pat, i) {
        proof {
            lemma_find_from_at(cs@, pat@, from as int, i as int);
        }
        return Some(i);
    }
    proof {
        assert forall|m: int| from <= m implies !occurs_at(cs@, pat@, m) by {
            if m > i {
                assert(m + pat@.len() > cs@.len());
            }
        }
        lemma_find_from_none(cs@, pat@, from as int);
    }
    None
}

/// First index `>= from` holding character `c`.
pub fn find_char(cs: &Vec<char>, c: char, from: usize) -> (r: Option<usize>)
    ensures
        match r {
            Some(k) => find_char_from(cs@, c, from as int) == Some(k as int),
            None => find_char_from(cs@, c, from as int) is None,
        },
{
    let pat = vec![c];
    assert(pat@ =~= seq![c]);
    find_vec(cs, &pat, from)
}

pub proof fn lemma_occurs_char(s: Seq<char>, c: char, i: int)
    ensures
        occurs_at(s, seq![c], i) <==> (0 <= i < s.len() && s[i] == c),
{
    if 0 <= i < s.len() {
        if s[i] == c {
            assert(s.subrange(i, i + 1) =~= seq![c]);
        } else {
            assert(s.subrange(i, i + 1)[0] != seq![c][0]);
        }
    }
}

/// Whether `pat` occurs anywhere in `s`.
pub fn contains_vec(cs: &Vec<char>, pat: &Vec<char>) -> (b: bool)
    ensures
        b == contains(cs@, pat@),
{
    find_vec(cs, pat, 0).is_some()
}

/// Whether `s` begins with `pat`.
pub open spec fn starts_with(s: Seq<char>, pat: Seq<char>) -> bool {
    pat.len() <= s.len() && s.take(pat.len() as int) == pat
}

/// Whether the characters `cs` begin with `lit`.
pub fn has_prefix(cs: &Vec<char>, lit: &str) -> (b: bool)
    ensures
        b == starts_with(cs@, lit@),
{
    let pat = chars_of(lit);
    let r = matches_at(cs, &pat, 0);
    proof {
        if pat@.len() <= cs@.len() {
            assert(cs@.take(pat@.len() as int) =~= cs@.subrange(0, pat@.len() as int));
        }
    }
    r
}

/// Whether `s` ends with `pat`.
pub open spec fn ends_with(s: Seq<char>, pat: Seq<char>) -> bool {
    pat.len() <= s.len() && s.skip(s.len() - pat.len()) == pat
}

// ---------------------------------------------------------------------------
// Replacing
// ---------------------------------------------------------------------------

/// `str::replace`: every non-overlapping occurrence of `pat` (scanning from
/// the left) replaced by `rep`. `pat` is non-empty.
pub open spec fn replace_all(s: Seq<char>, pat: Seq<char>, rep: Seq<char>) -> Seq<char>
    recommends
        pat.len() > 0,
    decreases s.len(),
{
    if s.len() == 0 || pat.len() == 0 {
        s
    } else if starts_with(s, pat) {
        rep + replace_all(s.skip(pat.len() as int), pat, rep)
    } else {
        seq![s[0]] + replace_all(s.drop_first(), pat, rep)
    }
}

/// Replaces every occurrence of `pat` in `cs` by `rep`.
pub fn replace_vec(cs: &Vec<char>, pat: &Vec<char>, rep: &Vec<char>) -> (out: Vec<char>)
    requires
        pat.len() > 0,
    ensures
        out@ == replace_all(cs@, pat@, rep@),
{
    let mut out: Vec<char> = Vec::new();
    let mut i: usize = 0;
    assert(cs@.skip(0) =~= cs@);
    while i < cs.len()
        invariant
            pat.len() > 0,
            i <= cs.len(),
            out@ + replace_all(cs@.skip(i as int), pat@, rep@) == replace_all(cs@, pat@, rep@),
        decreases cs.len() - i,
    {
        let ghost rest = cs@.skip(i as int);
        if matches_at(cs, pat, i) {
            assert(rest.take(pat@.len() as int) =~= cs@.subrange(i as int, i + pat@.len()));
            assert(rest.skip(pat@.len() as int) =~= cs@.skip(i + pat@.len()));
            let ghost o = out@;
            let mut k: usize = 0;
            while k < rep.len()
                invariant
                    k <= rep.len(),
                    out@ == o + rep@.take(k as int),
                decreases rep.len() - k,
            {
                out.push(rep[k]);
                k = k + 1;
                assert(rep@.take(k as int) =~= rep@.take(k - 1).push(rep@[k - 1]));
            }
            assert(rep@.take(rep@.len() as int) =~= rep@);
            assert(o + rep@ + replace_all(cs@.skip(i + pat@.len()), pat@, rep@) =~= o + (rep@
                + replace_all(cs@.skip(i + pat@.len()), pat@, rep@)));
            i = i + pat.len();
        } else {
            proof {
                if starts_with(rest, pat@) {
                    assert(cs@.subrange(i as int, i + pat@.len()) =~= rest.take(pat@.len() as int));
                }
                assert(rest.drop_first() =~= cs@.skip(i + 1));
            }
            out.push(cs[i]);
            i = i + 1;
        }
    }
    assert(cs@.skip(cs@.len() as int) =~= Seq::<char>::empty());
    out
}

// ---------------------------------------------------------------------------
// Lines
// ---------------------------------------------------------------------------

/// A line without the `'\r'` that preceded its `'\n'`.
pub open spec fn strip_cr(l: Seq<char>) -> Seq<char> {
    if l.len() > 0 && l.last() == '\r' {
        l.drop_last()
    } else {
        l
    }
}

/// `str::lines`: the text split at `'\n'`; a `'\r'` directly before a `'\n'`
/// is dropped, and a final line ending does not start an empty line.
pub open spec fn lines(s: Seq<char>) -> Seq<Seq<char>>
    decreases s.len(),
{
    if s.len() == 0 {
        seq![]
    } else {
        match find_char_from(s, '\n', 0) {
            None => seq![s],
            Some(k) => if 0 <= k < s.len() {
                seq![strip_cr(s.take(k))] + lines(s.skip(k + 1))
            } else {
                seq![]
            },
        }
    }
}

/// `str::lines`, as character vectors.
pub fn lines_of(cs: &Vec<char>) -> (out: Vec<Vec<char>>)
    ensures
        vviews(out@) == lines(cs@),
{
    let mut out: Vec<Vec<char>> = Vec::new();
    let mut p: usize = 0;
    assert(cs@.skip(0) =~= cs@);
    assert(vviews(out@) =~= Seq::<Seq<char>>::empty());
    while p < cs.len()
        invariant
            p <= cs.len(),
            vviews(out@) + lines(cs@.skip(p as int)) == lines(cs@),
        decreases cs.len() - p,
    {
        let ghost rest = cs@.skip(p as int);
        let nl = find_char(cs, '\n', p);
        proof {
            lemma_find_from(cs@, seq!['\n'], p as int);
            lemma_find_from(rest, seq!['\n'], 0);
        }
        match nl {
            None => {
                proof {
                    assert forall|m: int| 0 <= m implies !occurs_at(rest, seq!['\n'], m) by {
                        lemma_occurs_char(rest, '\n', m);
                        lemma_occurs_char(cs@, '\n', p + m);
                    }
                    lemma_find_from_none(rest, seq!['\n'], 0);
                }
                let line = slice_vec(cs, p, cs.len());
                assert(line@ =~= rest);
                let ghost before = vviews(out@);
                out.push(line);
                assert(vviews(out@) =~= before.push(rest));
                assert(cs@.skip(cs@.len() as int) =~= Seq::<char>::empty());
                assert(lines(rest) == seq![rest]);
                p = cs.len();
            },
            Some(k) => {
                proof {
                    lemma_occurs_char(cs@, '\n', k as int);
                    assert forall|m: int| 0 <= m < k - p implies !occurs_at(rest, seq!['\n'], m) by {
                        lemma_occurs_char(rest, '\n', m);
                        lemma_occurs_char(cs@, '\n', p + m);
                    }
                    lemma_occurs_char(rest, '\n', k - p);
                    lemma_find_from_at(rest, seq!['\n'], 0, k - p);
                }
                let end = if k > p && cs[k - 1] == '\r' {
                    k - 1
                } else {
                    k
                };
                let line = slice_vec(cs, p, end);
                assert(line@ =~= strip_cr(rest.take(k - p)));
                let ghost before = vviews(out@);
                out.push(line);
                assert(vviews(out@) =~= before.push(strip_cr(rest.take(k - p))));
                assert(rest.skip(k - p + 1) =~= cs@.skip(k + 1));
                p = k + 1;
            },
        }
    }
    assert(cs@.skip(p as int) =~= Seq::<char>::empty());
    out
}

/// The character sequences held by a vector of character vectors.
pub open spec fn vviews(v: Seq<Vec<char>>) -> Seq<Seq<char>> {
    v.map_values(|x: Vec<char>| x@)
}

/// A copy of `cs[from..to]`.
pub fn slice_vec(cs: &Vec<char>, from: usize, to: usize) -> (out: Vec<char>)
    requires
        from <= to <= cs.len(),
    ensures
        out@ == cs@.subrange(from as int, to as int),
{
    let mut out: Vec<char> = Vec::new();
    let mut i = from;
    while i < to
        invariant
            from <= i <= to <= cs.len(),
            out@ == cs@.subrange(from as int, i as int),
        decreases to - i,
    {
        out.push(cs[i]);
        i = i + 1;
        assert(cs@.subrange(from as int, i as int) =~= cs@.subrange(from as int, i - 1).push(
            cs@[i - 1],
        ));
    }
    out
}

// ---------------------------------------------------------------------------
// Joining
// ---------------------------------------------------------------------------

/// The pieces of `parts` separated by `sep` (`[T]::join`).
pub open spec fn join(parts: Seq<Seq<char>>, sep: Seq<char>) -> Seq<char>
    decreases parts.len(),
{
    if parts.len() == 0 {
        seq![]
    } else if parts.len() == 1 {
        parts[0]
    } else {
        join(parts.drop_last(), sep) + sep + parts.last()
    }
}

// ---------------------------------------------------------------------------
// Decimal numbers
// ---------------------------------------------------------------------------

/// The ASCII digit for `d < 10`.
pub open spec fn digit_char(d: nat) -> char {
    if d == 0 {
        '0'
    } else if d == 1 {
        '1'
    } else if d == 2 {
        '2'
    } else if d == 3 {
        '3'
    } else if d == 4 {
        '4'
    } else if d == 5 {
        '5'
    } else if d == 6 {
        '6'
    } else if d == 7 {
        '7'
    } else if d == 8 {
        '8'
    } else {
        '9'
    }
}

/// The decimal representation of `n`, without leading zeros (`{}` formatting).
pub open spec fn decimal(n: nat) -> Seq<char>
    decreases n,
{
    if n < 10 {
        seq![digit_char(n)]
    } else {
        decimal(n / 10).push(digit_char(n % 10))
    }
}

fn digit(d: u64) -> (c: char)
    requires
        d < 10,
    ensures
        c == digit_char(d as nat),
{
    if d == 0 {
        '0'
    } else if d == 1 {
        '1'
    } else if d == 2 {
        '2'
    } else if d == 3 {
        '3'
    } else if d == 4 {
        '4'
    } else if d == 5 {
        '5'
    } else if d == 6 {
        '6'
    } else if d == 7 {
        '7'
    } else if d == 8 {
        '8'
    } else {
        '9'
    }
}

/// Appends the decimal representation of `n` to `out`.
pub fn push_decimal(out: &mut String, n: u64)
    ensures
        final(out)@ == old(out)@ + decimal(n as nat),
    decreases n,
{
    if n >= 10 {
        push_decimal(out, n / 10);
    }
    out.push(digit(n % 10));
    proof {
        if n >= 10 {
            assert(old(out)@ + decimal(n as nat) =~= (old(out)@ + decimal((n / 10) as nat)).push(
                digit_char((n % 10) as nat),
            ));
        } else {
            assert(old(out)@ + decimal(n as nat) =~= old(out)@.push(digit_char(n as nat)));
        }
    }
}

// ---------------------------------------------------------------------------
// UTF-8 byte lengths
// ---------------------------------------------------------------------------

/// The `Display` text of the error of `String::from_utf8` on bytes that are
/// not valid UTF-8.
pub uninterp spec fn utf8_error_text(b: Seq<u8>) -> Seq<char>;

/// Calls `String::from_utf8`: it succeeds exactly on valid UTF-8 and then
/// holds the decoded characters; otherwise it gives the error's text.
#[verifier::external_body]
pub(crate) fn utf8_decode(bytes: &[u8]) -> (r: Result<String, String>)
    ensures
        r is Ok == valid_utf8(bytes@),
        r matches Ok(s) ==> s@ == decode_utf8(bytes@),
        r matches Err(e) ==> e@ == utf8_error_text(bytes@),
{
    String::from_utf8(bytes.to_vec()).map_err(|e| e.to_string())
}

/// The UTF-8 bytes of a text.
pub open spec fn utf8_of(s: Seq<char>) -> Seq<u8> {
    encode_utf8(s)
}

/// Number of bytes of the UTF-8 encoding of `s` (what `str::len` returns).
pub open spec fn byte_len(s: Seq<char>) -> nat {
    encode_utf8(s).len()
}

pub open spec fn char_width(c: char) -> nat {
    if (c as u32) <= 0x7f {
        1
    } else if (c as u32) <= 0x7ff {
        2
    } else if (c as u32) <= 0xffff {
        3
    } else {
        4
    }
}

pub proof fn lemma_encode_utf8_append(a: Seq<char>, b: Seq<char>)
    ensures
        encode_utf8(a + b) == encode_utf8(a) + encode_utf8(b),
    decreases a.len(),
{
    if a.len() == 0 {
        assert(a + b =~= b);
    } else {
        assert((a + b).drop_first() =~= a.drop_first() + b);
        lemma_encode_utf8_append(a.drop_first(), b);
    }
}

pub proof fn lemma_char_width(c: char)
    ensures
        encode_utf8(seq![c]).len() == char_width(c),
{
    broadcast use vstd::utf8::char_is_scalar;
    assert(seq![c].drop_first() =~= Seq::<char>::empty());
    assert(encode_utf8(seq![c]) == encode_scalar(c as u32) + encode_utf8(Seq::<char>::empty()));
}

fn width_of(c: char) -> (w: usize)
    ensures
        w == char_width(c),
{
    let u = c as u32;
    if u <= 0x7f {
        1
    } else if u <= 0x7ff {
        2
    } else if u <= 0xffff {
        3
    } else {
        4
    }
}

/// Whether the UTF-8 byte length of `cs[from..to]` is at most `limit`.
pub fn byte_len_le(cs: &Vec<char>, from: usize, to: usize, limit: usize) -> (b: bool)
    requires
        from <= to <= cs.len(),
        limit <= usize::MAX - 4,
    ensures
        b == (byte_len(cs@.subrange(from as int, to as int)) <= limit),
{
    let mut n: usize = 0;
    let mut i = from;
    while i < to
        invariant
            from <= i <= to <= cs.len(),
            limit <= usize::MAX - 4,
            n <= limit,
            n == byte_len(cs@.subrange(from as int, i as int)),
        decreases to - i,
    {
        proof {
            let a = cs@.subrange(from as int, i as int);
            assert(cs@.subrange(from as int, i + 1) =~= a + seq![cs@[i as int]]);
            lemma_encode_utf8_append(a, seq![cs@[i as int]]);
            lemma_char_width(cs@[i as int]);
        }
        n = n + width_of(cs[i]);
        i = i + 1;
        if n > limit {
            proof {
                let a = cs@.subrange(from as int, i as int);
                let b = cs@.subrange(i as int, to as int);
                assert(cs@.subrange(from as int, to as int) =~= a + b);
                lemma_encode_utf8_append(a, b);
            }
            return false;
        }
    }
    true
}

/// Number of leading characters of `t` from index `i` on that fit in `n`
/// bytes, given that the first `i` characters take `used` bytes
/// (`str::floor_char_boundary` counted in characters).
pub open spec fn chars_within(t: Seq<char>, n: nat, i: int, used: nat) -> int
    decreases t.len() - i,
{
    if 0 <= i < t.len() && used + char_width(t[i]) <= n {
        chars_within(t, n, i + 1, used + char_width(t[i]))
    } else {
        i
    }
}

/// The number of leading characters of `cs` that fit in `n` bytes, and the
/// byte length of those characters.
pub fn floor_prefix(cs: &Vec<char>, n: usize) -> (r: (usize, usize))
    requires
        n <= usize::MAX - 4,
    ensures
        r.0 == chars_within(cs@, n as nat, 0, 0),
        r.1 == byte_len(cs@.take(r.0 as int)),
        r.0 <= cs.len(),
        r.1 <= n,
{
    let mut i: usize = 0;
    let mut used: usize = 0;
    assert(cs@.take(0) =~= Seq::<char>::empty());
    while i < cs.len() && used + width_of(cs[i]) <= n
        invariant
            i <= cs.len(),
            n <= usize::MAX - 4,
            used <= n,
            used == byte_len(cs@.take(i as int)),
            chars_within(cs@, n as nat, 0, 0) == chars_within(cs@, n as nat, i as int, used as nat),
        decreases cs.len() - i,
    {
        proof {
            assert(cs@.take(i + 1) =~= cs@.take(i as int) + seq![cs@[i as int]]);
            lemma_encode_utf8_append(cs@.take(i as int), seq![cs@[i as int]]);
            lemma_char_width(cs@[i as int]);
        }
        used = used + width_of(cs[i]);
        i = i + 1;
    }
    (i, used)
}

// ---------------------------------------------------------------------------
// Case mapping
// ---------------------------------------------------------------------------

/// What `str::to_uppercase` returns for a text (Unicode upper-casing, which
/// depends on the text alone).
pub uninterp spec fn uppercase(s: Seq<char>) -> Seq<char>;

/// Calls `str::to_uppercase`.
#[verifier::external_body]
pub(crate) fn to_uppercase(s: &str) -> (out: String)
    ensures
        out@ == uppercase(s@),
{
    s.to_uppercase()
}

} // verus!
