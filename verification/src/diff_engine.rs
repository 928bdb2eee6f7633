//! Line diff of two texts for the review screen: equal lines are skipped, and
//! at each difference the nearest resynchronisation point within a window of
//! twenty lines is searched, minimising deleted plus added lines.
use vstd::prelude::*;
use crate::text::{chars_of, lines, lines_of, push_all, vviews};

verus! {

/// Width of the resynchronisation window.
pub const MAX_WINDOW: usize = 20;

/// One hunk of a diff: `old_lines` lines of the old text from `old_start`
/// replaced by `new_lines` lines of the new text from `new_start`.
#[derive(Debug, Clone)]
pub struct DiffHunk {
    pub old_start: u32,
    pub old_lines: u32,
    pub new_start: u32,
    pub new_lines: u32,
    pub content: String,
    pub change_type: String,
}

pub struct DiffEngine;

/// Whether old line `i + d` equals new line `j + a`.
pub open spec fn lines_meet(ol: Seq<Seq<char>>, nl: Seq<Seq<char>>, x: int, y: int) -> bool {
    0 <= x < ol.len() && 0 <= y < nl.len() && ol[x] == nl[y]
}

/// The joint search for the next matching pair `(i + d, j + a)`: windows
/// `w = d + a` from `w` up to the maximum, and within a window `d` from `d`
/// upwards.
pub open spec fn window_search(
    ol: Seq<Seq<char>>,
    nl: Seq<Seq<char>>,
    i: int,
    j: int,
    w: int,
    d: int,
) -> Option<(int, int)>
    decreases 21 - w, w + 1 - d,
{
    if w < 0 || d < 0 || w > MAX_WINDOW {
        None
    } else if d > w {
        window_search(ol, nl, i, j, w + 1, 0)
    } else if lines_meet(ol, nl, i + d, j + (w - d)) {
        Some((d, w - d))
    } else {
        window_search(ol, nl, i, j, w, d + 1)
    }
}

/// Lines deleted and added by the hunk that starts at `(i, j)`: the nearest
/// match, or else up to a window of each remaining side.
pub open spec fn hunk_size(ol: Seq<Seq<char>>, nl: Seq<Seq<char>>, i: int, j: int) -> (int, int) {
    match window_search(ol, nl, i, j, 0, 0) {
        Some(p) => p,
        None => (
            if i < ol.len() {
                vstd::math::min(ol.len() - i, MAX_WINDOW as int)
            } else {
                0
            },
            if j < nl.len() {
                vstd::math::min(nl.len() - j, MAX_WINDOW as int)
            } else {
                0
            },
        ),
    }
}

/// The hunks of the diff from old line `i` and new line `j` on, as
/// `(old_start, old_lines, new_start, new_lines)`.
pub open spec fn diff_ranges(ol: Seq<Seq<char>>, nl: Seq<Seq<char>>, i: int, j: int) -> Seq<
    (int, int, int, int),
>
    decreases ol.len() - i + nl.len() - j,
{
    if i < 0 || j < 0 || i > ol.len() || j > nl.len() || (i == ol.len() && j == nl.len()) {
        seq![]
    } else if i < ol.len() && j < nl.len() && ol[i] == nl[j] {
        diff_ranges(ol, nl, i + 1, j + 1)
    } else {
        let (d, a) = hunk_size(ol, nl, i, j);
        if d < 0 || a < 0 || d + a == 0 || i + d > ol.len() || j + a > nl.len() {
            seq![]
        } else {
            seq![(i, d, j, a)] + diff_ranges(ol, nl, i + d, j + a)
        }
    }
}

/// The lines of `ls`, each written after `prefix` and followed by a newline.
pub open spec fn prefixed_lines(ls: Seq<Seq<char>>, prefix: Seq<char>) -> Seq<char>
    decreases ls.len(),
{
    if ls.len() == 0 {
        seq![]
    } else {
        prefixed_lines(ls.drop_last(), prefix) + prefix + ls.last() + seq!['\n']
    }
}

/// The text of a hunk: its deleted lines after "- ", then its added lines
/// after "+ ".
pub open spec fn hunk_content(
    ol: Seq<Seq<char>>,
    nl: Seq<Seq<char>>,
    r: (int, int, int, int),
) -> Seq<char> {
    prefixed_lines(ol.subrange(r.0, r.0 + r.1), seq!['-', ' ']) + prefixed_lines(
        nl.subrange(r.2, r.2 + r.3),
        seq!['+', ' '],
    )
}

/// "change" when lines are deleted and added, "delete" or "add" otherwise.
pub open spec fn hunk_kind(r: (int, int, int, int)) -> Seq<char> {
    if r.1 > 0 && r.3 > 0 {
        "change"@
    } else if r.1 > 0 {
        "delete"@
    } else {
        "add"@
    }
}

/// Whether hunk `h` describes the range `r` of the diff of `ol` and `nl`.
pub open spec fn hunk_matches(
    h: DiffHunk,
    ol: Seq<Seq<char>>,
    nl: Seq<Seq<char>>,
    r: (int, int, int, int),
) -> bool {
    &&& h.old_start == r.0 as u32
    &&& h.old_lines == r.1 as u32
    &&& h.new_start == r.2 as u32
    &&& h.new_lines == r.3 as u32
    &&& h.content@ == hunk_content(ol, nl, r)
    &&& h.change_type@ == hunk_kind(r)
}

/// The hunks of the diff of two texts, line by line.
pub open spec fn text_diff(old_text: Seq<char>, new_text: Seq<char>) -> Seq<(int, int, int, int)> {
    diff_ranges(lines(old_text), lines(new_text), 0, 0)
}

/// Whether `rs` is an edit script from old line `i` and new line `j` on:
/// hunks in order, the lines between two hunks equal on both sides, and the
/// lines after the last hunk equal on both sides.
pub open spec fn edit_script_from(
    ol: Seq<Seq<char>>,
    nl: Seq<Seq<char>>,
    rs: Seq<(int, int, int, int)>,
    i: int,
    j: int,
) -> bool
    decreases rs.len(),
{
    if rs.len() == 0 {
        0 <= i <= ol.len() && 0 <= j <= nl.len() && ol.skip(i) == nl.skip(j)
    } else {
        let r = rs[0];
        &&& i <= r.0 && j <= r.2
        &&& r.0 - i == r.2 - j
        &&& 0 <= r.1 && 0 <= r.3
        &&& r.0 + r.1 <= ol.len() && r.2 + r.3 <= nl.len()
        &&& ol.subrange(i, r.0) == nl.subrange(j, r.2)
        &&& edit_script_from(ol, nl, rs.drop_first(), r.0 + r.1, r.2 + r.3)
    }
}

proof fn lemma_window_search(
    ol: Seq<Seq<char>>,
    nl: Seq<Seq<char>>,
    i: int,
    j: int,
    w: int,
    d: int,
)
    requires
        0 <= w,
        0 <= d,
    ensures
        window_search(ol, nl, i, j, w, d) matches Some(p) ==> 0 <= p.0 && 0 <= p.1 && lines_meet(
            ol,
            nl,
            i + p.0,
            j + p.1,
        ),
    decreases 21 - w, w + 1 - d,
{
    if w > MAX_WINDOW {
    } else if d > w {
        lemma_window_search(ol, nl, i, j, w + 1, 0);
    } else if lines_meet(ol, nl, i + d, j + (w - d)) {
    } else {
        lemma_window_search(ol, nl, i, j, w, d + 1);
    }
}

/// The hunk that starts at a difference deletes or adds at least one line
/// and stays within both texts.
proof fn lemma_hunk_size(ol: Seq<Seq<char>>, nl: Seq<Seq<char>>, i: int, j: int)
    requires
        0 <= i <= ol.len(),
        0 <= j <= nl.len(),
        !(i == ol.len() && j == nl.len()),
        !(i < ol.len() && j < nl.len() && ol[i] == nl[j]),
    ensures
        ({
            let (d, a) = hunk_size(ol, nl, i, j);
            0 <= d && 0 <= a && d + a > 0 && i + d <= ol.len() && j + a <= nl.len()
        }),
{
    lemma_window_search(ol, nl, i, j, 0, 0);
}

/// The hunks of the diff form an edit script from the old lines to the new.
pub proof fn lemma_diff_ranges_edit_script(ol: Seq<Seq<char>>, nl: Seq<Seq<char>>, i: int, j: int)
    requires
        0 <= i <= ol.len(),
        0 <= j <= nl.len(),
    ensures
        edit_script_from(ol, nl, diff_ranges(ol, nl, i, j), i, j),
    decreases ol.len() - i + nl.len() - j,
{
    if i == ol.len() && j == nl.len() {
        assert(ol.skip(i) =~= nl.skip(j));
    } else if i < ol.len() && j < nl.len() && ol[i] == nl[j] {
        lemma_diff_ranges_edit_script(ol, nl, i + 1, j + 1);
        let rs = diff_ranges(ol, nl, i + 1, j + 1);
        if rs.len() == 0 {
            assert(ol.skip(i) =~= seq![ol[i]] + ol.skip(i + 1));
            assert(nl.skip(j) =~= seq![nl[j]] + nl.skip(j + 1));
        } else {
            let r = rs[0];
            assert(ol.subrange(i, r.0) =~= seq![ol[i]] + ol.subrange(i + 1, r.0));
            assert(nl.subrange(j, r.2) =~= seq![nl[j]] + nl.subrange(j + 1, r.2));
        }
    } else {
        lemma_hunk_size(ol, nl, i, j);
        let (d, a) = hunk_size(ol, nl, i, j);
        lemma_diff_ranges_edit_script(ol, nl, i + d, j + a);
        let rs = diff_ranges(ol, nl, i, j);
        assert(rs.drop_first() =~= diff_ranges(ol, nl, i + d, j + a));
        assert(ol.subrange(i, i) =~= nl.subrange(j, j));
    }
}

/// Law: the hunks of `generate_diff` form an edit script of the old lines
/// into the new lines; keeping the lines between hunks and replacing each
/// hunk's old range by its new range turns the old text's lines into the new
/// text's lines.
pub proof fn diff_is_edit_script(old_text: Seq<char>, new_text: Seq<char>)
    ensures
        edit_script_from(lines(old_text), lines(new_text), text_diff(old_text, new_text), 0, 0),
{
    lemma_diff_ranges_edit_script(lines(old_text), lines(new_text), 0, 0);
}

proof fn lemma_diff_ranges_nonempty(ol: Seq<Seq<char>>, nl: Seq<Seq<char>>, i: int, j: int)
    ensures
        forall|k: int|
            0 <= k < diff_ranges(ol, nl, i, j).len() ==> {
                let r = #[trigger] diff_ranges(ol, nl, i, j)[k];
                0 <= r.1 && 0 <= r.3 && r.1 + r.3 > 0
            },
    decreases ol.len() - i + nl.len() - j,
{
    if i < 0 || j < 0 || i > ol.len() || j > nl.len() || (i == ol.len() && j == nl.len()) {
    } else if i < ol.len() && j < nl.len() && ol[i] == nl[j] {
        lemma_diff_ranges_nonempty(ol, nl, i + 1, j + 1);
        assert(diff_ranges(ol, nl, i, j) == diff_ranges(ol, nl, i + 1, j + 1));
    } else {
        let (d, a) = hunk_size(ol, nl, i, j);
        if !(d < 0 || a < 0 || d + a == 0 || i + d > ol.len() || j + a > nl.len()) {
            lemma_diff_ranges_nonempty(ol, nl, i + d, j + a);
            let rs = diff_ranges(ol, nl, i, j);
            assert forall|k: int| 0 <= k < rs.len() implies {
                let r = #[trigger] rs[k];
                0 <= r.1 && 0 <= r.3 && r.1 + r.3 > 0
            } by {
                if k > 0 {
                    assert(rs[k] == diff_ranges(ol, nl, i + d, j + a)[k - 1]);
                }
            }
        }
    }
}

/// Law: the diff of two texts is an edit script of the old lines into the
/// new lines (hunks in order and disjoint, the lines between and after them
/// equal on both sides, so that replacing each hunk's old range by its new
/// range turns the old lines into the new); every hunk deletes or adds at
/// least one line; and equal texts give no hunk. (`generate_diff` writes
/// each hunk's content as its old lines after "- " and its new lines after
/// "+ ", see `hunk_matches`.)
pub proof fn diff_law(old_text: Seq<char>, new_text: Seq<char>)
    ensures
        edit_script_from(lines(old_text), lines(new_text), text_diff(old_text, new_text), 0, 0),
        forall|k: int|
            0 <= k < text_diff(old_text, new_text).len() ==> {
                let r = #[trigger] text_diff(old_text, new_text)[k];
                0 <= r.1 && 0 <= r.3 && r.1 + r.3 > 0
            },
        old_text == new_text ==> text_diff(old_text, new_text).len() == 0,
{
    diff_is_edit_script(old_text, new_text);
    lemma_diff_ranges_nonempty(lines(old_text), lines(new_text), 0, 0);
    if old_text == new_text {
        diff_of_equal_texts_is_empty(old_text);
    }
}

/// Law: a text compared with itself has no hunks.
pub proof fn diff_of_equal_texts_is_empty(t: Seq<char>)
    ensures
        text_diff(t, t).len() == 0,
{
    lemma_diff_self(lines(t), 0);
}

proof fn lemma_diff_self(ls: Seq<Seq<char>>, i: int)
    requires
        0 <= i <= ls.len(),
    ensures
        diff_ranges(ls, ls, i, i).len() == 0,
    decreases ls.len() - i,
{
    if i < ls.len() {
        lemma_diff_self(ls, i + 1);
    }
}

fn lines_equal(a: &Vec<char>, b: &Vec<char>) -> (r: bool)
    ensures
        r == (a@ == b@),
{
    if a.len() != b.len() {
        return false;
    }
    let mut k: usize = 0;
    while k < a.len()
        invariant
            a.len() == b.len(),
            k <= a.len(),
            forall|m: int| 0 <= m < k ==> a@[m] == b@[m],
        decreases a.len() - k,
    {
        if a[k] != b[k] {
            return false;
        }
        k = k + 1;
    }
    assert(a@ =~= b@);
    true
}

fn search_window(ol: &Vec<Vec<char>>, nl: &Vec<Vec<char>>, i: usize, j: usize) -> (r: Option<
    (usize, usize),
>)
    requires
        i <= ol.len(),
        j <= nl.len(),
    ensures
        match r {
            Some(p) => window_search(vviews(ol@), vviews(nl@), i as int, j as int, 0, 0) == Some(
                (p.0 as int, p.1 as int),
            ),
            None => window_search(vviews(ol@), vviews(nl@), i as int, j as int, 0, 0) is None,
        },
{
    let ghost ov = vviews(ol@);
    let ghost nv = vviews(nl@);
    let mut w: usize = 0;
    while w <= MAX_WINDOW
        invariant
            i <= ol.len(),
            j <= nl.len(),
            ov == vviews(ol@),
            nv == vviews(nl@),
            w <= MAX_WINDOW + 1,
            window_search(ov, nv, i as int, j as int, 0, 0) == window_search(
                ov,
                nv,
                i as int,
                j as int,
                w as int,
                0,
            ),
        decreases MAX_WINDOW + 1 - w,
    {
        let mut d: usize = 0;
        while d <= w
            invariant
                i <= ol.len(),
                j <= nl.len(),
                ov == vviews(ol@),
                nv == vviews(nl@),
                w <= MAX_WINDOW,
                d <= w + 1,
                window_search(ov, nv, i as int, j as int, 0, 0) == window_search(
                    ov,
                    nv,
                    i as int,
                    j as int,
                    w as int,
                    d as int,
                ),
            decreases w + 1 - d,
        {
            let a = w - d;
            if d < ol.len() - i && a < nl.len() - j && lines_equal(&ol[i + d], &nl[j + a]) {
                return Some((d, a));
            }
            d = d + 1;
        }
        w = w + 1;
    }
    None
}

fn push_prefixed_lines(out: &mut String, ls: &Vec<Vec<char>>, from: usize, count: usize, p0: char)
    requires
        from + count <= ls.len(),
    ensures
        final(out)@ == old(out)@ + prefixed_lines(
            vviews(ls@).subrange(from as int, from + count),
            seq![p0, ' '],
        ),
{
    let ghost v = vviews(ls@);
    let mut k: usize = 0;
    while k < count
        invariant
            from + count <= ls.len(),
            v == vviews(ls@),
            k <= count,
            out@ == old(out)@ + prefixed_lines(v.subrange(from as int, from + k), seq![p0, ' ']),
        decreases count - k,
    {
        out.push(p0);
        out.push(' ');
        push_all(out, &ls[from + k]);
        out.push('\n');
        k = k + 1;
        proof {
            let s = v.subrange(from as int, from + k);
            assert(s.drop_last() =~= v.subrange(from as int, from + k - 1));
            assert(s.last() == ls@[from + k - 1]@);
        }
    }
}

impl DiffEngine {
    /// Diff of two texts, line by line. Equal lines are skipped; at a
    /// difference the nearest pair of equal lines within a window of twenty
    /// is searched (fewest deleted plus added lines first, then fewest
    /// deleted), and the lines before it form a hunk; without such a pair,
    /// up to twenty lines of each remaining side form a hunk.
    pub fn generate_diff(old_text: &str, new_text: &str) -> (hunks: Vec<DiffHunk>)
        ensures
            hunks.len() == text_diff(old_text@, new_text@).len(),
            forall|k: int|
                0 <= k < hunks.len() ==> hunk_matches(
                    #[trigger] hunks@[k],
                    lines(old_text@),
                    lines(new_text@),
                    text_diff(old_text@, new_text@)[k],
                ),
    {
        let oc = chars_of(old_text);
        let nc = chars_of(new_text);
        let ol = lines_of(&oc);
        let nl = lines_of(&nc);
        let ghost ov = vviews(ol@);
        let ghost nv = vviews(nl@);
        let ghost all = diff_ranges(ov, nv, 0, 0);
        let mut hunks: Vec<DiffHunk> = Vec::new();
        let mut i: usize = 0;
        let mut j: usize = 0;
        while i < ol.len() || j < nl.len()
            invariant
                ov == vviews(ol@),
                nv == vviews(nl@),
                ov == lines(old_text@),
                nv == lines(new_text@),
                all == diff_ranges(ov, nv, 0, 0),
                i <= ol.len(),
                j <= nl.len(),
                all == hunks_ranges_prefix(all, hunks.len() as int) + diff_ranges(
                    ov,
                    nv,
                    i as int,
                    j as int,
                ),
                hunks.len() <= all.len(),
                forall|k: int|
                    0 <= k < hunks.len() ==> hunk_matches(#[trigger] hunks@[k], ov, nv, all[k]),
            decreases ol.len() - i + nl.len() - j,
        {
            if i < ol.len() && j < nl.len() && lines_equal(&ol[i], &nl[j]) {
                i = i + 1;
                j = j + 1;
                continue ;
            }
            proof {
                lemma_hunk_size(ov, nv, i as int, j as int);
            }
            let (del_count, add_count) = match search_window(&ol, &nl, i, j) {
                Some(p) => p,
                None => (
                    if i < ol.len() {
                        if ol.len() - i < MAX_WINDOW {
                            ol.len() - i
                        } else {
                            MAX_WINDOW
                        }
                    } else {
                        0
                    },
                    if j < nl.len() {
                        if nl.len() - j < MAX_WINDOW {
                            nl.len() - j
                        } else {
                            MAX_WINDOW
                        }
                    } else {
                        0
                    },
                ),
            };
            let ghost r = (i as int, del_count as int, j as int, add_count as int);
            let mut content = String::new();
            push_prefixed_lines(&mut content, &ol, i, del_count, '-');
            push_prefixed_lines(&mut content, &nl, j, add_count, '+');
            let change_type = if del_count > 0 && add_count > 0 {
                String::from_str("change")
            } else if del_count > 0 {
                String::from_str("delete")
            } else {
                String::from_str("add")
            };
            let hunk = DiffHunk {
                old_start: i as u32,
                old_lines: del_count as u32,
                new_start: j as u32,
                new_lines: add_count as u32,
                content,
                change_type,
            };
            proof {
                let rest = diff_ranges(ov, nv, i as int, j as int);
                assert(rest[0] == r);
                assert(hunks_ranges_prefix(all, hunks.len() + 1) =~= hunks_ranges_prefix(
                    all,
                    hunks.len() as int,
                ).push(r));
                assert(all[hunks.len() as int] == r);
            }
            hunks.push(hunk);
            i = i + del_count;
            j = j + add_count;
        }
        hunks
    }
}

/// The first `n` ranges of `all`.
pub open spec fn hunks_ranges_prefix(all: Seq<(int, int, int, int)>, n: int) -> Seq<
    (int, int, int, int),
> {
    all.take(n)
}

} // verus!
