//! Splitting of a source text into chunks for embedding: pieces of at most
//! `max_chars` characters, cut after the last sentence end of a full piece.
use vstd::prelude::*;
use crate::text::{chars_of, is_whitespace, string_of_range, trim, trim_bounds};

verus! {

/// A character after which a chunk may end: a CJK full stop, exclamation or
/// question mark, semicolon, or a newline.
pub open spec fn is_sentence_end(c: char) -> bool {
    c == '。' || c == '！' || c == '？' || c == '\n' || c == '；'
}

/// Index of the last sentence end in `cs[start..end]`.
pub open spec fn last_sentence_end(cs: Seq<char>, start: int, end: int) -> Option<int>
    decreases end - start,
{
    if end <= start {
        None
    } else if is_sentence_end(cs[end - 1]) {
        Some(end - 1)
    } else {
        last_sentence_end(cs, start, end - 1)
    }
}

/// Where the piece that starts at `start` ends: after the last sentence end
/// within `max` characters, unless the piece reaches the end of the text.
pub open spec fn piece_end(cs: Seq<char>, start: int, max: int) -> int {
    let end = if start + max < cs.len() {
        start + max
    } else {
        cs.len() as int
    };
    if end < cs.len() {
        match last_sentence_end(cs, start, end) {
            Some(k) => k + 1,
            None => end,
        }
    } else {
        end
    }
}

/// The consecutive pieces of the text from `start` on.
pub open spec fn pieces_from(cs: Seq<char>, start: int, max: int) -> Seq<Seq<char>>
    decreases cs.len() - start,
{
    if start < 0 || start >= cs.len() || max <= 0 {
        seq![]
    } else {
        let e = piece_end(cs, start, max);
        if start < e <= cs.len() {
            seq![cs.subrange(start, e)] + pieces_from(cs, e, max)
        } else {
            seq![]
        }
    }
}

/// The pieces that are not blank.
pub open spec fn non_blank(ps: Seq<Seq<char>>) -> Seq<Seq<char>>
    decreases ps.len(),
{
    if ps.len() == 0 {
        seq![]
    } else if trim(ps[0]).len() > 0 {
        seq![ps[0]] + non_blank(ps.drop_first())
    } else {
        non_blank(ps.drop_first())
    }
}

/// The concatenation of pieces.
pub open spec fn concat(ps: Seq<Seq<char>>) -> Seq<char>
    decreases ps.len(),
{
    if ps.len() == 0 {
        seq![]
    } else {
        ps[0] + concat(ps.drop_first())
    }
}

proof fn lemma_last_sentence_end(cs: Seq<char>, start: int, end: int)
    ensures
        last_sentence_end(cs, start, end) matches Some(k) ==> start <= k < end,
    decreases end - start,
{
    if end > start && !is_sentence_end(cs[end - 1]) {
        lemma_last_sentence_end(cs, start, end - 1);
    }
}

proof fn lemma_piece_end(cs: Seq<char>, start: int, max: int)
    requires
        0 <= start < cs.len(),
        max > 0,
    ensures
        start < piece_end(cs, start, max) <= cs.len(),
        piece_end(cs, start, max) - start <= max,
{
    let end = if start + max < cs.len() {
        start + max
    } else {
        cs.len() as int
    };
    lemma_last_sentence_end(cs, start, end);
}

/// Law: the pieces of a text, in order, make up the whole text; each piece
/// is non-empty and holds at most `max` characters.
pub proof fn pieces_cover_text(cs: Seq<char>, start: int, max: int)
    requires
        0 <= start <= cs.len(),
        max > 0,
    ensures
        concat(pieces_from(cs, start, max)) == cs.skip(start),
        forall|k: int|
            0 <= k < pieces_from(cs, start, max).len() ==> 0 < #[trigger] pieces_from(
                cs,
                start,
                max,
            )[k].len() <= max,
    decreases cs.len() - start,
{
    if start == cs.len() {
        assert(cs.skip(start) =~= Seq::<char>::empty());
    } else {
        lemma_piece_end(cs, start, max);
        let e = piece_end(cs, start, max);
        pieces_cover_text(cs, e, max);
        assert(cs.skip(start) =~= cs.subrange(start, e) + cs.skip(e));
        let ps = pieces_from(cs, start, max);
        assert(ps.drop_first() == pieces_from(cs, e, max));
        assert forall|k: int| 0 <= k < ps.len() implies 0 < #[trigger] ps[k].len() <= max by {
            if k > 0 {
                assert(ps[k] == pieces_from(cs, e, max)[k - 1]);
            }
        }
    }
}

/// Law: every chunk is a non-blank piece of at most `max` characters.
pub proof fn chunks_are_non_blank_pieces(cs: Seq<char>, max: int)
    requires
        max > 0,
    ensures
        forall|k: int|
            0 <= k < non_blank(pieces_from(cs, 0, max)).len() ==> trim(
                #[trigger] non_blank(pieces_from(cs, 0, max))[k],
            ).len() > 0 && non_blank(pieces_from(cs, 0, max))[k].len() <= max,
{
    pieces_cover_text(cs, 0, max);
    lemma_non_blank(pieces_from(cs, 0, max), max);
}

proof fn lemma_non_blank(ps: Seq<Seq<char>>, max: int)
    requires
        forall|k: int| 0 <= k < ps.len() ==> (#[trigger] ps[k]).len() <= max,
    ensures
        forall|k: int|
            0 <= k < non_blank(ps).len() ==> trim(#[trigger] non_blank(ps)[k]).len() > 0
                && non_blank(ps)[k].len() <= max,
    decreases ps.len(),
{
    if ps.len() > 0 {
        assert forall|k: int| 0 <= k < ps.drop_first().len() implies (
        #[trigger] ps.drop_first()[k]).len() <= max by {
            assert(ps.drop_first()[k] == ps[k + 1]);
        }
        lemma_non_blank(ps.drop_first(), max);
        let nb = non_blank(ps);
        assert forall|k: int| 0 <= k < nb.len() implies trim(#[trigger] nb[k]).len() > 0
            && nb[k].len() <= max by {
            if trim(ps[0]).len() > 0 {
                if k > 0 {
                    assert(nb[k] == non_blank(ps.drop_first())[k - 1]);
                }
            } else {
                assert(nb[k] == non_blank(ps.drop_first())[k]);
            }
        }
    }
}

/// Whether the piece `cs[s..e)` is cut where it should be: it reaches the
/// end of the text; or it holds `max` characters and none of them is a
/// sentence end; or it ends with a sentence end and no later character
/// within `max` characters of its start is one.
pub open spec fn cut_well(cs: Seq<char>, s: int, e: int, max: int) -> bool {
    ||| e >= cs.len()
    ||| (e == s + max && forall|k: int| s <= k < e ==> !is_sentence_end(#[trigger] cs[k]))
    ||| (s < e && is_sentence_end(cs[e - 1]) && forall|k: int|
        e <= k < s + max && k < cs.len() ==> !is_sentence_end(#[trigger] cs[k]))
}

proof fn lemma_last_sentence_end_is_last(cs: Seq<char>, start: int, end: int)
    requires
        0 <= start <= end <= cs.len(),
    ensures
        match last_sentence_end(cs, start, end) {
            Some(k) => start <= k < end && is_sentence_end(cs[k]) && forall|m: int|
                k < m < end ==> !is_sentence_end(#[trigger] cs[m]),
            None => forall|m: int| start <= m < end ==> !is_sentence_end(#[trigger] cs[m]),
        },
    decreases end - start,
{
    if end > start && !is_sentence_end(cs[end - 1]) {
        lemma_last_sentence_end_is_last(cs, start, end - 1);
    }
}

proof fn lemma_concat_push_front(a: Seq<char>, r: Seq<Seq<char>>)
    ensures
        concat(seq![a] + r) == a + concat(r),
{
    assert((seq![a] + r).drop_first() =~= r);
}

proof fn lemma_pieces_cut_well(cs: Seq<char>, start: int, max: int)
    requires
        0 <= start <= cs.len(),
        max > 0,
    ensures
        ({
            let ps = pieces_from(cs, start, max);
            forall|j: int|
                0 <= j < ps.len() ==> cut_well(
                    cs,
                    start + concat(ps.take(j)).len(),
                    start + concat(ps.take(j)).len() + (#[trigger] ps[j]).len(),
                    max,
                )
        }),
    decreases cs.len() - start,
{
    if start < cs.len() {
        lemma_piece_end(cs, start, max);
        let e = piece_end(cs, start, max);
        let end = if start + max < cs.len() {
            start + max
        } else {
            cs.len() as int
        };
        lemma_last_sentence_end_is_last(cs, start, end);
        lemma_pieces_cut_well(cs, e, max);
        let ps = pieces_from(cs, start, max);
        let rest = pieces_from(cs, e, max);
        let piece = cs.subrange(start, e);
        assert(ps == seq![piece] + rest);
        assert forall|j: int| 0 <= j < ps.len() implies cut_well(
            cs,
            start + concat(ps.take(j)).len(),
            start + concat(ps.take(j)).len() + (#[trigger] ps[j]).len(),
            max,
        ) by {
            if j == 0 {
                assert(ps.take(0) =~= Seq::<Seq<char>>::empty());
                assert(concat(ps.take(0)).len() == 0);
                assert(ps[0] == piece);
            } else {
                assert(ps.take(j) =~= seq![piece] + rest.take(j - 1));
                lemma_concat_push_front(piece, rest.take(j - 1));
                assert(ps[j] == rest[j - 1]);
            }
        }
    }
}

/// Law: a piece that does not reach the end of the text is cut after the
/// last sentence end within `max_chars` characters of its start: it ends
/// with a sentence end and no character after it in that window is one; or
/// there is no sentence end in the window and the piece fills it. A piece
/// is located in the text by the lengths of the pieces before it.
pub proof fn pieces_cut_after_last_sentence_end(cs: Seq<char>, max: int)
    requires
        max > 0,
    ensures
        ({
            let ps = pieces_from(cs, 0, max);
            forall|j: int|
                0 <= j < ps.len() ==> cut_well(
                    cs,
                    concat(ps.take(j)).len() as int,
                    (concat(ps.take(j)).len() + (#[trigger] ps[j]).len()) as int,
                    max,
                )
        }),
{
    lemma_pieces_cut_well(cs, 0, max);
}

proof fn lemma_non_blank_keeps(ps: Seq<Seq<char>>)
    ensures
        forall|k: int| 0 <= k < ps.len() && trim(#[trigger] ps[k]).len() > 0 ==> non_blank(ps).contains(ps[k]),
        forall|m: int| 0 <= m < non_blank(ps).len() ==> ps.contains(#[trigger] non_blank(ps)[m]),
    decreases ps.len(),
{
    if ps.len() > 0 {
        let d = ps.drop_first();
        lemma_non_blank_keeps(d);
        let nb = non_blank(ps);
        let nd = non_blank(d);
        assert forall|k: int| 0 <= k < ps.len() && trim(#[trigger] ps[k]).len() > 0 implies nb.contains(ps[k]) by {
            if k == 0 {
                assert(nb[0] == ps[0]);
            } else {
                assert(d[k - 1] == ps[k]);
                let m = choose|m: int| 0 <= m < nd.len() && nd[m] == d[k - 1];
                if trim(ps[0]).len() > 0 {
                    assert(nb[m + 1] == nd[m]);
                } else {
                    assert(nb[m] == nd[m]);
                }
            }
        }
        assert forall|m: int| 0 <= m < nb.len() implies ps.contains(#[trigger] nb[m]) by {
            if trim(ps[0]).len() > 0 {
                if m == 0 {
                    assert(ps[0] == nb[0]);
                } else {
                    assert(nb[m] == nd[m - 1]);
                    let k = choose|k: int| 0 <= k < d.len() && d[k] == nd[m - 1];
                    assert(ps[k + 1] == d[k]);
                }
            } else {
                assert(nb[m] == nd[m]);
                let k = choose|k: int| 0 <= k < d.len() && d[k] == nd[m];
                assert(ps[k + 1] == d[k]);
            }
        }
    }
}

/// Law: the chunks are exactly the non-blank pieces: every piece that is
/// not blank is a chunk, and every chunk is one of the pieces.
pub proof fn chunks_are_exactly_the_non_blank_pieces(cs: Seq<char>, max: int)
    ensures
        ({
            let ps = pieces_from(cs, 0, max);
            &&& forall|k: int| 0 <= k < ps.len() && trim(#[trigger] ps[k]).len() > 0 ==> non_blank(ps).contains(ps[k])
            &&& forall|m: int| 0 <= m < non_blank(ps).len() ==> ps.contains(#[trigger] non_blank(ps)[m])
        }),
{
    lemma_non_blank_keeps(pieces_from(cs, 0, max));
}

fn is_sentence_end_exec(c: char) -> (b: bool)
    ensures
        b == is_sentence_end(c),
{
    c == '。' || c == '！' || c == '？' || c == '\n' || c == '；'
}

/// Splits a text into the non-blank pieces of at most `max_chars`
/// characters; a piece that does not reach the end of the text ends after
/// its last sentence end, if it has one.
pub fn chunk_text(text: &str, max_chars: usize) -> (chunks: Vec<String>)
    requires
        max_chars > 0 || text@.len() == 0,
    ensures
        chunks@.map_values(|s: String| s@) == non_blank(pieces_from(text@, 0, max_chars as int)),
{
    let cs = chars_of(text);
    let mut chunks: Vec<String> = Vec::new();
    let mut start: usize = 0;
    let ghost all = non_blank(pieces_from(cs@, 0, max_chars as int));
    while start < cs.len()
        invariant
            cs@ == text@,
            max_chars > 0 || cs@.len() == 0,
            start <= cs.len(),
            all == non_blank(pieces_from(cs@, 0, max_chars as int)),
            chunks@.map_values(|s: String| s@) + non_blank(
                pieces_from(cs@, start as int, max_chars as int),
            ) == all,
        decreases cs.len() - start,
    {
        let end = if max_chars < cs.len() - start {
            start + max_chars
        } else {
            cs.len()
        };
        let mut break_point = end;
        if end < cs.len() {
            let mut i = end;
            while i > start && !is_sentence_end_exec(cs[i - 1])
                invariant
                    start <= i <= end,
                    end < cs.len(),
                    last_sentence_end(cs@, start as int, end as int) == last_sentence_end(
                        cs@,
                        start as int,
                        i as int,
                    ),
                decreases i - start,
            {
                i = i - 1;
            }
            if i > start {
                break_point = i;
            }
        }
        proof {
            lemma_piece_end(cs@, start as int, max_chars as int);
            assert(break_point == piece_end(cs@, start as int, max_chars as int));
        }
        let (lo, hi) = trim_bounds(&cs, start, break_point);
        let ghost piece = cs@.subrange(start as int, break_point as int);
        let ghost rest = pieces_from(cs@, break_point as int, max_chars as int);
        assert(pieces_from(cs@, start as int, max_chars as int) == seq![piece] + rest);
        assert((seq![piece] + rest).drop_first() =~= rest);
        if lo < hi {
            let chunk = string_of_range(&cs, start, break_point);
            let ghost before = chunks@.map_values(|s: String| s@);
            chunks.push(chunk);
            assert(chunks@.map_values(|s: String| s@) =~= before.push(piece));
            assert(before.push(piece) + non_blank(rest) =~= before + (seq![piece] + non_blank(
                rest,
            )));
        }
        start = break_point;
    }
    assert(chunks@.map_values(|s: String| s@) + non_blank(
        pieces_from(cs@, start as int, max_chars as int),
    ) =~= chunks@.map_values(|s: String| s@));
    chunks
}

} // verus!
