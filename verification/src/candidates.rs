//! The names that an ingest result asks to look up among the existing
//! knowledge items and wiki pages before pages are created, and the
//! candidates found for a name: exact matches first, then items and pages
//! whose names are close in Damerau-Levenshtein distance.
use vstd::prelude::*;
use crate::dedup::{lowercase, to_lowercase};
use crate::gateway::seq_eq;
use crate::text::chars_of;
use crate::validator::{array_field, get_field, str_field, JsonValue};

verus! {

/// Looks up candidate pages for the entities, concepts and topics of an
/// ingest result.
pub struct CandidateSearchEngine;

/// The (name, kind) of each item that has a string `name`, in order.
pub open spec fn named_items(items: Seq<JsonValue>, kind: Seq<char>) -> Seq<(Seq<char>, Seq<char>)>
    decreases items.len(),
{
    if items.len() == 0 {
        seq![]
    } else {
        let r = named_items(items.drop_last(), kind);
        match str_field(items.last(), "name"@) {
            Some(n) => r.push((n, kind)),
            None => r,
        }
    }
}

/// The items of an array field, or none.
pub open spec fn items_of(v: JsonValue, key: Seq<char>) -> Seq<JsonValue> {
    match array_field(v, key) {
        Some(items) => items,
        None => seq![],
    }
}

/// The names to look up in an ingest result: those of its `entities`, then
/// its `concepts`, then its `topics`, each with its kind.
pub open spec fn names_to_check(v: JsonValue) -> Seq<(Seq<char>, Seq<char>)> {
    named_items(items_of(v, "entities"@), "entity"@) + named_items(items_of(v, "concepts"@), "concept"@)
        + named_items(items_of(v, "topics"@), "topic"@)
}

/// The view of a list of (name, kind) pairs.
pub open spec fn pair_views(v: Seq<(String, String)>) -> Seq<(Seq<char>, Seq<char>)> {
    v.map_values(|p: (String, String)| (p.0@, p.1@))
}

/// Appends the named items of array field `key` with `kind`.
fn push_named(out: &mut Vec<(String, String)>, v: &JsonValue, key: &str, kind: &str)
    ensures
        pair_views(final(out)@) == pair_views(old(out)@) + named_items(items_of(*v, key@), kind@),
{
    let ghost start = pair_views(out@);
    match get_field(v, key) {
        Some(JsonValue::Array(items)) => {
            let ghost its = items_of(*v, key@);
            assert(its == items@);
            let mut i: usize = 0;
            while i < items.len()
                invariant
                    i <= items@.len(),
                    its == items@,
                    pair_views(out@) == start + named_items(its.take(i as int), kind@),
                decreases items.len() - i,
            {
                assert(its.take(i + 1).drop_last() =~= its.take(i as int));
                assert(its.take(i + 1).last() == items@[i as int]);
                let ghost before = pair_views(out@);
                match get_field(&items[i], "name") {
                    Some(JsonValue::Str(n)) => {
                        out.push((n.clone(), String::from_str(kind)));
                        assert(pair_views(out@) =~= before.push((n@, kind@)));
                    },
                    _ => {},
                }
                i = i + 1;
            }
            assert(its.take(items@.len() as int) =~= its);
        },
        _ => {
            assert(items_of(*v, key@) =~= Seq::<JsonValue>::empty());
        },
    }
    assert(pair_views(out@) =~= start + named_items(items_of(*v, key@), kind@));
}

impl CandidateSearchEngine {
    /// The names to look up in an ingest result (see `names_to_check`).
    pub fn names_to_check(json: &JsonValue) -> (names: Vec<(String, String)>)
        ensures
            pair_views(names@) == names_to_check(*json),
    {
        let mut out: Vec<(String, String)> = Vec::new();
        assert(pair_views(out@) =~= Seq::<(Seq<char>, Seq<char>)>::empty());
        push_named(&mut out, json, "entities", "entity");
        push_named(&mut out, json, "concepts", "concept");
        push_named(&mut out, json, "topics", "topic");
        assert(pair_views(out@) =~= names_to_check(*json));
        out
    }
}


// ---------------------------------------------------------------------------
// Candidates for one name
// ---------------------------------------------------------------------------

/// A knowledge item as read for the search: id, canonical name, type and
/// the path of its page.
#[derive(Debug, Clone)]
pub struct ItemRow {
    pub id: String,
    pub canonical_name: String,
    pub item_type: String,
    pub page_path: String,
}

/// A wiki page as read for the search: id, title, canonical name, page
/// type and path.
#[derive(Debug, Clone)]
pub struct WikiPageRow {
    pub id: String,
    pub title: String,
    pub canonical_name: String,
    pub page_type: String,
    pub path: String,
}

/// A candidate for a name. Its similarity is `1 - distance / max_len`: an
/// exact match has distance 0 (and `max_len` 1); a close one the
/// Damerau-Levenshtein distance between the lower-cased names and the
/// greater of their lengths in characters.
#[derive(Debug, Clone)]
pub struct CandidateMatch {
    pub item_id: String,
    pub canonical_name: String,
    pub item_type: String,
    pub page_path: String,
    pub distance: usize,
    pub max_len: usize,
    pub match_type: String,
}

/// What `strsim::damerau_levenshtein` returns for two texts: their distance
/// counting insertions, deletions, substitutions and transpositions of
/// adjacent characters.
pub uninterp spec fn dl_distance(a: Seq<char>, b: Seq<char>) -> nat;

/// Calls `strsim::damerau_levenshtein`.
#[verifier::external_body]
fn damerau_levenshtein(a: &str, b: &str) -> (d: usize)
    ensures
        d == dl_distance(a@, b@),
{
    strsim::damerau_levenshtein(a, b)
}

/// A candidate as values: id, canonical name, type, path, distance,
/// greatest length and match type.
pub type MatchView = (Seq<char>, Seq<char>, Seq<char>, Seq<char>, int, int, Seq<char>);

pub open spec fn match_view(m: CandidateMatch) -> MatchView {
    (m.item_id@, m.canonical_name@, m.item_type@, m.page_path@, m.distance as int, m.max_len as int, m.match_type@)
}

pub open spec fn match_views(ms: Seq<CandidateMatch>) -> Seq<MatchView> {
    ms.map_values(|m: CandidateMatch| match_view(m))
}

/// Whether a distance makes two names of the given lengths close: their
/// similarity `1 - distance / max(len_a, len_b)` is above 0.6 and below 1.
pub open spec fn is_close(distance: int, len_a: int, len_b: int) -> bool {
    let m = if len_a >= len_b { len_a } else { len_b };
    m > 0 && distance > 0 && 5 * distance < 2 * m
}

/// The close similarity of a lower-cased name to `other`, as (distance,
/// greatest length), or none.
pub open spec fn closeness(name: Seq<char>, other: Seq<char>) -> Option<(int, int)> {
    let b = lowercase(other);
    let d = dl_distance(name, b) as int;
    let m = if name.len() >= b.len() { name.len() as int } else { b.len() as int };
    if is_close(d, name.len() as int, b.len() as int) {
        Some((d, m))
    } else {
        None
    }
}

/// Whether a candidate for item `id` is among `ms`.
pub open spec fn has_item(ms: Seq<MatchView>, id: Seq<char>) -> bool
    decreases ms.len(),
{
    ms.len() > 0 && (ms.last().0 == id || has_item(ms.drop_last(), id))
}

/// The exact matches among knowledge items.
pub open spec fn exact_item_matches(rows: Seq<ItemRow>) -> Seq<MatchView> {
    rows.map_values(|r: ItemRow| (r.id@, r.canonical_name@, r.item_type@, r.page_path@, 0int, 1int, "exact_ki"@))
}

/// The exact matches among wiki pages.
pub open spec fn exact_page_matches(rows: Seq<WikiPageRow>) -> Seq<MatchView> {
    rows.map_values(|r: WikiPageRow| (r.id@, r.canonical_name@, r.page_type@, r.path@, 0int, 1int, "exact_wp"@))
}

/// `acc` with the knowledge items close to `name` added, each item once.
pub open spec fn add_close_items(acc: Seq<MatchView>, rows: Seq<ItemRow>, name: Seq<char>) -> Seq<MatchView>
    decreases rows.len(),
{
    if rows.len() == 0 {
        acc
    } else {
        let a = add_close_items(acc, rows.drop_last(), name);
        let r = rows.last();
        match closeness(name, r.canonical_name@) {
            Some((d, m)) => if has_item(a, r.id@) {
                a
            } else {
                a.push((r.id@, r.canonical_name@, r.item_type@, r.page_path@, d, m, "fuzzy_ki"@))
            },
            None => a,
        }
    }
}

/// `acc` with page `r` added when its title, or else its canonical name, is
/// close to `name`, each page once.
pub open spec fn add_close_page(acc: Seq<MatchView>, r: WikiPageRow, name: Seq<char>) -> Seq<MatchView> {
    let a = match closeness(name, r.title@) {
        Some((d, m)) => if has_item(acc, r.id@) {
            acc
        } else {
            acc.push((r.id@, r.canonical_name@, r.page_type@, r.path@, d, m, "fuzzy_wp_title"@))
        },
        None => acc,
    };
    match closeness(name, r.canonical_name@) {
        Some((d, m)) => if has_item(a, r.id@) {
            a
        } else {
            a.push((r.id@, r.canonical_name@, r.page_type@, r.path@, d, m, "fuzzy_wp_canon"@))
        },
        None => a,
    }
}

/// `acc` with the pages close to `name` added.
pub open spec fn add_close_pages(acc: Seq<MatchView>, rows: Seq<WikiPageRow>, name: Seq<char>) -> Seq<MatchView>
    decreases rows.len(),
{
    if rows.len() == 0 {
        acc
    } else {
        add_close_page(add_close_pages(acc, rows.drop_last(), name), rows.last(), name)
    }
}

/// Whether candidate `a` is more similar than `b`:
/// `a.distance / a.max_len < b.distance / b.max_len`.
pub open spec fn more_similar(a: MatchView, b: MatchView) -> bool {
    a.4 * b.5 < b.4 * a.5
}

/// `s` with `x` inserted after the last candidate that is not less similar.
pub open spec fn insert_by_similarity(s: Seq<MatchView>, x: MatchView) -> Seq<MatchView>
    decreases s.len(),
{
    if s.len() == 0 {
        seq![x]
    } else if more_similar(x, s.last()) {
        insert_by_similarity(s.drop_last(), x).push(s.last())
    } else {
        s.push(x)
    }
}

/// The candidates from the most similar down, equally similar ones keeping
/// their order (what the stable `sort_by` of `Vec` gives).
pub open spec fn sort_by_similarity(s: Seq<MatchView>) -> Seq<MatchView>
    decreases s.len(),
{
    if s.len() == 0 {
        seq![]
    } else {
        insert_by_similarity(sort_by_similarity(s.drop_last()), s.last())
    }
}

/// The candidates for `name`: the exact matches among items and among
/// pages, then the items and the pages close to the lower-cased name, each
/// item or page once, sorted from the most similar down; at most ten.
pub open spec fn candidates_for(
    name: Seq<char>,
    exact_items: Seq<ItemRow>,
    exact_pages: Seq<WikiPageRow>,
    items: Seq<ItemRow>,
    pages: Seq<WikiPageRow>,
) -> Seq<MatchView> {
    let n = lowercase(name);
    let all = add_close_pages(
        add_close_items(exact_item_matches(exact_items) + exact_page_matches(exact_pages), items, n),
        pages,
        n,
    );
    let s = sort_by_similarity(all);
    if s.len() > 10 {
        s.take(10)
    } else {
        s
    }
}

/// Whether some candidate is for `id`.
pub open spec fn lists_item(ms: Seq<MatchView>, id: Seq<char>) -> bool {
    exists|k: int| 0 <= k < ms.len() && (#[trigger] ms[k]).0 == id
}

proof fn lemma_has_item(ms: Seq<MatchView>, id: Seq<char>)
    ensures
        has_item(ms, id) <==> lists_item(ms, id),
    decreases ms.len(),
{
    if ms.len() > 0 {
        let d = ms.drop_last();
        lemma_has_item(d, id);
        if lists_item(d, id) {
            let k = choose|k: int| 0 <= k < d.len() && (#[trigger] d[k]).0 == id;
            assert(ms[k] == d[k]);
        }
        if lists_item(ms, id) {
            let k = choose|k: int| 0 <= k < ms.len() && (#[trigger] ms[k]).0 == id;
            if k < d.len() {
                assert(d[k] == ms[k]);
            } else {
                assert(ms.last() == ms[k]);
            }
        }
        if ms.last().0 == id {
            assert(ms[ms.len() - 1] == ms.last());
        }
    }
}

proof fn lemma_push_keeps(ms: Seq<MatchView>, x: MatchView, id: Seq<char>)
    requires
        lists_item(ms, id),
    ensures
        lists_item(ms.push(x), id),
{
    let k = choose|k: int| 0 <= k < ms.len() && (#[trigger] ms[k]).0 == id;
    assert(ms.push(x)[k] == ms[k]);
}

proof fn lemma_add_close_page(acc: Seq<MatchView>, r: WikiPageRow, name: Seq<char>)
    ensures
        forall|id: Seq<char>| lists_item(acc, id) ==> #[trigger] lists_item(add_close_page(acc, r, name), id),
        closeness(name, r.canonical_name@) is Some ==> lists_item(add_close_page(acc, r, name), r.id@),
        closeness(name, r.title@) is Some ==> lists_item(add_close_page(acc, r, name), r.id@),
{
    let a = match closeness(name, r.title@) {
        Some((d, m)) => if has_item(acc, r.id@) {
            acc
        } else {
            acc.push((r.id@, r.canonical_name@, r.page_type@, r.path@, d, m, "fuzzy_wp_title"@))
        },
        None => acc,
    };
    assert forall|id: Seq<char>| lists_item(acc, id) implies #[trigger] lists_item(add_close_page(acc, r, name), id) by {
        if a != acc {
            lemma_push_keeps(acc, a.last(), id);
            assert(a == acc.push(a.last()));
        }
        let b = add_close_page(acc, r, name);
        if b != a {
            lemma_push_keeps(a, b.last(), id);
            assert(b == a.push(b.last()));
        }
    }
    if closeness(name, r.title@) is Some {
        lemma_has_item(acc, r.id@);
        if !has_item(acc, r.id@) {
            assert(a[acc.len() as int].0 == r.id@);
        }
        assert(lists_item(a, r.id@));
        let b = add_close_page(acc, r, name);
        if b != a {
            lemma_push_keeps(a, b.last(), r.id@);
            assert(b == a.push(b.last()));
        }
    }
    if closeness(name, r.canonical_name@) is Some {
        lemma_has_item(a, r.id@);
        let b = add_close_page(acc, r, name);
        if !has_item(a, r.id@) {
            assert(b[a.len() as int].0 == r.id@);
        }
    }
}

proof fn lemma_add_close_pages(acc: Seq<MatchView>, rows: Seq<WikiPageRow>, name: Seq<char>)
    ensures
        forall|id: Seq<char>| lists_item(acc, id) ==> #[trigger] lists_item(add_close_pages(acc, rows, name), id),
        forall|k: int|
            0 <= k < rows.len() && closeness(name, (#[trigger] rows[k]).canonical_name@) is Some ==> lists_item(
                add_close_pages(acc, rows, name),
                rows[k].id@,
            ),
        forall|k: int|
            0 <= k < rows.len() && closeness(name, (#[trigger] rows[k]).title@) is Some ==> lists_item(
                add_close_pages(acc, rows, name),
                rows[k].id@,
            ),
    decreases rows.len(),
{
    if rows.len() > 0 {
        let d = rows.drop_last();
        lemma_add_close_pages(acc, d, name);
        let a = add_close_pages(acc, d, name);
        lemma_add_close_page(a, rows.last(), name);
        assert forall|k: int|
            0 <= k < rows.len() && closeness(name, (#[trigger] rows[k]).canonical_name@) is Some implies lists_item(
            add_close_pages(acc, rows, name),
            rows[k].id@,
        ) by {
            if k < d.len() {
                assert(d[k] == rows[k]);
            } else {
                assert(rows.last() == rows[k]);
            }
        }
        assert forall|k: int|
            0 <= k < rows.len() && closeness(name, (#[trigger] rows[k]).title@) is Some implies lists_item(
            add_close_pages(acc, rows, name),
            rows[k].id@,
        ) by {
            if k < d.len() {
                assert(d[k] == rows[k]);
            } else {
                assert(rows.last() == rows[k]);
            }
        }
    }
}

proof fn lemma_add_close_items(acc: Seq<MatchView>, rows: Seq<ItemRow>, name: Seq<char>)
    ensures
        forall|id: Seq<char>| lists_item(acc, id) ==> #[trigger] lists_item(add_close_items(acc, rows, name), id),
        forall|k: int|
            0 <= k < rows.len() && closeness(name, (#[trigger] rows[k]).canonical_name@) is Some ==> lists_item(
                add_close_items(acc, rows, name),
                rows[k].id@,
            ),
    decreases rows.len(),
{
    if rows.len() > 0 {
        let d = rows.drop_last();
        lemma_add_close_items(acc, d, name);
        let a = add_close_items(acc, d, name);
        let r = rows.last();
        let b = add_close_items(acc, rows, name);
        if b != a {
            assert(b == a.push(b.last()));
        }
        assert forall|id: Seq<char>| lists_item(acc, id) implies #[trigger] lists_item(b, id) by {
            assert(lists_item(a, id));
            if b != a {
                lemma_push_keeps(a, b.last(), id);
            }
        }
        assert forall|k: int|
            0 <= k < rows.len() && closeness(name, (#[trigger] rows[k]).canonical_name@) is Some implies lists_item(
            b,
            rows[k].id@,
        ) by {
            if k < d.len() {
                assert(d[k] == rows[k]);
                assert(lists_item(a, rows[k].id@));
                if b != a {
                    lemma_push_keeps(a, b.last(), rows[k].id@);
                }
            } else {
                assert(rows.last() == rows[k]);
                lemma_has_item(a, r.id@);
                if !has_item(a, r.id@) {
                    assert(b[a.len() as int].0 == r.id@);
                }
            }
        }
    }
}

proof fn lemma_insert_similarity_lists(s: Seq<MatchView>, x: MatchView)
    ensures
        insert_by_similarity(s, x).len() == s.len() + 1,
        forall|id: Seq<char>|
            #[trigger] lists_item(insert_by_similarity(s, x), id) <==> (lists_item(s, id) || x.0 == id),
    decreases s.len(),
{
    if s.len() > 0 && more_similar(x, s.last()) {
        let d = s.drop_last();
        lemma_insert_similarity_lists(d, x);
        let r = insert_by_similarity(d, x);
        assert forall|id: Seq<char>|
            #[trigger] lists_item(insert_by_similarity(s, x), id) <==> (lists_item(s, id) || x.0 == id) by {
            let full = r.push(s.last());
            assert(insert_by_similarity(s, x) == full);
            if lists_item(full, id) {
                let k = choose|k: int| 0 <= k < full.len() && (#[trigger] full[k]).0 == id;
                if k < r.len() {
                    assert(full[k] == r[k]);
                    assert(lists_item(r, id));
                    if lists_item(d, id) {
                        let m = choose|m: int| 0 <= m < d.len() && (#[trigger] d[m]).0 == id;
                        assert(s[m] == d[m]);
                    }
                } else {
                    assert(s[s.len() - 1] == s.last());
                }
            }
            if lists_item(s, id) {
                let k = choose|k: int| 0 <= k < s.len() && (#[trigger] s[k]).0 == id;
                if k < d.len() {
                    assert(d[k] == s[k]);
                    assert(lists_item(d, id));
                    assert(lists_item(insert_by_similarity(d, x), id));
                    let m = choose|m: int| 0 <= m < r.len() && (#[trigger] r[m]).0 == id;
                    assert(full[m] == r[m]);
                } else {
                    assert(full[r.len() as int] == s.last());
                }
            }
            if x.0 == id {
                assert(lists_item(insert_by_similarity(d, x), id));
                let m = choose|m: int| 0 <= m < r.len() && (#[trigger] r[m]).0 == id;
                assert(full[m] == r[m]);
            }
        }
    } else {
        assert forall|id: Seq<char>|
            #[trigger] lists_item(insert_by_similarity(s, x), id) <==> (lists_item(s, id) || x.0 == id) by {
            let full = insert_by_similarity(s, x);
            if s.len() == 0 {
                assert(full == seq![x]);
                if lists_item(full, id) {
                    let k = choose|k: int| 0 <= k < full.len() && (#[trigger] full[k]).0 == id;
                }
                if x.0 == id {
                    assert(full[0] == x);
                }
            } else {
                assert(full == s.push(x));
                if lists_item(full, id) {
                    let k = choose|k: int| 0 <= k < full.len() && (#[trigger] full[k]).0 == id;
                    if k < s.len() {
                        assert(full[k] == s[k]);
                    }
                }
                if lists_item(s, id) {
                    lemma_push_keeps(s, x, id);
                }
                if x.0 == id {
                    assert(full[s.len() as int] == x);
                }
            }
        }
    }
}

proof fn lemma_sort_similarity_lists(s: Seq<MatchView>)
    ensures
        sort_by_similarity(s).len() == s.len(),
        forall|id: Seq<char>| #[trigger] lists_item(sort_by_similarity(s), id) <==> lists_item(s, id),
    decreases s.len(),
{
    if s.len() > 0 {
        let d = s.drop_last();
        lemma_sort_similarity_lists(d);
        lemma_insert_similarity_lists(sort_by_similarity(d), s.last());
        assert forall|id: Seq<char>| #[trigger] lists_item(sort_by_similarity(s), id) <==> lists_item(s, id) by {
            if lists_item(s, id) {
                let k = choose|k: int| 0 <= k < s.len() && (#[trigger] s[k]).0 == id;
                if k < d.len() {
                    assert(d[k] == s[k]);
                    assert(lists_item(d, id));
                } else {
                    assert(s.last() == s[k]);
                }
            }
            if lists_item(d, id) {
                let k = choose|k: int| 0 <= k < d.len() && (#[trigger] d[k]).0 == id;
                assert(s[k] == d[k]);
            }
            if s.last().0 == id {
                assert(s[s.len() - 1] == s.last());
            }
        }
    }
}

/// Whether no candidate is more similar than the one before it.
pub open spec fn similarity_descends(s: Seq<MatchView>) -> bool {
    forall|i: int| 0 <= i < s.len() - 1 ==> !more_similar(#[trigger] s[i + 1], s[i])
}

proof fn lemma_insert_descends(s: Seq<MatchView>, x: MatchView)
    requires
        similarity_descends(s),
    ensures
        similarity_descends(insert_by_similarity(s, x)),
        insert_by_similarity(s, x).len() > 0,
        s.len() > 0 ==> insert_by_similarity(s, x).last() == s.last() || insert_by_similarity(s, x).last() == x,
        s.len() == 0 ==> insert_by_similarity(s, x).last() == x,
    decreases s.len(),
{
    if s.len() > 0 {
        let d = s.drop_last();
        assert forall|i: int| 0 <= i < d.len() - 1 implies !more_similar(#[trigger] d[i + 1], d[i]) by {
            assert(d[i + 1] == s[i + 1] && d[i] == s[i]);
        }
        if more_similar(x, s.last()) {
            lemma_insert_descends(d, x);
            let r = insert_by_similarity(d, x);
            let full = r.push(s.last());
            assert(insert_by_similarity(s, x) == full);
            if d.len() > 0 && r.last() == d.last() {
                assert(s[s.len() - 2] == d.last());
                assert(s[s.len() - 1] == s.last());
            }
            assert forall|i: int| 0 <= i < full.len() - 1 implies !more_similar(#[trigger] full[i + 1], full[i]) by {
                if i + 1 < r.len() {
                    assert(full[i + 1] == r[i + 1] && full[i] == r[i]);
                } else {
                    assert(full[i + 1] == s.last());
                    assert(full[i] == r.last());
                    if r.last() == x {
                        assert(more_similar(x, s.last()));
                    } else {
                        assert(d.len() > 0);
                        assert(r.last() == d.last());
                        assert(d.last() == s[s.len() - 2]);
                        assert(s.last() == s[s.len() - 1]);
                        assert(!more_similar(s[(s.len() - 2) + 1], s[s.len() - 2]));
                    }
                }
            }
        } else {
            let full = s.push(x);
            assert forall|i: int| 0 <= i < full.len() - 1 implies !more_similar(#[trigger] full[i + 1], full[i]) by {
                if i + 1 < s.len() {
                    assert(full[i + 1] == s[i + 1] && full[i] == s[i]);
                } else {
                    assert(full[i] == s[s.len() - 1]);
                }
            }
        }
    }
}

proof fn lemma_sort_descends(s: Seq<MatchView>)
    ensures
        similarity_descends(sort_by_similarity(s)),
    decreases s.len(),
{
    if s.len() > 0 {
        lemma_sort_descends(s.drop_last());
        lemma_insert_descends(sort_by_similarity(s.drop_last()), s.last());
    }
}

/// Law: the candidates are listed from the most similar down: no candidate
/// is more similar (smaller `distance / max_len`) than the one before it;
/// and there are at most ten.
pub proof fn candidates_descend_in_similarity(
    name: Seq<char>,
    exact_items: Seq<ItemRow>,
    exact_pages: Seq<WikiPageRow>,
    items: Seq<ItemRow>,
    pages: Seq<WikiPageRow>,
)
    ensures
        ({
            let r = candidates_for(name, exact_items, exact_pages, items, pages);
            &&& r.len() <= 10
            &&& forall|i: int| 0 <= i < r.len() - 1 ==> (#[trigger] r[i + 1]).4 * r[i].5 >= r[i].4 * r[i + 1].5
        }),
{
    let n = lowercase(name);
    let all = add_close_pages(
        add_close_items(exact_item_matches(exact_items) + exact_page_matches(exact_pages), items, n),
        pages,
        n,
    );
    lemma_sort_descends(all);
    let s = sort_by_similarity(all);
    let r = candidates_for(name, exact_items, exact_pages, items, pages);
    assert forall|i: int| 0 <= i < r.len() - 1 implies (#[trigger] r[i + 1]).4 * r[i].5 >= r[i].4 * r[i + 1].5 by {
        assert(r[i] == s[i] && r[i + 1] == s[i + 1]);
        assert(!more_similar(s[i + 1], s[i]));
    }
}

/// Whether `other`, lower-cased, is close to the lower-cased name `n`: its
/// similarity `1 - d / max_len` under the Damerau-Levenshtein distance `d`
/// is strictly between 0.6 and 1.
pub open spec fn near(n: Seq<char>, other: Seq<char>) -> bool {
    let c = lowercase(other);
    let m = if n.len() >= c.len() { n.len() as int } else { c.len() as int };
    let d = dl_distance(n, c) as int;
    m > 0 && d > 0 && 5 * d < 2 * m
}

/// Law: unless the ten-candidate limit is reached, the candidates include
/// every knowledge item and wiki page found exactly, every knowledge item
/// whose canonical name is near the name, and every wiki page whose title
/// or whose canonical name is near it (each whatever its other name).
pub proof fn candidates_are_complete(
    name: Seq<char>,
    exact_items: Seq<ItemRow>,
    exact_pages: Seq<WikiPageRow>,
    items: Seq<ItemRow>,
    pages: Seq<WikiPageRow>,
)
    ensures
        ({
            let r = candidates_for(name, exact_items, exact_pages, items, pages);
            let n = lowercase(name);
            &&& forall|k: int| 0 <= k < exact_items.len() ==> r.len() == 10 || lists_item(r, (#[trigger] exact_items[k]).id@)
            &&& forall|k: int| 0 <= k < exact_pages.len() ==> r.len() == 10 || lists_item(r, (#[trigger] exact_pages[k]).id@)
            &&& forall|k: int|
                0 <= k < items.len() && near(n, (#[trigger] items[k]).canonical_name@) ==> r.len() == 10
                    || lists_item(r, items[k].id@)
            &&& forall|k: int|
                0 <= k < pages.len() && near(n, (#[trigger] pages[k]).canonical_name@) ==> r.len() == 10
                    || lists_item(r, pages[k].id@)
            &&& forall|k: int|
                0 <= k < pages.len() && near(n, (#[trigger] pages[k]).title@) ==> r.len() == 10 || lists_item(
                    r,
                    pages[k].id@,
                )
        }),
{
    let n = lowercase(name);
    let ex = exact_item_matches(exact_items) + exact_page_matches(exact_pages);
    let base = add_close_items(ex, items, n);
    let all = add_close_pages(base, pages, n);
    lemma_add_close_items(ex, items, n);
    lemma_add_close_pages(base, pages, n);
    lemma_sort_similarity_lists(all);
    let s = sort_by_similarity(all);
    let r = candidates_for(name, exact_items, exact_pages, items, pages);
    assert(s.len() <= 10 ==> r == s);
    assert(s.len() > 10 ==> r.len() == 10);
    assert forall|k: int| 0 <= k < exact_items.len() implies r.len() == 10 || lists_item(r, (#[trigger] exact_items[k]).id@) by {
        assert(ex[k].0 == exact_items[k].id@);
        assert(lists_item(ex, exact_items[k].id@));
        assert(lists_item(all, exact_items[k].id@));
        assert(lists_item(s, exact_items[k].id@));
    }
    assert forall|k: int| 0 <= k < exact_pages.len() implies r.len() == 10 || lists_item(r, (#[trigger] exact_pages[k]).id@) by {
        let j = exact_items.len() + k;
        assert(ex[j].0 == exact_pages[k].id@);
        assert(lists_item(ex, exact_pages[k].id@));
        assert(lists_item(all, exact_pages[k].id@));
        assert(lists_item(s, exact_pages[k].id@));
    }
    assert forall|k: int|
        0 <= k < items.len() && near(n, (#[trigger] items[k]).canonical_name@) implies r.len() == 10 || lists_item(
        r,
        items[k].id@,
    ) by {
        assert(closeness(n, items[k].canonical_name@) is Some);
        assert(lists_item(base, items[k].id@));
        assert(lists_item(all, items[k].id@));
        assert(lists_item(s, items[k].id@));
    }
    assert forall|k: int|
        0 <= k < pages.len() && near(n, (#[trigger] pages[k]).canonical_name@) implies r.len() == 10 || lists_item(
        r,
        pages[k].id@,
    ) by {
        assert(closeness(n, pages[k].canonical_name@) is Some);
        assert(lists_item(all, pages[k].id@));
        assert(lists_item(s, pages[k].id@));
    }
    assert forall|k: int|
        0 <= k < pages.len() && near(n, (#[trigger] pages[k]).title@) implies r.len() == 10 || lists_item(
        r,
        pages[k].id@,
    ) by {
        assert(closeness(n, pages[k].title@) is Some);
        assert(lists_item(all, pages[k].id@));
        assert(lists_item(s, pages[k].id@));
    }
}

proof fn lemma_insert_sim_at(s: Seq<MatchView>, x: MatchView, p: int)
    requires
        0 <= p <= s.len(),
        forall|q: int| p <= q < s.len() ==> more_similar(x, #[trigger] s[q]),
        p > 0 ==> !more_similar(x, s[p - 1]),
    ensures
        insert_by_similarity(s, x) == s.insert(p, x),
    decreases s.len(),
{
    if s.len() == 0 {
        assert(s.insert(p, x) =~= seq![x]);
    } else if p == s.len() {
        assert(s.last() == s[p - 1]);
        assert(s.insert(p, x) =~= s.push(x));
    } else {
        let d = s.drop_last();
        assert(more_similar(x, s[s.len() - 1]));
        assert forall|q: int| p <= q < d.len() implies more_similar(x, #[trigger] d[q]) by {
            assert(d[q] == s[q]);
        }
        if p > 0 {
            assert(d[p - 1] == s[p - 1]);
        }
        lemma_insert_sim_at(d, x, p);
        assert(d.insert(p, x).push(s.last()) =~= s.insert(p, x));
    }
}

/// Whether names of lengths `len_a` and `len_b` at `distance` are close
/// (see `is_close`), and if so the (distance, greatest length) that stands
/// for their similarity.
pub fn close_similarity(distance: usize, len_a: usize, len_b: usize) -> (r: Option<(usize, usize)>)
    ensures
        match r {
            Some((d, m)) => is_close(distance as int, len_a as int, len_b as int) && d == distance && m == (if len_a
                >= len_b {
                len_a
            } else {
                len_b
            }),
            None => !is_close(distance as int, len_a as int, len_b as int),
        },
{
    let m = if len_a >= len_b {
        len_a
    } else {
        len_b
    };
    if m > 0 && distance > 0 && 5 * (distance as u128) < 2 * (m as u128) {
        Some((distance, m))
    } else {
        None
    }
}

/// The close similarity of the lower-cased `name` to `other` (see
/// `closeness`).
fn closeness_of(name: &str, other: &str) -> (r: Option<(usize, usize)>)
    ensures
        match (r, closeness(name@, other@)) {
            (Some((d, m)), Some((e, n))) => d == e && m == n,
            (None, None) => true,
            _ => false,
        },
{
    let b = to_lowercase(other);
    let d = damerau_levenshtein(name, b.as_str());
    let la = chars_of(name).len();
    let lb = chars_of(b.as_str()).len();
    close_similarity(d, la, lb)
}

/// Whether a candidate for item `id` is among `ms` (see `has_item`).
fn has_item_exec(ms: &Vec<CandidateMatch>, id: &String) -> (r: bool)
    ensures
        r == has_item(match_views(ms@), id@),
{
    let ghost v = match_views(ms@);
    let idc = chars_of(id.as_str());
    let mut found = false;
    let mut k: usize = 0;
    while k < ms.len()
        invariant
            k <= ms@.len(),
            v == match_views(ms@),
            idc@ == id@,
            found == has_item(v.take(k as int), id@),
        decreases ms.len() - k,
    {
        assert(v.take(k + 1).drop_last() =~= v.take(k as int));
        assert(v.take(k + 1).last() == match_view(ms@[k as int]));
        let c = chars_of(ms[k].item_id.as_str());
        if seq_eq(&c, &idc) {
            found = true;
        }
        k = k + 1;
    }
    assert(v.take(ms@.len() as int) =~= v);
    found
}

fn new_match(id: &String, canonical: &String, kind: &String, path: &String, d: usize, m: usize, t: &str) -> (r:
    CandidateMatch)
    ensures
        match_view(r) == (id@, canonical@, kind@, path@, d as int, m as int, t@),
{
    CandidateMatch {
        item_id: id.clone(),
        canonical_name: canonical.clone(),
        item_type: kind.clone(),
        page_path: path.clone(),
        distance: d,
        max_len: m,
        match_type: String::from_str(t),
    }
}

/// Whether candidate `a` is more similar than `b` (see `more_similar`).
fn more_similar_exec(a: &CandidateMatch, b: &CandidateMatch) -> (r: bool)
    ensures
        r == more_similar(match_view(*a), match_view(*b)),
{
    let x = a.distance as u128;
    let y = b.max_len as u128;
    let z = b.distance as u128;
    let w = a.max_len as u128;
    assert(x * y <= 0xffff_ffff_ffff_ffffu128 * 0xffff_ffff_ffff_ffffu128) by (nonlinear_arith)
        requires
            x <= 0xffff_ffff_ffff_ffffu128,
            y <= 0xffff_ffff_ffff_ffffu128,
    ;
    assert(z * w <= 0xffff_ffff_ffff_ffffu128 * 0xffff_ffff_ffff_ffffu128) by (nonlinear_arith)
        requires
            z <= 0xffff_ffff_ffff_ffffu128,
            w <= 0xffff_ffff_ffff_ffffu128,
    ;
    x * y < z * w
}

/// A copy of a candidate.
fn copy_match(m: &CandidateMatch) -> (r: CandidateMatch)
    ensures
        match_view(r) == match_view(*m),
{
    CandidateMatch {
        item_id: m.item_id.clone(),
        canonical_name: m.canonical_name.clone(),
        item_type: m.item_type.clone(),
        page_path: m.page_path.clone(),
        distance: m.distance,
        max_len: m.max_len,
        match_type: m.match_type.clone(),
    }
}

/// `m` with candidate `x` added when `x` is close and its item is not yet
/// among them.
fn push_close(ms: &mut Vec<CandidateMatch>, c: Option<(usize, usize)>, id: &String, canonical: &String, kind: &String, path: &String, t: &str)
    ensures
        match_views(final(ms)@) == match c {
            Some((d, m)) => if has_item(match_views(old(ms)@), id@) {
                match_views(old(ms)@)
            } else {
                match_views(old(ms)@).push((id@, canonical@, kind@, path@, d as int, m as int, t@))
            },
            None => match_views(old(ms)@),
        },
{
    match c {
        Some((d, m)) => {
            if !has_item_exec(ms, id) {
                let x = new_match(id, canonical, kind, path, d, m, t);
                ms.push(x);
                assert(match_views(ms@) =~= match_views(old(ms)@).push(
                    (id@, canonical@, kind@, path@, d as int, m as int, t@),
                ));
            }
        },
        None => {},
    }
}

impl CandidateSearchEngine {
    /// The candidates for a name among the knowledge items and wiki pages
    /// of a knowledge base (see `candidates_for`), given the items whose
    /// canonical name is the name, the pages whose title or canonical name
    /// is the name, and all items and pages.
    pub fn search_name(
        name: &str,
        exact_items: &Vec<ItemRow>,
        exact_pages: &Vec<WikiPageRow>,
        items: &Vec<ItemRow>,
        pages: &Vec<WikiPageRow>,
    ) -> (r: Vec<CandidateMatch>)
        ensures
            match_views(r@) == candidates_for(name@, exact_items@, exact_pages@, items@, pages@),
    {
        let mut ms: Vec<CandidateMatch> = Vec::new();
        let mut i: usize = 0;
        while i < exact_items.len()
            invariant
                i <= exact_items@.len(),
                match_views(ms@) == exact_item_matches(exact_items@.take(i as int)),
            decreases exact_items.len() - i,
        {
            let r = &exact_items[i];
            proof {
                reveal_strlit("exact_ki");
            }
            let x = new_match(&r.id, &r.canonical_name, &r.item_type, &r.page_path, 0, 1, "exact_ki");
            let ghost before = match_views(ms@);
            ms.push(x);
            assert(match_views(ms@) =~= before.push(match_view(x)));
            assert(exact_item_matches(exact_items@.take(i + 1)) =~= exact_item_matches(exact_items@.take(i as int)).push(
                match_view(x),
            ));
            i = i + 1;
        }
        assert(exact_items@.take(exact_items@.len() as int) =~= exact_items@);
        let ghost base = match_views(ms@);
        let mut i: usize = 0;
        while i < exact_pages.len()
            invariant
                i <= exact_pages@.len(),
                base == exact_item_matches(exact_items@),
                match_views(ms@) == base + exact_page_matches(exact_pages@.take(i as int)),
            decreases exact_pages.len() - i,
        {
            let r = &exact_pages[i];
            let x = new_match(&r.id, &r.canonical_name, &r.page_type, &r.path, 0, 1, "exact_wp");
            let ghost before = match_views(ms@);
            ms.push(x);
            assert(match_views(ms@) =~= before.push(match_view(x)));
            assert(exact_page_matches(exact_pages@.take(i + 1)) =~= exact_page_matches(exact_pages@.take(i as int)).push(
                match_view(x),
            ));
            assert(match_views(ms@) =~= base + exact_page_matches(exact_pages@.take(i + 1)));
            i = i + 1;
        }
        assert(exact_pages@.take(exact_pages@.len() as int) =~= exact_pages@);
        let lowered = to_lowercase(name);
        let n = lowered.as_str();
        let ghost start = match_views(ms@);
        let mut i: usize = 0;
        while i < items.len()
            invariant
                i <= items@.len(),
                n@ == lowercase(name@),
                match_views(ms@) == add_close_items(start, items@.take(i as int), n@),
            decreases items.len() - i,
        {
            let r = &items[i];
            assert(items@.take(i + 1).drop_last() =~= items@.take(i as int));
            assert(items@.take(i + 1).last() == items@[i as int]);
            let c = closeness_of(n, r.canonical_name.as_str());
            push_close(&mut ms, c, &r.id, &r.canonical_name, &r.item_type, &r.page_path, "fuzzy_ki");
            i = i + 1;
        }
        assert(items@.take(items@.len() as int) =~= items@);
        let ghost mid = match_views(ms@);
        let mut i: usize = 0;
        while i < pages.len()
            invariant
                i <= pages@.len(),
                n@ == lowercase(name@),
                match_views(ms@) == add_close_pages(mid, pages@.take(i as int), n@),
            decreases pages.len() - i,
        {
            let r = &pages[i];
            assert(pages@.take(i + 1).drop_last() =~= pages@.take(i as int));
            assert(pages@.take(i + 1).last() == pages@[i as int]);
            let c1 = closeness_of(n, r.title.as_str());
            push_close(&mut ms, c1, &r.id, &r.canonical_name, &r.page_type, &r.path, "fuzzy_wp_title");
            let c2 = closeness_of(n, r.canonical_name.as_str());
            push_close(&mut ms, c2, &r.id, &r.canonical_name, &r.page_type, &r.path, "fuzzy_wp_canon");
            i = i + 1;
        }
        assert(pages@.take(pages@.len() as int) =~= pages@);
        // Stable sort, most similar first.
        let ghost all = match_views(ms@);
        let mut order: Vec<usize> = Vec::new();
        let mut k: usize = 0;
        while k < ms.len()
            invariant
                k <= ms@.len(),
                all == match_views(ms@),
                order@.len() == k,
                forall|i: int| 0 <= i < order@.len() ==> #[trigger] order@[i] < k,
                order@.map_values(|i: usize| all[i as int]) == sort_by_similarity(all.take(k as int)),
            decreases ms.len() - k,
        {
            let ghost s = order@.map_values(|i: usize| all[i as int]);
            let mut p = order.len();
            while p > 0 && more_similar_exec(&ms[k], &ms[order[p - 1]])
                invariant
                    p <= order@.len() == k < ms@.len(),
                    forall|i: int| 0 <= i < order@.len() ==> #[trigger] order@[i] < k,
                    all == match_views(ms@),
                    s == order@.map_values(|i: usize| all[i as int]),
                    forall|q: int| p <= q < s.len() ==> more_similar(all[k as int], #[trigger] s[q]),
                decreases p,
            {
                assert(s[p - 1] == all[order@[p - 1] as int]);
                p = p - 1;
            }
            proof {
                if p > 0 {
                    assert(s[p - 1] == all[order@[p - 1] as int]);
                }
                lemma_insert_sim_at(s, all[k as int], p as int);
                assert(all.take(k + 1).drop_last() =~= all.take(k as int));
                assert(all.take(k + 1).last() == all[k as int]);
            }
            order.insert(p, k);
            assert(order@.map_values(|i: usize| all[i as int]) =~= s.insert(p as int, all[k as int]));
            k = k + 1;
        }
        assert(all.take(all.len() as int) =~= all);
        let ghost sorted = sort_by_similarity(all);
        let mut out: Vec<CandidateMatch> = Vec::new();
        let mut j: usize = 0;
        while j < order.len() && j < 10
            invariant
                j <= order@.len() == ms@.len() == all.len(),
                j <= 10,
                all == match_views(ms@),
                forall|i: int| 0 <= i < order@.len() ==> #[trigger] order@[i] < ms@.len(),
                sorted == order@.map_values(|i: usize| all[i as int]),
                match_views(out@) == sorted.take(j as int),
            decreases order.len() - j,
        {
            let x = copy_match(&ms[order[j]]);
            let ghost before = match_views(out@);
            out.push(x);
            assert(sorted[j as int] == all[order@[j as int] as int]);
            assert(match_views(out@) =~= before.push(match_view(x)));
            assert(match_views(out@) =~= sorted.take(j + 1));
            j = j + 1;
        }
        proof {
            if sorted.len() <= 10 {
                assert(sorted.take(sorted.len() as int) =~= sorted);
            }
        }
        out
    }
}

} // verus!
