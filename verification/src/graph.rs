//! The knowledge graph: its node and edge records, and the `[[wikilink]]`
//! references between Markdown pages from which the page topology is drawn.
use vstd::prelude::*;
use crate::text::{chars_of, string_of_range, occurs_at};
use crate::gateway::seq_eq;

verus! {

/// A node of the knowledge graph (one knowledge item).
#[derive(Debug, Clone)]
pub struct GraphNode {
    pub id: String,
    pub node_type: String,
    pub label: String,
    pub path: String,
    pub aliases: Vec<String>,
    pub tags: Vec<String>,
    pub summary: String,
    pub source_count: i32,
    pub in_degree: i32,
    pub out_degree: i32,
    pub status: String,
    pub created_at: String,
}

/// A directed edge of the knowledge graph (one relationship).
#[derive(Debug, Clone)]
pub struct GraphEdge {
    pub id: String,
    pub source: String,
    pub target: String,
    pub edge_type: String,
    pub relation: String,
    pub confidence: String,
    pub evidence_source_id: String,
    pub evidence_location: String,
    pub citation_status: String,
    pub created_by_task: String,
}

/// Reads and maintains the knowledge graph of a knowledge base.
pub struct GraphService;

/// An edge of the page topology: page `source` links to page `target`.
#[derive(Debug, Clone)]
pub struct LayoutEdge {
    pub source: String,
    pub target: String,
    pub label: String,
}

/// Lays out the `[[wikilink]]` graph of a directory of Markdown pages.
pub struct TopologyEngine;

/// Whether `c` may stand inside the brackets of a wikilink.
pub open spec fn link_char(c: char) -> bool {
    c != ']' && c != '\n'
}

/// The number of characters from index `i` on that may stand inside a
/// wikilink.
pub open spec fn link_run(s: Seq<char>, i: int) -> nat
    decreases s.len() - i,
{
    if 0 <= i < s.len() && link_char(s[i]) {
        1 + link_run(s, i + 1)
    } else {
        0
    }
}

/// Whether a wikilink starts at `i`: `[[`, at least one character that is
/// neither `]` nor a line break, and `]]`.
pub open spec fn link_at(s: Seq<char>, i: int) -> bool {
    &&& occurs_at(s, seq!['[', '['], i)
    &&& link_run(s, i + 2) >= 1
    &&& occurs_at(s, seq![']', ']'], i + 2 + link_run(s, i + 2))
}

/// The targets of the wikilinks found by scanning `s` from index `p`,
/// leftmost first, each scan resuming after the previous link; this is what
/// the pattern `\[\[([^\]\n]+?)\]\]` captures.
pub open spec fn wikilinks_from(s: Seq<char>, p: int) -> Seq<Seq<char>>
    decreases s.len() - p,
{
    if p < 0 || p >= s.len() {
        seq![]
    } else if link_at(s, p) {
        let end = p + 2 + link_run(s, p + 2);
        proof {
            assert(end + 2 <= s.len());
        }
        seq![s.subrange(p + 2, end)] + wikilinks_from(s, end + 2)
    } else {
        wikilinks_from(s, p + 1)
    }
}

/// The targets of all wikilinks of `s`, in order.
pub open spec fn wikilinks(s: Seq<char>) -> Seq<Seq<char>> {
    wikilinks_from(s, 0)
}

proof fn lemma_link_run_bound(s: Seq<char>, i: int)
    requires
        0 <= i,
    ensures
        i + link_run(s, i) <= s.len() || link_run(s, i) == 0,
        forall|k: int| i <= k < i + link_run(s, i) ==> link_char(#[trigger] s[k]),
        i + link_run(s, i) < s.len() ==> !link_char(s[i + link_run(s, i)]),
    decreases s.len() - i,
{
    if 0 <= i < s.len() && link_char(s[i]) {
        lemma_link_run_bound(s, i + 1);
    }
}

/// The end of the run of link characters that starts at `i`.
fn link_run_end(cs: &Vec<char>, i: usize) -> (e: usize)
    requires
        i <= cs.len(),
    ensures
        e == i + link_run(cs@, i as int),
        e <= cs.len(),
{
    let mut e = i;
    while e < cs.len() && cs[e] != ']' && cs[e] != '\n'
        invariant
            i <= e <= cs.len(),
            link_run(cs@, i as int) == (e - i) + link_run(cs@, e as int),
        decreases cs.len() - e,
    {
        e = e + 1;
    }
    e
}

impl TopologyEngine {
    /// The targets of the `[[wikilink]]` references of a Markdown text, in
    /// the order in which they occur.
    pub fn extract_wikilinks(content: &str) -> (links: Vec<String>)
        ensures
            links@.len() == wikilinks(content@).len(),
            forall|i: int| 0 <= i < links@.len() ==> #[trigger] links@[i]@ == wikilinks(content@)[i],
    {
        let cs = chars_of(content);
        let ghost s = cs@;
        let mut links: Vec<String> = Vec::new();
        let mut p: usize = 0;
        while p < cs.len()
            invariant
                s == cs@,
                s == content@,
                p <= cs.len() + 2,
                links@.len() + wikilinks_from(s, p as int).len() == wikilinks(s).len(),
                forall|i: int|
                    0 <= i < links@.len() ==> #[trigger] links@[i]@ == wikilinks(s)[i],
                forall|i: int|
                    0 <= i < wikilinks_from(s, p as int).len() ==> wikilinks(s)[links@.len() + i]
                        == #[trigger] wikilinks_from(s, p as int)[i],
            decreases cs.len() + 2 - p,
        {
            let mut found = false;
            if p + 1 < cs.len() && cs[p] == '[' && cs[p + 1] == '[' {
                assert(occurs_at(s, seq!['[', '['], p as int)) by {
                    assert(s.subrange(p as int, p + 2) =~= seq!['[', '[']);
                }
                let e = link_run_end(&cs, p + 2);
                proof {
                    lemma_link_run_bound(s, p + 2);
                }
                if e > p + 2 && e < cs.len() && cs[e] == ']' && e + 1 < cs.len() && cs[e + 1] == ']' {
                    assert(occurs_at(s, seq![']', ']'], e as int)) by {
                        assert(s.subrange(e as int, e + 2) =~= seq![']', ']']);
                    }
                    assert(link_at(s, p as int));
                    let link = string_of_range(&cs, p + 2, e);
                    let ghost before = links@.len();
                    links.push(link);
                    assert(wikilinks_from(s, p as int) =~= seq![s.subrange(p + 2, e as int)]
                        + wikilinks_from(s, e + 2));
                    assert(links@[before as int]@ == wikilinks(s)[before as int]) by {
                        assert(wikilinks_from(s, p as int)[0] == s.subrange(p + 2, e as int));
                    }
                    assert forall|i: int|
                        0 <= i < wikilinks_from(s, e + 2).len() implies wikilinks(s)[links@.len()
                        + i] == #[trigger] wikilinks_from(s, e + 2)[i] by {
                        assert(wikilinks_from(s, p as int)[i + 1] == wikilinks_from(s, e + 2)[i]);
                    }
                    p = e + 2;
                    found = true;
                } else {
                    assert(!link_at(s, p as int)) by {
                        if link_at(s, p as int) {
                            assert(occurs_at(s, seq![']', ']'], e as int));
                            assert(s.subrange(e as int, e + 2) == seq![']', ']']);
                            assert(s.subrange(e as int, e + 2)[0] == s[e as int]);
                            assert(s.subrange(e as int, e + 2)[1] == s[e + 1]);
                        }
                    }
                }
            } else {
                assert(!link_at(s, p as int)) by {
                    if occurs_at(s, seq!['[', '['], p as int) {
                        assert(s.subrange(p as int, p + 2) == seq!['[', '[']);
                        assert(s.subrange(p as int, p + 2)[0] == s[p as int]);
                        assert(s.subrange(p as int, p + 2)[1] == s[p + 1]);
                    }
                }
            }
            if !found {
                assert(wikilinks_from(s, p as int) == wikilinks_from(s, p + 1));
                p = p + 1;
            }
        }
        assert(wikilinks_from(s, p as int).len() == 0);
        links
    }
}

proof fn lemma_link_run_over(s: Seq<char>, i: int, end: int)
    requires
        0 <= i <= end < s.len(),
        forall|k: int| i <= k < end ==> link_char(#[trigger] s[k]),
        !link_char(s[end]),
    ensures
        link_run(s, i) == end - i,
    decreases end - i,
{
    if i < end {
        lemma_link_run_over(s, i + 1, end);
    }
}

/// A link written as `[[x]]` is read back as `x`: for every non-empty
/// target `x` without `]` or a line break, the wikilinks of `[[x]]` are
/// exactly `[x]`.
pub proof fn wikilink_round_trip(x: Seq<char>)
    requires
        x.len() > 0,
        forall|i: int| 0 <= i < x.len() ==> link_char(#[trigger] x[i]),
    ensures
        wikilinks(seq!['[', '['] + x + seq![']', ']']) == seq![x],
{
    let s = seq!['[', '['] + x + seq![']', ']'];
    let end = (2 + x.len()) as int;
    assert forall|k: int| 2 <= k < end implies link_char(#[trigger] s[k]) by {
        assert(s[k] == x[k - 2]);
    }
    assert(s[end] == ']');
    lemma_link_run_over(s, 2, end);
    assert(s.subrange(0, 2) =~= seq!['[', '[']);
    assert(s.subrange(end, end + 2) =~= seq![']', ']']);
    assert(link_at(s, 0));
    assert(s.subrange(2, end) =~= x);
    assert(wikilinks_from(s, end + 2) == Seq::<Seq<char>>::empty());
    assert(wikilinks(s) =~= seq![x]);
}

/// Every wikilink target found from index `p` on is non-empty and holds
/// neither `]` nor a line break: a link never spans lines.
pub proof fn wikilinks_are_single_line(s: Seq<char>, p: int)
    requires
        0 <= p,
    ensures
        forall|i: int|
            0 <= i < wikilinks_from(s, p).len() ==> (#[trigger] wikilinks_from(s, p)[i]).len() > 0
                && forall|k: int|
                0 <= k < wikilinks_from(s, p)[i].len() ==> link_char(wikilinks_from(s, p)[i][k]),
    decreases s.len() - p,
{
    if p < s.len() {
        if link_at(s, p) {
            let end = p + 2 + link_run(s, p + 2);
            lemma_link_run_bound(s, p + 2);
            wikilinks_are_single_line(s, end + 2);
            let head = s.subrange(p + 2, end);
            assert forall|k: int| 0 <= k < head.len() implies link_char(head[k]) by {
                assert(head[k] == s[p + 2 + k]);
            }
            let rest = wikilinks_from(s, end + 2);
            assert(wikilinks_from(s, p) == seq![head] + rest);
            assert forall|i: int| 0 <= i < wikilinks_from(s, p).len() implies (
            #[trigger] wikilinks_from(s, p)[i]).len() > 0 && forall|k: int|
                0 <= k < wikilinks_from(s, p)[i].len() ==> link_char(wikilinks_from(s, p)[i][k]) by {
                if i > 0 {
                    assert(wikilinks_from(s, p)[i] == rest[i - 1]);
                }
            }
        } else {
            wikilinks_are_single_line(s, p + 1);
            assert(wikilinks_from(s, p) == wikilinks_from(s, p + 1));
        }
    }
}

// ---------------------------------------------------------------------------
// Graph data
// ---------------------------------------------------------------------------

/// A relationship as read for display: id, source, target, relation,
/// confidence, evidence source, evidence location and status.
#[derive(Debug, Clone)]
pub struct EdgeRow {
    pub id: String,
    pub source: String,
    pub target: String,
    pub relation: String,
    pub confidence: String,
    pub evidence_source_id: String,
    pub evidence_location: String,
    pub status: String,
}

/// Counts over the relationships shown: those of low confidence, those that
/// contradict, those pending review, and those that cite no evidence.
#[derive(Debug, Clone, Copy, PartialEq, Eq, Structural)]
pub struct EdgeCounts {
    pub low_confidence: i64,
    pub conflicts: i64,
    pub needs_review: i64,
    pub uncited: i64,
}

/// The node type shown for a wiki page of a given page type.
pub open spec fn page_node_type(page_type: Seq<char>) -> Seq<char> {
    if page_type == "entity"@ || page_type == "topic"@ || page_type == "question"@ || page_type == "source"@
        || page_type == "concept"@ {
        page_type
    } else {
        "wikipage"@
    }
}

/// The node type a wiki page gets when the graph is rebuilt.
pub open spec fn synced_node_type(page_type: Seq<char>) -> Seq<char> {
    if page_type == "entity"@ || page_type == "topic"@ || page_type == "question"@ || page_type == "source"@
        || page_type == "dataset"@ || page_type == "method"@ || page_type == "concept"@ {
        page_type
    } else {
        "wikipage"@
    }
}

/// The fields of an edge: id, source, target, type, relation, confidence,
/// evidence source and location, citation status, creating task.
pub type EdgeFields = (Seq<char>, Seq<char>, Seq<char>, Seq<char>, Seq<char>, Seq<char>, Seq<char>, Seq<char>, Seq<char>, Seq<char>);

/// The fields of an edge.
pub open spec fn edge_fields(e: GraphEdge) -> EdgeFields {
    (e.id@, e.source@, e.target@, e.edge_type@, e.relation@, e.confidence@, e.evidence_source_id@,
        e.evidence_location@, e.citation_status@, e.created_by_task@)
}

/// The edge shown for a relationship: typed by its relation, cited when it
/// names an evidence source, created by no task.
pub open spec fn edge_of_row(r: EdgeRow) -> EdgeFields {
    (r.id@, r.source@, r.target@, r.relation@, r.relation@, r.confidence@, r.evidence_source_id@,
        r.evidence_location@, if r.evidence_source_id@.len() == 0 { "uncited"@ } else { "cited"@ }, seq![])
}

/// The number of rows that satisfy `f`.
pub open spec fn count_rows(rows: Seq<EdgeRow>, f: spec_fn(EdgeRow) -> bool) -> int
    decreases rows.len(),
{
    if rows.len() == 0 {
        0
    } else {
        count_rows(rows.drop_last(), f) + if f(rows.last()) { 1int } else { 0int }
    }
}

/// The counts over relationships (see `EdgeCounts`).
pub open spec fn edge_counts(rows: Seq<EdgeRow>) -> (int, int, int, int) {
    (
        count_rows(rows, |r: EdgeRow| r.confidence@ == "low"@),
        count_rows(rows, |r: EdgeRow| r.relation@ == "contradicts"@),
        count_rows(rows, |r: EdgeRow| r.status@ == "pending_review"@),
        count_rows(rows, |r: EdgeRow| r.evidence_source_id@.len() == 0),
    )
}

/// The label and degree of the node with the greatest degree (in plus
/// out), the last one of several (what `max_by_key` picks); none for no
/// nodes.
pub open spec fn max_hub(nodes: Seq<GraphNode>) -> Option<(Seq<char>, int)>
    decreases nodes.len(),
{
    if nodes.len() == 0 {
        None
    } else {
        let n = nodes.last();
        let d = n.in_degree + n.out_degree;
        match max_hub(nodes.drop_last()) {
            Some((l, m)) => if m > d {
                Some((l, m))
            } else {
                Some((n.label@, d))
            },
            None => Some((n.label@, d)),
        }
    }
}

fn is_str(s: &str, lit: &str) -> (b: bool)
    ensures
        b == (s@ == lit@),
{
    let a = chars_of(s);
    let l = chars_of(lit);
    seq_eq(&a, &l)
}

impl GraphService {
    /// The node type shown for a wiki page (see `page_node_type`).
    pub fn page_node_type(page_type: &str) -> (t: String)
        ensures
            t@ == page_node_type(page_type@),
    {
        if is_str(page_type, "entity") || is_str(page_type, "topic") || is_str(page_type, "question") || is_str(
            page_type,
            "source",
        ) || is_str(page_type, "concept") {
            String::from_str(page_type)
        } else {
            String::from_str("wikipage")
        }
    }

    /// The node type a wiki page gets when the graph is rebuilt (see
    /// `synced_node_type`).
    pub fn synced_node_type(page_type: &str) -> (t: String)
        ensures
            t@ == synced_node_type(page_type@),
    {
        if is_str(page_type, "entity") || is_str(page_type, "topic") || is_str(page_type, "question") || is_str(
            page_type,
            "source",
        ) || is_str(page_type, "dataset") || is_str(page_type, "method") || is_str(page_type, "concept") {
            String::from_str(page_type)
        } else {
            String::from_str("wikipage")
        }
    }

    /// The edges shown for relationships (see `edge_of_row`) and the counts
    /// over them (see `edge_counts`).
    pub fn assemble_edges(rows: &Vec<EdgeRow>) -> (r: (Vec<GraphEdge>, EdgeCounts))
        requires
            rows@.len() <= i64::MAX,
        ensures
            r.0@.len() == rows@.len(),
            forall|i: int| 0 <= i < rows@.len() ==> edge_fields(#[trigger] r.0@[i]) == edge_of_row(rows@[i]),
            (r.1.low_confidence as int, r.1.conflicts as int, r.1.needs_review as int, r.1.uncited as int)
                == edge_counts(rows@),
    {
        let mut edges: Vec<GraphEdge> = Vec::new();
        let mut low: i64 = 0;
        let mut conflict: i64 = 0;
        let mut review: i64 = 0;
        let mut uncited: i64 = 0;
        let mut i: usize = 0;
        while i < rows.len()
            invariant
                i <= rows@.len() <= i64::MAX,
                edges@.len() == i,
                forall|j: int| 0 <= j < i ==> edge_fields(#[trigger] edges@[j]) == edge_of_row(rows@[j]),
                (low as int, conflict as int, review as int, uncited as int) == edge_counts(rows@.take(i as int)),
                0 <= low <= i && 0 <= conflict <= i && 0 <= review <= i && 0 <= uncited <= i,
            decreases rows.len() - i,
        {
            let r = &rows[i];
            let ghost t = rows@.take(i + 1);
            assert(t.drop_last() =~= rows@.take(i as int));
            assert(t.last() == rows@[i as int]);
            if is_str(r.confidence.as_str(), "low") {
                low = low + 1;
            }
            if is_str(r.relation.as_str(), "contradicts") {
                conflict = conflict + 1;
            }
            if is_str(r.status.as_str(), "pending_review") {
                review = review + 1;
            }
            let cited = !r.evidence_source_id.as_str().is_empty();
            if !cited {
                uncited = uncited + 1;
            }
            proof {
                reveal_strlit("uncited");
                reveal_strlit("cited");
            }
            edges.push(GraphEdge {
                id: r.id.clone(),
                source: r.source.clone(),
                target: r.target.clone(),
                edge_type: r.relation.clone(),
                relation: r.relation.clone(),
                confidence: r.confidence.clone(),
                evidence_source_id: r.evidence_source_id.clone(),
                evidence_location: r.evidence_location.clone(),
                citation_status: if cited {
                    String::from_str("cited")
                } else {
                    String::from_str("uncited")
                },
                created_by_task: String::new(),
            });
            i = i + 1;
        }
        assert(rows@.take(rows@.len() as int) =~= rows@);
        (edges, EdgeCounts { low_confidence: low, conflicts: conflict, needs_review: review, uncited })
    }

    /// The label and degree of the node with the greatest degree (see
    /// `max_hub`), or an empty label and 0.
    pub fn max_hub(nodes: &Vec<GraphNode>) -> (r: (String, i64))
        ensures
            match max_hub(nodes@) {
                Some((l, d)) => r.0@ == l && r.1 == d,
                None => r.0@.len() == 0 && r.1 == 0,
            },
    {
        let mut best: Option<(usize, i64)> = None;
        let mut i: usize = 0;
        while i < nodes.len()
            invariant
                i <= nodes@.len(),
                match (best, max_hub(nodes@.take(i as int))) {
                    (Some((k, d)), Some((l, m))) => k < i && nodes@[k as int].label@ == l && d == m,
                    (None, None) => true,
                    _ => false,
                },
            decreases nodes.len() - i,
        {
            let ghost t = nodes@.take(i + 1);
            assert(t.drop_last() =~= nodes@.take(i as int));
            assert(t.last() == nodes@[i as int]);
            let d = nodes[i].in_degree as i64 + nodes[i].out_degree as i64;
            best = match best {
                Some((k, m)) => if m > d {
                    Some((k, m))
                } else {
                    Some((i, d))
                },
                None => Some((i, d)),
            };
            i = i + 1;
        }
        assert(nodes@.take(nodes@.len() as int) =~= nodes@);
        match best {
            Some((k, d)) => (nodes[k].label.clone(), d),
            None => (String::new(), 0),
        }
    }
}

} // verus!
