//! Review of proposed wiki changes: the records of a review, the operation
//! each proposed change becomes (with its automatic downgrades and the
//! duplicate check), the title and content of a change, and the reading of
//! the duplicate-check note back out of a review reason.
use vstd::prelude::*;
use vstd::string::StringSliceAdditionalSpecFns;
use crate::text::{chars_of, contains, find, find_char_from, find_vec, find_char, lemma_find_from,
    push_str, push_decimal, decimal, starts_with, has_prefix, string_of_range, trim, trim_bounds,
    lines, lines_of, vviews, slice_vec, occurs_at, lemma_occurs_char, contains_vec, ends_with};
use crate::gateway::seq_eq;

verus! {

/// One proposed change of a review.
#[derive(Debug, Clone)]
pub struct ReviewItem {
    pub id: String,
    pub review_id: String,
    pub operation: String,
    pub operation_type: String,
    pub target_path: String,
    pub base_version_hash: String,
    pub old_content: String,
    pub new_content: String,
    pub status: String,
    pub risk_level: String,
    pub reason: String,
    pub source_id: String,
    pub citation_status: String,
    pub summary: String,
    pub confidence: String,
    pub created_at: String,
    pub page_type: String,
    pub title: String,
    pub apply_error: String,
    pub duplicate_candidate: bool,
    pub missing_target: bool,
    pub manual_required: bool,
    pub matched_page: Option<String>,
    pub matched_path: Option<String>,
    pub merge_candidate: bool,
    pub auto_converted_from_update: bool,
}

/// A review: the changes proposed by one task.
#[derive(Debug, Clone)]
pub struct Review {
    pub id: String,
    pub kb_id: String,
    pub task_id: String,
    pub status: String,
    pub summary: String,
    pub risk_level: String,
    pub created_at: String,
    pub items: Vec<ReviewItem>,
}

/// Turns update plans into reviews and applies accepted changes.
pub struct ReviewEngine;

/// What the duplicate check found for the title of a page to create.
#[derive(Debug, Clone)]
pub struct DedupFinding {
    pub is_duplicate: bool,
    /// `create_page`, `update_page` or `merge_suggestion`.
    pub suggested_operation: String,
    /// The best match: its title, its path and its similarity in percent,
    /// already written as a whole number.
    pub best_match: Option<(String, String, String)>,
}

// ---------------------------------------------------------------------------
// The note of the duplicate check
// ---------------------------------------------------------------------------

/// The first index of `s` holding `a` or `b`.
pub open spec fn first_of2(s: Seq<char>, a: char, b: char, i: int) -> Option<int>
    decreases s.len() - i,
{
    if i < 0 || i >= s.len() {
        None
    } else if s[i] == a || s[i] == b {
        Some(i)
    } else {
        first_of2(s, a, b, i + 1)
    }
}

/// The page title between `「` and the next `」`.
pub open spec fn matched_page_of(reason: Seq<char>) -> Option<Seq<char>> {
    match find_char_from(reason, '「', 0) {
        Some(s) => {
            let after = reason.skip(s + 1);
            match find_char_from(after, '」', 0) {
                Some(e) => Some(after.take(e)),
                None => None,
            }
        },
        None => None,
    }
}

/// The path between `路径: ` and the next `,` or `)`.
pub open spec fn matched_path_of(reason: Seq<char>) -> Option<Seq<char>> {
    match find(reason, "路径: "@) {
        Some(s) => {
            let after = reason.skip(s + "路径: "@.len());
            match first_of2(after, ',', ')', 0) {
                Some(e) => Some(after.take(e)),
                None => None,
            }
        },
        None => None,
    }
}

/// What `parse_dedup_reason` reads from a reason: the matched page, the
/// matched path, whether a manual merge is suggested and whether the change
/// was turned into an update.
pub open spec fn dedup_note(reason: Seq<char>) -> (
    Option<Seq<char>>,
    Option<Seq<char>>,
    bool,
    bool,
) {
    if !contains(reason, "去重检测"@) {
        (None, None, false, false)
    } else {
        (
            matched_page_of(reason),
            matched_path_of(reason),
            contains(reason, "建议人工合并"@),
            contains(reason, "已自动转为更新页面"@),
        )
    }
}

fn first_of2_exec(cs: &Vec<char>, a: char, b: char, from: usize) -> (r: Option<usize>)
    requires
        from <= cs.len(),
    ensures
        match r {
            Some(k) => first_of2(cs@, a, b, from as int) == Some(k as int) && from <= k < cs.len(),
            None => first_of2(cs@, a, b, from as int) is None,
        },
{
    let mut i = from;
    while i < cs.len()
        invariant
            from <= i <= cs.len(),
            first_of2(cs@, a, b, from as int) == first_of2(cs@, a, b, i as int),
        decreases cs.len() - i,
    {
        if cs[i] == a || cs[i] == b {
            return Some(i);
        }
        i = i + 1;
    }
    None
}

fn lit_contains(cs: &Vec<char>, lit: &str) -> (b: bool)
    ensures
        b == contains(cs@, lit@),
{
    let p = chars_of(lit);
    contains_vec(cs, &p)
}

proof fn lemma_find_char_shift(s: Seq<char>, c: char, d: int)
    requires
        0 <= d <= s.len(),
    ensures
        match (find_char_from(s, c, d), find_char_from(s.skip(d), c, 0)) {
            (Some(k), Some(k2)) => k == k2 + d,
            (None, None) => true,
            _ => false,
        },
{
    let t = s.skip(d);
    lemma_find_from(s, seq![c], d);
    lemma_find_from(t, seq![c], 0);
    assert forall|m: int| 0 <= m implies occurs_at(t, seq![c], m) == occurs_at(s, seq![c], m + d) by {
        lemma_occurs_char(t, c, m);
        lemma_occurs_char(s, c, m + d);
    }
    match find_char_from(s, c, d) {
        Some(k) => {
            assert(occurs_at(t, seq![c], k - d));
            crate::text::lemma_find_from_at(t, seq![c], 0, k - d);
        },
        None => {
            crate::text::lemma_find_from_none(t, seq![c], 0);
        },
    }
}

proof fn lemma_first_of2_shift(s: Seq<char>, a: char, b: char, d: int, i: int)
    requires
        0 <= d <= s.len(),
        0 <= i,
    ensures
        match (first_of2(s, a, b, i + d), first_of2(s.skip(d), a, b, i)) {
            (Some(k), Some(k2)) => k == k2 + d,
            (None, None) => true,
            _ => false,
        },
    decreases s.len() - i,
{
    if i + d < s.len() {
        assert(s.skip(d)[i] == s[i + d]);
        lemma_first_of2_shift(s, a, b, d, i + 1);
    }
}

impl ReviewEngine {
    /// Reads the note of the duplicate check out of a review reason: the
    /// matched page (between `「` and `」`), the matched path (after
    /// `路径: `, up to `,` or `)`), whether a manual merge is suggested and
    /// whether the change was turned into an update. A reason without the
    /// note yields nothing.
    pub fn parse_dedup_reason(reason: &str) -> (r: (Option<String>, Option<String>, bool, bool))
        ensures
            (
                match r.0 {
                    Some(p) => Some(p@),
                    None => None,
                },
                match r.1 {
                    Some(p) => Some(p@),
                    None => None,
                },
                r.2,
                r.3,
            ) == dedup_note(reason@),
    {
        let cs = chars_of(reason);
        if !lit_contains(&cs, "去重检测") {
            return (None, None, false, false);
        }
        let auto_converted = lit_contains(&cs, "已自动转为更新页面");
        let merge_candidate = lit_contains(&cs, "建议人工合并");
        let matched_page = match find_char(&cs, '「', 0) {
            Some(s) => {
                proof {
                    lemma_find_from(cs@, seq!['「'], 0);
                    lemma_occurs_char(cs@, '「', s as int);
                    lemma_find_char_shift(cs@, '」', s + 1);
                }
                match find_char(&cs, '」', s + 1) {
                    Some(e) => {
                        proof {
                            lemma_find_from(cs@, seq!['」'], s + 1);
                            lemma_occurs_char(cs@, '」', e as int);
                        }
                        let p = string_of_range(&cs, s + 1, e);
                        assert(p@ =~= cs@.skip(s + 1).take(e - (s + 1)));
                        Some(p)
                    },
                    None => None,
                }
            },
            None => None,
        };
        let key = chars_of("路径: ");
        let matched_path = match find_vec(&cs, &key, 0) {
            Some(s) => {
                proof {
                    lemma_find_from(cs@, key@, 0);
                }
                let start = s + key.len();
                proof {
                    lemma_first_of2_shift(cs@, ',', ')', start as int, 0);
                }
                match first_of2_exec(&cs, ',', ')', start) {
                    Some(e) => {
                        let p = string_of_range(&cs, start, e);
                        assert(p@ =~= cs@.skip(start as int).take(e - start));
                        Some(p)
                    },
                    None => None,
                }
            },
            None => None,
        };
        (matched_page, matched_path, merge_candidate, auto_converted)
    }
}

// ---------------------------------------------------------------------------
// The operation a proposed change becomes
// ---------------------------------------------------------------------------

/// The note for a page that was turned into an update of a near-identical
/// page.
pub open spec fn dedup_update_message(t: Seq<char>, p: Seq<char>, pct: Seq<char>) -> Seq<char> {
    "[去重检测] 与已有页面「"@ + t + "」(路径: "@ + p + ", 相似度: "@ + pct
        + "%) 高度相似，已自动转为更新页面"@
}

/// The note for a page that probably duplicates another one.
pub open spec fn dedup_merge_message(t: Seq<char>, p: Seq<char>, pct: Seq<char>) -> Seq<char> {
    "[去重检测] 疑似与「"@ + t + "」(路径: "@ + p + ", 相似度: "@ + pct + "%) 重复，建议人工合并"@
}

/// The view of a duplicate-check finding.
pub open spec fn finding_view(f: DedupFinding) -> (bool, Seq<char>, Option<
    (Seq<char>, Seq<char>, Seq<char>),
>) {
    (
        f.is_duplicate,
        f.suggested_operation@,
        match f.best_match {
            Some((t, p, pct)) => Some((t@, p@, pct@)),
            None => None,
        },
    )
}

/// Whether the title of a page to create is checked for duplicates.
pub open spec fn checks_duplicates(op: Seq<char>, title: Seq<char>) -> bool {
    op == "create"@ && title.len() > 0 && title != "Untitled"@
}

/// Operation, operation type and reason for a page to create, given what
/// the duplicate check found (`None` when it was not run or failed).
pub open spec fn create_decision(
    title: Seq<char>,
    reason: Seq<char>,
    found: Option<(bool, Seq<char>, Option<(Seq<char>, Seq<char>, Seq<char>)>)>,
) -> (Seq<char>, Seq<char>, Seq<char>) {
    let plain = ("create"@, "create_page"@, reason);
    if title.len() > 0 && title != "Untitled"@ {
        match found {
            Some((dup, sug, best)) => if dup && sug == "update_page"@ {
                match best {
                    Some((t, p, pct)) => ("update"@, "update_page"@, dedup_update_message(t, p, pct)),
                    None => plain,
                }
            } else if dup && sug == "merge_suggestion"@ {
                match best {
                    Some((t, p, pct)) => (
                        "merge_suggestion"@,
                        "merge_suggestion"@,
                        dedup_merge_message(t, p, pct),
                    ),
                    None => ("merge_suggestion"@, "merge_suggestion"@, reason),
                }
            } else {
                plain
            },
            None => plain,
        }
    } else {
        plain
    }
}

/// The operation, operation type and reason of a proposed change: the
/// operation the model asked for (`op`), its title and reason, the target
/// path, the current content of the target (empty when the page does not
/// exist), the byte length of the new content, and the duplicate check.
pub open spec fn operation_decision(
    op: Seq<char>,
    title: Seq<char>,
    reason: Seq<char>,
    path: Seq<char>,
    old: Seq<char>,
    new_len: nat,
    found: Option<(bool, Seq<char>, Option<(Seq<char>, Seq<char>, Seq<char>)>)>,
) -> (Seq<char>, Seq<char>, Seq<char>) {
    if op == "create"@ {
        create_decision(title, reason, found)
    } else if op == "update"@ {
        if old.len() == 0 {
            ("create"@, "create_page"@, "[自动降级] 原计划更新页面，但目标文件不存在。原原因: "@ + reason)
        } else {
            ("update"@, "update_page"@, reason)
        }
    } else if op == "append"@ {
        if old.len() == 0 {
            ("create"@, "create_page"@, "[自动降级] 原计划追加内容，但目标文件不存在。原原因: "@ + reason)
        } else {
            ("append"@, "append_section"@, reason)
        }
    } else if op == "add_alias"@ || op == "add_relation"@ || op == "merge_suggestion"@ || op
        == "skip"@ {
        (op, op, reason)
    } else if op == "delete"@ {
        if path.len() == 0 {
            ("unresolved"@, "unresolved"@, "[自动降级] 删除操作缺少目标路径。原原因: "@ + reason)
        } else if old.len() == 0 {
            ("unresolved"@, "unresolved"@, "[自动降级] 目标页面不存在，无法删除。原原因: "@ + reason)
        } else {
            ("delete"@, "delete_page"@, reason)
        }
    } else if new_len < 50 {
        (
            "unresolved"@,
            "unresolved"@,
            "内容过短(仅"@ + decimal(new_len) + "字符)，需要人工审核。原操作: "@ + op,
        )
    } else {
        ("create"@, "create_page"@, "未知操作类型「"@ + op + "」，默认转为创建页面"@)
    }
}

/// Law: a request to add an alias, add a relation, suggest a merge or skip
/// passes through unchanged, whatever the title, path, contents and
/// duplicate check: the operation and its type are the requested operation
/// and the reason is kept. In particular a skip never becomes a page to
/// create.
pub proof fn pass_through_operations_are_kept(
    op: Seq<char>,
    title: Seq<char>,
    reason: Seq<char>,
    path: Seq<char>,
    old: Seq<char>,
    new_len: nat,
    found: Option<(bool, Seq<char>, Option<(Seq<char>, Seq<char>, Seq<char>)>)>,
)
    requires
        op == "add_alias"@ || op == "add_relation"@ || op == "merge_suggestion"@ || op == "skip"@,
    ensures
        operation_decision(op, title, reason, path, old, new_len, found) == (op, op, reason),
{
    reveal_strlit("add_alias");
    reveal_strlit("add_relation");
    reveal_strlit("merge_suggestion");
    reveal_strlit("skip");
    reveal_strlit("create");
    reveal_strlit("update");
    reveal_strlit("append");
}

/// Law: an update, an append or a deletion of a page that exists (its path
/// is given and its current content is not empty) is kept as asked, with
/// its reason; an update or append of a page that does not exist becomes a
/// page to create, its reason ending with the original one.
pub proof fn existing_targets_keep_their_operation(
    op: Seq<char>,
    title: Seq<char>,
    reason: Seq<char>,
    path: Seq<char>,
    old: Seq<char>,
    new_len: nat,
    found: Option<(bool, Seq<char>, Option<(Seq<char>, Seq<char>, Seq<char>)>)>,
)
    ensures
        old.len() > 0 && path.len() > 0 ==> {
            &&& op == "update"@ ==> operation_decision(op, title, reason, path, old, new_len, found) == (
                "update"@,
                "update_page"@,
                reason,
            )
            &&& op == "append"@ ==> operation_decision(op, title, reason, path, old, new_len, found) == (
                "append"@,
                "append_section"@,
                reason,
            )
            &&& op == "delete"@ ==> operation_decision(op, title, reason, path, old, new_len, found) == (
                "delete"@,
                "delete_page"@,
                reason,
            )
        },
        old.len() == 0 && (op == "update"@ || op == "append"@) ==> {
            let d = operation_decision(op, title, reason, path, old, new_len, found);
            &&& d.0 == "create"@ && d.1 == "create_page"@
            &&& d.2.len() >= reason.len() && d.2.skip(d.2.len() - reason.len()) == reason
        },
{
    reveal_strlit("create");
    reveal_strlit("update");
    reveal_strlit("append");
    reveal_strlit("delete");
    reveal_strlit("add_alias");
    reveal_strlit("add_relation");
    reveal_strlit("merge_suggestion");
    reveal_strlit("skip");
    assert("update"@[0] != "create"@[0]);
    assert("append"@[0] != "create"@[0] && "append"@[0] != "update"@[0]);
    assert("delete"@[0] != "create"@[0] && "delete"@[0] != "update"@[0]);
    assert("delete"@ != "create"@ && "delete"@ != "update"@ && "delete"@ != "append"@);
    assert("delete"@ != "add_alias"@ && "delete"@ != "add_relation"@ && "delete"@ != "merge_suggestion"@
        && "delete"@ != "skip"@);
    if old.len() == 0 && (op == "update"@ || op == "append"@) {
        let d = operation_decision(op, title, reason, path, old, new_len, found);
        let head = if op == "update"@ {
            "[自动降级] 原计划更新页面，但目标文件不存在。原原因: "@
        } else {
            "[自动降级] 原计划追加内容，但目标文件不存在。原原因: "@
        };
        assert(d.2 == head + reason);
        assert(d.2.skip(d.2.len() - reason.len()) =~= reason);
    }
}

/// Law: a page to create stays a page to create, with its reason, unless
/// the duplicate check (run for a real title) found a duplicate: then it
/// becomes an update of the matching page when the check suggests an
/// update and names the page, or a merge suggestion when it suggests one.
/// A request of an unknown kind becomes a page to create when its new
/// content holds at least 50 bytes, and is left unresolved otherwise.
pub proof fn creations_and_unknown_requests(
    op: Seq<char>,
    title: Seq<char>,
    reason: Seq<char>,
    path: Seq<char>,
    old: Seq<char>,
    new_len: nat,
    found: Option<(bool, Seq<char>, Option<(Seq<char>, Seq<char>, Seq<char>)>)>,
)
    ensures
        ({
            let d = operation_decision(op, title, reason, path, old, new_len, found);
            let real_title = title.len() > 0 && title != "Untitled"@;
            &&& op == "create"@ && (!real_title || found is None || !found->Some_0.0) ==> d == (
                "create"@,
                "create_page"@,
                reason,
            )
            &&& (op == "create"@ && real_title && found is Some && found->Some_0.0 && found->Some_0.1
                == "update_page"@ && found->Some_0.2 is Some) ==> d.0 == "update"@ && d.1 == "update_page"@
            &&& (op == "create"@ && real_title && found is Some && found->Some_0.0 && found->Some_0.1
                == "merge_suggestion"@) ==> d.0 == "merge_suggestion"@ && d.1 == "merge_suggestion"@
            &&& op != "create"@ && op != "update"@ && op != "append"@ && op != "delete"@ && op != "add_alias"@
                && op != "add_relation"@ && op != "merge_suggestion"@ && op != "skip"@ ==> (if new_len
                >= 50 {
                d.0 == "create"@ && d.1 == "create_page"@
            } else {
                d.0 == "unresolved"@ && d.1 == "unresolved"@
            })
        }),
{
    reveal_strlit("update_page");
    reveal_strlit("merge_suggestion");
    assert("update_page"@[0] != "merge_suggestion"@[0]);
}

fn is_lit(cs: &Vec<char>, lit: &str) -> (b: bool)
    ensures
        b == (cs@ == lit@),
{
    let l = chars_of(lit);
    seq_eq(cs, &l)
}

fn strs3(a: &str, b: &str, c: String) -> (r: (String, String, String))
    ensures
        r.0@ == a@ && r.1@ == b@ && r.2@ == c@,
{
    (String::from_str(a), String::from_str(b), c)
}

fn cat2(a: &str, b: &str) -> (m: String)
    ensures
        m@ == a@ + b@,
{
    let mut m = String::from_str(a);
    push_str(&mut m, b);
    m
}

fn dedup_message(head: &str, t: &str, p: &str, pct: &str, tail: &str) -> (m: String)
    ensures
        m@ == head@ + t@ + "」(路径: "@ + p@ + ", 相似度: "@ + pct@ + tail@,
{
    let mut m = String::from_str(head);
    push_str(&mut m, t);
    push_str(&mut m, "」(路径: ");
    push_str(&mut m, p);
    push_str(&mut m, ", 相似度: ");
    push_str(&mut m, pct);
    push_str(&mut m, tail);
    m
}

impl ReviewEngine {
    /// Whether the duplicate check runs for a change with this operation and
    /// title.
    pub fn checks_duplicates(llm_operation: &str, title: &str) -> (b: bool)
        ensures
            b == checks_duplicates(llm_operation@, title@),
    {
        let op = chars_of(llm_operation);
        let t = chars_of(title);
        is_lit(&op, "create") && t.len() > 0 && !is_lit(&t, "Untitled")
    }

    /// The operation, operation type and reason of a proposed change (see
    /// `operation_decision`); `found` is what the duplicate check found when
    /// `checks_duplicates` asked for it and it succeeded.
    pub fn resolve_operation(
        llm_operation: &str,
        title: &str,
        reason: &str,
        path: &str,
        old_content: &str,
        new_content: &str,
        found: Option<DedupFinding>,
    ) -> (r: (String, String, String))
        ensures
            (r.0@, r.1@, r.2@) == operation_decision(
                llm_operation@,
                title@,
                reason@,
                path@,
                old_content@,
                new_content.spec_bytes().len(),
                match found {
                    Some(f) => Some(finding_view(f)),
                    None => None,
                },
            ),
    {
        let op = chars_of(llm_operation);
        let old_empty = old_content.is_empty();
        if is_lit(&op, "create") {
            let t = chars_of(title);
            if t.len() > 0 && !is_lit(&t, "Untitled") {
                match found {
                    Some(f) => {
                        let sug = chars_of(f.suggested_operation.as_str());
                        if f.is_duplicate && is_lit(&sug, "update_page") {
                            match f.best_match {
                                Some((bt, bp, pct)) => {
                                    let m = dedup_message(
                                        "[去重检测] 与已有页面「",
                                        bt.as_str(),
                                        bp.as_str(),
                                        pct.as_str(),
                                        "%) 高度相似，已自动转为更新页面",
                                    );
                                    strs3("update", "update_page", m)
                                },
                                None => strs3("create", "create_page", String::from_str(reason)),
                            }
                        } else if f.is_duplicate && is_lit(&sug, "merge_suggestion") {
                            match f.best_match {
                                Some((bt, bp, pct)) => {
                                    let m = dedup_message(
                                        "[去重检测] 疑似与「",
                                        bt.as_str(),
                                        bp.as_str(),
                                        pct.as_str(),
                                        "%) 重复，建议人工合并",
                                    );
                                    strs3("merge_suggestion", "merge_suggestion", m)
                                },
                                None => strs3(
                                    "merge_suggestion",
                                    "merge_suggestion",
                                    String::from_str(reason),
                                ),
                            }
                        } else {
                            strs3("create", "create_page", String::from_str(reason))
                        }
                    },
                    None => strs3("create", "create_page", String::from_str(reason)),
                }
            } else {
                strs3("create", "create_page", String::from_str(reason))
            }
        } else if is_lit(&op, "update") {
            if old_empty {
                strs3("create", "create_page", cat2("[自动降级] 原计划更新页面，但目标文件不存在。原原因: ", reason))
            } else {
                strs3("update", "update_page", String::from_str(reason))
            }
        } else if is_lit(&op, "append") {
            if old_empty {
                strs3("create", "create_page", cat2("[自动降级] 原计划追加内容，但目标文件不存在。原原因: ", reason))
            } else {
                strs3("append", "append_section", String::from_str(reason))
            }
        } else if is_lit(&op, "add_alias") || is_lit(&op, "add_relation") || is_lit(
            &op,
            "merge_suggestion",
        ) || is_lit(&op, "skip") {
            (String::from_str(llm_operation), String::from_str(llm_operation), String::from_str(reason))
        } else if is_lit(&op, "delete") {
            if path.is_empty() {
                strs3("unresolved", "unresolved", cat2("[自动降级] 删除操作缺少目标路径。原原因: ", reason))
            } else if old_empty {
                strs3("unresolved", "unresolved", cat2("[自动降级] 目标页面不存在，无法删除。原原因: ", reason))
            } else {
                strs3("delete", "delete_page", String::from_str(reason))
            }
        } else {
            let n = new_content.as_bytes().len();
            if n < 50 {
                let mut m = String::from_str("内容过短(仅");
                push_decimal(&mut m, n as u64);
                push_str(&mut m, "字符)，需要人工审核。原操作: ");
                push_str(&mut m, llm_operation);
                strs3("unresolved", "unresolved", m)
            } else {
                let mut m = String::from_str("未知操作类型「");
                push_str(&mut m, llm_operation);
                push_str(&mut m, "」，默认转为创建页面");
                strs3("create", "create_page", m)
            }
        }
    }
}

// ---------------------------------------------------------------------------
// Title, content and risk of a review
// ---------------------------------------------------------------------------

/// The content stored for a change: the new content, headed by `# {title}`
/// unless it already starts with a heading or front matter, or the change
/// only adds an alias.
pub open spec fn full_new_content(title: Seq<char>, new_content: Seq<char>, op_type: Seq<char>) -> Seq<
    char,
> {
    if !starts_with(new_content, "# "@) && !starts_with(new_content, "---"@) && op_type
        != "add_alias"@ {
        "# "@ + title + "\n\n"@ + new_content
    } else {
        new_content
    }
}

/// The rank of a risk level: `high` 3, `medium` 2, anything else 1.
pub open spec fn risk_rank(r: Seq<char>) -> int {
    if r == "high"@ {
        3
    } else if r == "medium"@ {
        2
    } else {
        1
    }
}

/// The risk level of highest rank, the last one among equals
/// (`Iterator::max_by_key`).
pub open spec fn max_by_rank(rs: Seq<Seq<char>>) -> Option<Seq<char>>
    decreases rs.len(),
{
    if rs.len() == 0 {
        None
    } else {
        match max_by_rank(rs.drop_last()) {
            None => Some(rs.last()),
            Some(b) => if risk_rank(rs.last()) >= risk_rank(b) {
                Some(rs.last())
            } else {
                Some(b)
            },
        }
    }
}

/// `s` with every leading `pat` removed (`str::trim_start_matches`).
pub open spec fn trim_start_matches(s: Seq<char>, pat: Seq<char>) -> Seq<char>
    decreases s.len(),
{
    if pat.len() > 0 && starts_with(s, pat) {
        trim_start_matches(s.skip(pat.len() as int), pat)
    } else {
        s
    }
}

/// `s` with every trailing `pat` removed (`str::trim_end_matches`).
pub open spec fn trim_end_matches(s: Seq<char>, pat: Seq<char>) -> Seq<char>
    decreases s.len(),
{
    if pat.len() > 0 && ends_with(s, pat) {
        trim_end_matches(s.take(s.len() - pat.len()), pat)
    } else {
        s
    }
}

/// The text of the first `# ` heading line of `ls`, trimmed.
pub open spec fn first_heading(ls: Seq<Seq<char>>) -> Option<Seq<char>>
    decreases ls.len(),
{
    if ls.len() == 0 {
        None
    } else if starts_with(ls[0], "# "@) {
        Some(trim(trim_start_matches(ls[0], "# "@)))
    } else {
        first_heading(ls.drop_first())
    }
}

/// What follows the last `/` of `s` (all of `s` when there is none).
pub open spec fn after_last_slash(s: Seq<char>) -> Seq<char> {
    match crate::documents::last_index_of(s, '/') {
        Some(i) => s.skip(i + 1),
        None => s,
    }
}

/// A present, non-empty text.
pub open spec fn non_empty(o: Option<Seq<char>>) -> Option<Seq<char>> {
    match o {
        Some(s) => if s.len() > 0 {
            Some(s)
        } else {
            None
        },
        None => None,
    }
}

/// The title of a change: its `title`, else its `canonical_name`, else the
/// first `# ` heading of its Markdown, else the last segment of its path
/// without `.md`, else `Untitled`.
pub open spec fn best_title(
    title: Option<Seq<char>>,
    canonical: Option<Seq<char>>,
    markdown: Option<Seq<char>>,
    path: Option<Seq<char>>,
) -> Seq<char> {
    match non_empty(title) {
        Some(t) => t,
        None => match non_empty(canonical) {
            Some(c) => c,
            None => match (match markdown {
                Some(m) => first_heading(lines(m)),
                None => None,
            }) {
                Some(h) => h,
                None => match path {
                    Some(p) => after_last_slash(trim_end_matches(p, ".md"@)),
                    None => "Untitled"@,
                },
            },
        },
    }
}

/// The view of an optional string slice.
pub open spec fn opt_view(o: Option<&str>) -> Option<Seq<char>> {
    match o {
        Some(s) => Some(s@),
        None => None,
    }
}

fn trim_start_matches_bounds(cs: &Vec<char>, lo: usize, hi: usize, pat: &Vec<char>) -> (r: usize)
    requires
        lo <= hi <= cs.len(),
        pat.len() > 0,
    ensures
        lo <= r <= hi,
        cs@.subrange(r as int, hi as int) == trim_start_matches(
            cs@.subrange(lo as int, hi as int),
            pat@,
        ),
{
    let mut i = lo;
    while pat.len() <= hi - i && crate::text::matches_at(cs, pat, i)
        invariant
            lo <= i <= hi <= cs.len(),
            pat.len() > 0,
            trim_start_matches(cs@.subrange(lo as int, hi as int), pat@) == trim_start_matches(
                cs@.subrange(i as int, hi as int),
                pat@,
            ),
        decreases hi - i,
    {
        proof {
            let t = cs@.subrange(i as int, hi as int);
            assert(t.take(pat@.len() as int) =~= cs@.subrange(i as int, i + pat@.len()));
            assert(t.skip(pat@.len() as int) =~= cs@.subrange(i + pat@.len(), hi as int));
        }
        i = i + pat.len();
    }
    proof {
        let t = cs@.subrange(i as int, hi as int);
        if pat@.len() <= t.len() && starts_with(t, pat@) {
            assert(t.take(pat@.len() as int) =~= cs@.subrange(i as int, i + pat@.len()));
            assert(occurs_at(cs@, pat@, i as int));
        }
    }
    i
}

fn trim_end_matches_bound(cs: &Vec<char>, hi: usize, pat: &Vec<char>) -> (r: usize)
    requires
        hi <= cs.len(),
        pat.len() > 0,
    ensures
        r <= hi,
        cs@.take(r as int) == trim_end_matches(cs@.take(hi as int), pat@),
{
    let mut j = hi;
    while j >= pat.len() && crate::text::matches_at(cs, pat, j - pat.len())
        invariant
            j <= hi <= cs.len(),
            pat.len() > 0,
            trim_end_matches(cs@.take(hi as int), pat@) == trim_end_matches(cs@.take(j as int), pat@),
        decreases j,
    {
        proof {
            let t = cs@.take(j as int);
            assert(t.skip(t.len() - pat@.len()) =~= cs@.subrange(j - pat@.len(), j as int));
            assert(t.take(t.len() - pat@.len()) =~= cs@.take(j - pat@.len()));
        }
        j = j - pat.len();
    }
    proof {
        let t = cs@.take(j as int);
        if pat@.len() <= t.len() && ends_with(t, pat@) {
            assert(t.skip(t.len() - pat@.len()) =~= cs@.subrange(j - pat@.len(), j as int));
            assert(occurs_at(cs@, pat@, j - pat@.len()));
        }
    }
    j
}

impl ReviewEngine {
    /// The content stored for a change (see `full_new_content`).
    pub fn full_new_content(title: &str, new_content: &str, operation_type: &str) -> (c: String)
        ensures
            c@ == full_new_content(title@, new_content@, operation_type@),
    {
        let n = chars_of(new_content);
        let t = chars_of(operation_type);
        if !has_prefix(&n, "# ") && !has_prefix(&n, "---") && !is_lit(&t, "add_alias") {
            let mut c = String::from_str("# ");
            push_str(&mut c, title);
            push_str(&mut c, "\n\n");
            push_str(&mut c, new_content);
            c
        } else {
            String::from_str(new_content)
        }
    }

    /// The risk of a review: the highest-ranked risk level among its
    /// changes, `medium` when none states one.
    pub fn max_risk(risks: &Vec<String>) -> (r: String)
        ensures
            r@ == match max_by_rank(risks@.map_values(|x: String| x@)) {
                Some(m) => m,
                None => "medium"@,
            },
    {
        let ghost rs = risks@.map_values(|x: String| x@);
        let mut best: Option<usize> = None;
        let mut best_rank: u8 = 0;
        let mut i: usize = 0;
        while i < risks.len()
            invariant
                i <= risks@.len(),
                rs == risks@.map_values(|x: String| x@),
                match (best, max_by_rank(rs.take(i as int))) {
                    (Some(k), Some(m)) => k < i && rs[k as int] == m && best_rank == risk_rank(m),
                    (None, None) => true,
                    _ => false,
                },
            decreases risks.len() - i,
        {
            let c = chars_of(risks[i].as_str());
            let rank: u8 = if is_lit(&c, "high") {
                3
            } else if is_lit(&c, "medium") {
                2
            } else {
                1
            };
            assert(rs.take(i + 1).drop_last() =~= rs.take(i as int));
            assert(rs.take(i + 1).last() == risks@[i as int]@);
            match best {
                None => {
                    best = Some(i);
                    best_rank = rank;
                },
                Some(_) => {
                    if rank >= best_rank {
                        best = Some(i);
                        best_rank = rank;
                    }
                },
            }
            i = i + 1;
        }
        assert(rs.take(risks@.len() as int) =~= rs);
        match best {
            Some(k) => risks[k].clone(),
            None => String::from_str("medium"),
        }
    }

    /// The title of a change (see `best_title`), from its `title`,
    /// `canonical_name`, Markdown content and `path` fields.
    pub fn extract_best_title(
        title: Option<&str>,
        canonical_name: Option<&str>,
        markdown: Option<&str>,
        path: Option<&str>,
    ) -> (t: String)
        ensures
            t@ == best_title(opt_view(title), opt_view(canonical_name), opt_view(markdown), opt_view(path)),
    {
        if let Some(x) = title {
            if !x.is_empty() {
                return String::from_str(x);
            }
        }
        if let Some(x) = canonical_name {
            if !x.is_empty() {
                return String::from_str(x);
            }
        }
        if let Some(m) = markdown {
            let cs = chars_of(m);
            let ls = lines_of(&cs);
            let hash = chars_of("# ");
            proof {
                reveal_strlit("# ");
            }
            let mut i: usize = 0;
            assert(vviews(ls@).skip(0) =~= vviews(ls@));
            while i < ls.len()
                invariant
                    i <= ls@.len(),
                    vviews(ls@) == lines(m@),
                    hash@ == "# "@,
                    hash@.len() > 0,
                    non_empty(opt_view(title)) is None,
                    non_empty(opt_view(canonical_name)) is None,
                    markdown == Some(m),
                    first_heading(vviews(ls@).skip(i as int)) == first_heading(lines(m@)),
                decreases ls.len() - i,
            {
                let line = &ls[i];
                let ghost rest = vviews(ls@).skip(i as int);
                assert(rest[0] == line@);
                if has_prefix(line, "# ") {
                    let start = trim_start_matches_bounds(line, 0, line.len(), &hash);
                    assert(line@.subrange(0, line@.len() as int) =~= line@);
                    let (lo, hi) = trim_bounds(line, start, line.len());
                    return string_of_range(line, lo, hi);
                }
                assert(rest.drop_first() =~= vviews(ls@).skip(i + 1));
                i = i + 1;
            }
            assert(vviews(ls@).skip(i as int) =~= Seq::<Seq<char>>::empty());
        }
        match path {
            Some(p) => {
                let cs = chars_of(p);
                let md = chars_of(".md");
                proof {
                    reveal_strlit(".md");
                }
                let end = trim_end_matches_bound(&cs, cs.len(), &md);
                assert(cs@.take(cs@.len() as int) =~= cs@);
                let slash = crate::documents::last_index(&cs, end, '/');
                match slash {
                    Some(k) => {
                        let r = string_of_range(&cs, k + 1, end);
                        assert(r@ =~= cs@.take(end as int).skip(k + 1));
                        r
                    },
                    None => string_of_range(&cs, 0, end),
                }
            },
            None => String::from_str("Untitled"),
        }
    }

    /// The summary of the review of a task with `n` changes.
    pub fn review_summary(task_id: &str, n: usize) -> (s: String)
        ensures
            s@ == "任务 "@ + task_id@ + " 的 Wiki 更新审阅，共 "@ + decimal(n as nat) + " 项"@,
    {
        let mut s = String::from_str("任务 ");
        push_str(&mut s, task_id);
        push_str(&mut s, " 的 Wiki 更新审阅，共 ");
        push_decimal(&mut s, n as u64);
        push_str(&mut s, " 项");
        s
    }
}

// ---------------------------------------------------------------------------
// Reading back the note of the duplicate check
// ---------------------------------------------------------------------------

proof fn lemma_first_of2_at(s: Seq<char>, a: char, b: char, i: int, k: int)
    requires
        0 <= i <= k < s.len(),
        s[k] == a || s[k] == b,
        forall|j: int| i <= j < k ==> s[j] != a && s[j] != b,
    ensures
        first_of2(s, a, b, i) == Some(k),
    decreases k - i,
{
    if i < k {
        lemma_first_of2_at(s, a, b, i + 1, k);
    }
}

/// No character of the text is `c`.
pub open spec fn lacks(s: Seq<char>, c: char) -> bool {
    forall|i: int| 0 <= i < s.len() ==> s[i] != c
}

/// The duplicate-check part of a note: `「{t}」(路径: {p}, 相似度: {pct}%) `
/// between the given head and tail.
pub open spec fn note_parts(head: Seq<char>, t: Seq<char>, p: Seq<char>, pct: Seq<char>, tail: Seq<char>) -> Seq<char> {
    head + t + "」(路径: "@ + p + ", 相似度: "@ + pct + tail
}

/// Where the matched page and path are read from a note whose head ends
/// with `「` and holds no other `「` and no `路`: the title and path come back
/// unchanged when the title holds no `」` and no `路径: `, and the path holds
/// no `,` or `)`.
proof fn lemma_note_page_and_path(
    head: Seq<char>,
    t: Seq<char>,
    p: Seq<char>,
    pct: Seq<char>,
    tail: Seq<char>,
)
    requires
        head.len() > 0,
        head.last() == '「',
        forall|i: int| 0 <= i < head.len() - 1 ==> head[i] != '「',
        lacks(head, '路'),
        lacks(t, '」'),
        !contains(t, "路径: "@),
        lacks(p, ','),
        lacks(p, ')'),
    ensures
        matched_page_of(note_parts(head, t, p, pct, tail)) == Some(t),
        matched_path_of(note_parts(head, t, p, pct, tail)) == Some(p),
{
    reveal_strlit("」(路径: ");
    reveal_strlit(", 相似度: ");
    reveal_strlit("路径: ");
    let msg = note_parts(head, t, p, pct, tail);
    let h = head.len() as int;
    let n = t.len() as int;
    // the page: the first `「` is the last character of the head
    assert forall|m: int| 0 <= m < h - 1 implies !occurs_at(msg, seq!['「'], m) by {
        crate::text::lemma_occurs_char(msg, '「', m);
        assert(msg[m] == head[m]);
    }
    crate::text::lemma_occurs_char(msg, '「', h - 1);
    assert(msg[h - 1] == head[h - 1]);
    crate::text::lemma_find_from_at(msg, seq!['「'], 0, h - 1);
    let after = msg.skip(h);
    assert(after =~= t + "」(路径: "@ + p + ", 相似度: "@ + pct + tail);
    assert forall|m: int| 0 <= m < n implies !occurs_at(after, seq!['」'], m) by {
        crate::text::lemma_occurs_char(after, '」', m);
        assert(after[m] == t[m]);
    }
    crate::text::lemma_occurs_char(after, '」', n);
    assert(after[n] == '」');
    crate::text::lemma_find_from_at(after, seq!['」'], 0, n);
    assert(after.take(n) =~= t);
    // the path: the first `路径: ` follows `」(`
    let pat = "路径: "@;
    let q = h + n + 2;
    let front = head + t + seq!['」', '('];
    assert(front.len() == q);
    assert forall|m: int| 0 <= m < q implies !occurs_at(msg, pat, m) by {
        if occurs_at(msg, pat, m) {
            if m + 4 <= q {
                crate::text::lemma_no_first_char(head, pat);
                crate::text::lemma_no_first_char(seq!['」', '('], pat);
                crate::text::lemma_contains_iff(t, pat);
                assert forall|k: int| !occurs_at(t, pat, k) by {}
                assert(!pat.contains(head.last()));
                assert(!pat.contains(seq!['」', '('][0]));
                crate::text::lemma_no_occurrence_concat(head, t, seq!['」', '('], pat);
                assert(msg.subrange(m, m + 4) =~= front.subrange(m, m + 4));
                assert(occurs_at(front, pat, m));
            } else {
                assert(msg[q - 1] == '(');
                assert(msg.subrange(m, m + 4)[q - 1 - m] == msg[q - 1]);
            }
        }
    }
    assert(msg.subrange(q, q + 4) =~= pat);
    crate::text::lemma_find_from_at(msg, pat, 0, q);
    let rest = msg.skip(q + 4);
    assert(rest =~= p + ", 相似度: "@ + pct + tail);
    assert(rest[p.len() as int] == ',');
    lemma_first_of2_at(rest, ',', ')', 0, p.len() as int);
    assert(rest.take(p.len() as int) =~= p);
}

proof fn lemma_lit_absent(x: Seq<char>, pat: Seq<char>)
    requires
        pat.len() > 0,
        forall|i: int| 0 <= i < x.len() ==> !pat.contains(#[trigger] x[i]),
    ensures
        forall|m: int| !occurs_at(x, pat, m),
{
    assert forall|i: int| 0 <= i < x.len() implies x[i] != pat[0] by {
        if x[i] == pat[0] {
            assert(pat.contains(x[i]));
        }
    }
    crate::text::lemma_no_first_char(x, pat);
}

/// A piece of text that holds no occurrence of `pat`, given by a part that
/// does not hold it between literal pieces that hold none of its characters.
proof fn lemma_absent_from_note(t: Seq<char>, p: Seq<char>, pct: Seq<char>, head: Seq<char>, tail: Seq<char>, pat: Seq<char>)
    requires
        pat.len() > 0,
        !contains(t, pat),
        !contains(p, pat),
        !contains(pct, pat),
        forall|i: int| 0 <= i < head.len() ==> !pat.contains(#[trigger] head[i]),
        forall|i: int| 0 <= i < tail.len() ==> !pat.contains(#[trigger] tail[i]),
        forall|i: int| 0 <= i < "」(路径: "@.len() ==> !pat.contains(#[trigger] "」(路径: "@[i]),
        forall|i: int| 0 <= i < ", 相似度: "@.len() ==> !pat.contains(#[trigger] ", 相似度: "@[i]),
        head.len() > 0,
        tail.len() > 0,
    ensures
        !contains(note_parts(head, t, p, pct, tail), pat),
{
    reveal_strlit("」(路径: ");
    reveal_strlit(", 相似度: ");
    let l1 = "」(路径: "@;
    let l2 = ", 相似度: "@;
    lemma_lit_absent(head, pat);
    lemma_lit_absent(tail, pat);
    lemma_lit_absent(l1, pat);
    lemma_lit_absent(l2, pat);
    crate::text::lemma_contains_iff(t, pat);
    crate::text::lemma_contains_iff(p, pat);
    crate::text::lemma_contains_iff(pct, pat);
    assert forall|m: int| !occurs_at(t, pat, m) by {}
    assert forall|m: int| !occurs_at(p, pat, m) by {}
    assert forall|m: int| !occurs_at(pct, pat, m) by {}
    let r2 = l2 + pct + tail;
    crate::text::lemma_no_occurrence_concat(l2, pct, tail, pat);
    let r1 = l1 + p + r2;
    assert(r2[0] == l2[0]);
    crate::text::lemma_no_occurrence_concat(l1, p, r2, pat);
    assert(r1[0] == l1[0]);
    crate::text::lemma_no_occurrence_concat(head, t, r1, pat);
    assert(note_parts(head, t, p, pct, tail) =~= head + t + r1);
    crate::text::lemma_contains_iff(note_parts(head, t, p, pct, tail), pat);
}

/// The note written when a new page is turned into an update of an
/// existing one reads back as that page and path, marked as turned into an
/// update and not as a merge candidate — for titles without `」` or
/// `路径: `, paths without `,` or `)`, and parts that do not themselves
/// hold `建议人工合并`.
pub proof fn dedup_update_note_reads_back(t: Seq<char>, p: Seq<char>, pct: Seq<char>)
    requires
        lacks(t, '」'),
        !contains(t, "路径: "@),
        lacks(p, ','),
        lacks(p, ')'),
        !contains(t, "建议人工合并"@),
        !contains(p, "建议人工合并"@),
        !contains(pct, "建议人工合并"@),
    ensures
        dedup_note(dedup_update_message(t, p, pct)) == (
            Some(t),
            Some(p),
            false,
            true,
        ),
{
    reveal_strlit("[去重检测] 与已有页面「");
    reveal_strlit("%) 高度相似，已自动转为更新页面");
    reveal_strlit("去重检测");
    reveal_strlit("已自动转为更新页面");
    reveal_strlit("建议人工合并");
    reveal_strlit("」(路径: ");
    reveal_strlit(", 相似度: ");
    let head = "[去重检测] 与已有页面「"@;
    let tail = "%) 高度相似，已自动转为更新页面"@;
    let msg = dedup_update_message(t, p, pct);
    assert(msg == note_parts(head, t, p, pct, tail));
    lemma_note_page_and_path(head, t, p, pct, tail);
    assert(msg.subrange(1, 5) =~= "去重检测"@);
    assert(occurs_at(msg, "去重检测"@, 1));
    crate::text::lemma_contains_iff(msg, "去重检测"@);
    let base = msg.len() - tail.len();
    assert(msg.subrange(base + 8, base + 17) =~= "已自动转为更新页面"@);
    assert(occurs_at(msg, "已自动转为更新页面"@, base + 8));
    crate::text::lemma_contains_iff(msg, "已自动转为更新页面"@);
    lemma_absent_from_note(t, p, pct, head, tail, "建议人工合并"@);
}

/// The note written when a new page probably duplicates an existing one
/// reads back as that page and path, marked as a merge candidate and not as
/// turned into an update — for titles without `」` or `路径: `, paths without
/// `,` or `)`, and parts that do not themselves hold `已自动转为更新页面`.
pub proof fn dedup_merge_note_reads_back(t: Seq<char>, p: Seq<char>, pct: Seq<char>)
    requires
        lacks(t, '」'),
        !contains(t, "路径: "@),
        lacks(p, ','),
        lacks(p, ')'),
        !contains(t, "已自动转为更新页面"@),
        !contains(p, "已自动转为更新页面"@),
        !contains(pct, "已自动转为更新页面"@),
    ensures
        dedup_note(dedup_merge_message(t, p, pct)) == (
            Some(t),
            Some(p),
            true,
            false,
        ),
{
    reveal_strlit("[去重检测] 疑似与「");
    reveal_strlit("%) 重复，建议人工合并");
    reveal_strlit("去重检测");
    reveal_strlit("已自动转为更新页面");
    reveal_strlit("建议人工合并");
    reveal_strlit("」(路径: ");
    reveal_strlit(", 相似度: ");
    let head = "[去重检测] 疑似与「"@;
    let tail = "%) 重复，建议人工合并"@;
    let msg = dedup_merge_message(t, p, pct);
    assert(msg == note_parts(head, t, p, pct, tail));
    lemma_note_page_and_path(head, t, p, pct, tail);
    assert(msg.subrange(1, 5) =~= "去重检测"@);
    assert(occurs_at(msg, "去重检测"@, 1));
    crate::text::lemma_contains_iff(msg, "去重检测"@);
    let base = msg.len() - tail.len();
    assert(msg.subrange(base + 6, base + 12) =~= "建议人工合并"@);
    assert(occurs_at(msg, "建议人工合并"@, base + 6));
    crate::text::lemma_contains_iff(msg, "建议人工合并"@);
    lemma_absent_from_note(t, p, pct, head, tail, "已自动转为更新页面"@);
}

// ---------------------------------------------------------------------------
// Review items for display and acceptance
// ---------------------------------------------------------------------------

/// The flags shown with a review item: a duplicate candidate (its reason
/// mentions the dedup check), a missing target (a target path that names no
/// wiki page), and a manual decision required (merge suggestions,
/// unresolved and invalid operations).
pub open spec fn item_flags(reason: Seq<char>, target_path: Seq<char>, operation_type: Seq<char>, known_paths: Seq<Seq<char>>) -> (bool, bool, bool) {
    (
        contains(reason, "去重检测"@),
        target_path.len() > 0 && !known_paths.contains(target_path),
        operation_type == "merge_suggestion"@ || operation_type == "unresolved"@ || operation_type == "invalid"@,
    )
}

/// Whether the plain acceptance of an item of `operation_type` is refused:
/// skipped, merge-suggested, unresolved and invalid items need their own
/// review action.
pub open spec fn accept_refused(operation_type: Seq<char>) -> bool {
    operation_type == "skip"@ || operation_type == "merge_suggestion"@ || operation_type == "unresolved"@
        || operation_type == "invalid"@
}

impl ReviewEngine {
    /// The flags shown with a review item (see `item_flags`), given the
    /// paths of the wiki pages of its knowledge base.
    pub fn item_flags(reason: &str, target_path: &str, operation_type: &str, known_paths: &Vec<String>) -> (r: (bool, bool, bool))
        ensures
            r == item_flags(reason@, target_path@, operation_type@, known_paths@.map_values(|p: String| p@)),
    {
        let rc = chars_of(reason);
        let pat = chars_of("去重检测");
        let dup = contains_vec(&rc, &pat);
        let tc = chars_of(target_path);
        let op = chars_of(operation_type);
        let ghost kv = known_paths@.map_values(|p: String| p@);
        let mut known = false;
        let mut i: usize = 0;
        while i < known_paths.len()
            invariant
                i <= known_paths@.len(),
                kv == known_paths@.map_values(|p: String| p@),
                tc@ == target_path@,
                known == exists|j: int| 0 <= j < i && kv[j] == target_path@,
            decreases known_paths.len() - i,
        {
            let pc = chars_of(known_paths[i].as_str());
            assert(kv[i as int] == known_paths@[i as int]@);
            if seq_eq(&pc, &tc) {
                known = true;
            }
            assert(known == exists|j: int| 0 <= j < i + 1 && kv[j] == target_path@) by {
                if exists|j: int| 0 <= j < i + 1 && kv[j] == target_path@ {
                    let j = choose|j: int| 0 <= j < i + 1 && kv[j] == target_path@;
                    if j < i {
                        assert(exists|q: int| 0 <= q < i && kv[q] == target_path@);
                    }
                }
            }
            i = i + 1;
        }
        let missing = tc.len() > 0 && !known;
        let manual = is_lit(&op, "merge_suggestion") || is_lit(&op, "unresolved") || is_lit(&op, "invalid");
        proof {
            if kv.contains(target_path@) {
                let j = choose|j: int| 0 <= j < kv.len() && kv[j] == target_path@;
                assert(exists|q: int| 0 <= q < known_paths@.len() && kv[q] == target_path@);
            }
        }
        (dup, missing, manual)
    }

    /// Checks that an item of `operation_type` may be accepted as is (see
    /// `accept_refused`).
    pub fn accept_check(operation_type: &str) -> (r: Result<(), String>)
        ensures
            match r {
                Ok(()) => !accept_refused(operation_type@),
                Err(e) => accept_refused(operation_type@) && e@ == "无法通过 accept_item 处理 operation_type="@
                    + operation_type@ + "，请使用对应的审阅操作"@,
            },
    {
        let op = chars_of(operation_type);
        if is_lit(&op, "skip") || is_lit(&op, "merge_suggestion") || is_lit(&op, "unresolved") || is_lit(&op, "invalid") {
            let mut m = String::from_str("无法通过 accept_item 处理 operation_type=");
            push_str(&mut m, operation_type);
            push_str(&mut m, "，请使用对应的审阅操作");
            Err(m)
        } else {
            Ok(())
        }
    }
}

} // verus!
