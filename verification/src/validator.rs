//! Checks of the JSON that the model returns at each stage of the pipeline:
//! required fields are errors when missing, expected sub-fields and
//! non-standard enumeration values are warnings.
use vstd::prelude::*;
use crate::text::{chars_of, decimal, push_decimal, push_str};
use crate::gateway::seq_eq;

verus! {

/// A JSON value as the validators read it. Objects keep their entries in
/// order; a key occurs at most once.
#[derive(Debug, PartialEq)]
pub enum JsonValue {
    Null,
    Bool(bool),
    /// A number, as written.
    Number(String),
    Str(String),
    Array(Vec<JsonValue>),
    Object(Vec<(String, JsonValue)>),
}

/// The outcome of a check: valid when there is no error.
#[derive(Debug, Clone)]
pub struct ValidationResult {
    pub valid: bool,
    pub errors: Vec<String>,
    pub warnings: Vec<String>,
}

/// The value of the first entry with `key`, searching from entry `i` on.
pub open spec fn entry_value(entries: Seq<(String, JsonValue)>, key: Seq<char>, i: int) -> Option<JsonValue>
    decreases entries.len() - i,
{
    if i < 0 || i >= entries.len() {
        None
    } else if entries[i].0@ == key {
        Some(entries[i].1)
    } else {
        entry_value(entries, key, i + 1)
    }
}

/// `serde_json::Value::get` with a key: the field of an object, nothing
/// for any other value.
pub open spec fn get(v: JsonValue, key: Seq<char>) -> Option<JsonValue> {
    match v {
        JsonValue::Object(entries) => entry_value(entries@, key, 0),
        _ => None,
    }
}

/// Whether the value has the field.
pub open spec fn has(v: JsonValue, key: Seq<char>) -> bool {
    get(v, key) is Some
}

/// The elements of a field that is an array.
pub open spec fn array_field(v: JsonValue, key: Seq<char>) -> Option<Seq<JsonValue>> {
    match get(v, key) {
        Some(JsonValue::Array(items)) => Some(items@),
        _ => None,
    }
}

/// The text of a field that is a string.
pub open spec fn str_field(v: JsonValue, key: Seq<char>) -> Option<Seq<char>> {
    match get(v, key) {
        Some(JsonValue::Str(s)) => Some(s@),
        _ => None,
    }
}

/// One message `{prefix}{field}` for each of `fields` that `v` lacks, in
/// order.
pub open spec fn missing(v: JsonValue, fields: Seq<Seq<char>>, prefix: Seq<char>) -> Seq<Seq<char>>
    decreases fields.len(),
{
    if fields.len() == 0 {
        Seq::empty()
    } else {
        missing(v, fields.drop_last(), prefix) + (if has(v, fields.last()) {
            Seq::empty()
        } else {
            seq![prefix + fields.last()]
        })
    }
}

/// `{name}[{i}] 缺少字段: `.
pub open spec fn item_prefix(name: Seq<char>, i: nat) -> Seq<char> {
    name + seq!['['] + decimal(i) + "] 缺少字段: "@
}

/// The warning for a value of `field` outside its enumeration.
pub open spec fn enum_warning(name: Seq<char>, i: nat, field: Seq<char>, value: Seq<char>) -> Seq<char> {
    name + seq!['['] + decimal(i) + "] 的 "@ + field + " '"@ + value + "' 不在标准枚举中"@
}

/// The warnings for the items of an array: the fields each item lacks and,
/// when `check` names a field, a string value of it outside `allowed`.
pub open spec fn item_warnings(
    items: Seq<JsonValue>,
    name: Seq<char>,
    fields: Seq<Seq<char>>,
    check: Option<Seq<char>>,
    allowed: Seq<Seq<char>>,
) -> Seq<Seq<char>>
    decreases items.len(),
{
    if items.len() == 0 {
        Seq::empty()
    } else {
        let i = (items.len() - 1) as nat;
        let it = items.last();
        item_warnings(items.drop_last(), name, fields, check, allowed) + missing(
            it,
            fields,
            item_prefix(name, i),
        ) + match check {
            Some(f) => match str_field(it, f) {
                Some(value) => if allowed.contains(value) {
                    Seq::empty()
                } else {
                    seq![enum_warning(name, i, f, value)]
                },
                None => Seq::empty(),
            },
            None => Seq::empty(),
        }
    }
}

/// The warnings for the items of the array field `name` (none when the
/// field is not an array).
pub open spec fn array_warnings(
    v: JsonValue,
    name: Seq<char>,
    fields: Seq<Seq<char>>,
    check: Option<Seq<char>>,
    allowed: Seq<Seq<char>>,
) -> Seq<Seq<char>> {
    match array_field(v, name) {
        Some(items) => item_warnings(items, name, fields, check, allowed),
        None => Seq::empty(),
    }
}

/// The warnings for the sub-fields an object field lacks (none when the
/// field is absent).
pub open spec fn sub_warnings(v: JsonValue, name: Seq<char>, fields: Seq<Seq<char>>) -> Seq<Seq<char>> {
    match get(v, name) {
        Some(sub) => missing(sub, fields, name + " 缺少字段: "@),
        None => Seq::empty(),
    }
}

/// The error for a root that is not an object.
pub open spec fn not_object() -> Seq<char> {
    "根元素必须是 JSON 对象"@
}

/// The prefix of the error for a missing required field.
pub open spec fn required_prefix() -> Seq<char> {
    "缺少必需字段: "@
}

pub open spec fn ingest_required() -> Seq<Seq<char>> {
    seq![
        "source_summary"@,
        "coverage_report"@,
        "entities"@,
        "concepts"@,
        "topics"@,
        "claims"@,
        "relationships"@,
        "proposed_wiki_updates"@,
    ]
}

pub open spec fn standard_relations() -> Seq<Seq<char>> {
    seq![
        "is_a"@,
        "part_of"@,
        "uses"@,
        "depends_on"@,
        "improves"@,
        "compares_with"@,
        "contradicts"@,
        "cites"@,
        "mentions"@,
        "related_to"@,
        "has_alias"@,
        "belongs_to_topic"@,
        "evaluated_on"@,
        "proposed_by"@,
        "applies_to"@,
        "derived_from"@,
    ]
}

pub open spec fn standard_decisions() -> Seq<Seq<char>> {
    seq![
        "create_new"@,
        "update_existing"@,
        "append_to_existing"@,
        "add_alias"@,
        "merge_suggestion"@,
        "skip"@,
        "needs_user_review"@,
    ]
}

/// The view of a validation result.
pub open spec fn result_view(r: ValidationResult) -> (bool, Seq<Seq<char>>, Seq<Seq<char>>) {
    (r.valid, r.errors@.map_values(|e: String| e@), r.warnings@.map_values(|w: String| w@))
}

/// A result from its errors and warnings.
pub open spec fn verdict(errors: Seq<Seq<char>>, warnings: Seq<Seq<char>>) -> (bool, Seq<Seq<char>>, Seq<Seq<char>>) {
    (errors.len() == 0, errors, warnings)
}

/// The check of a source-ingest result.
pub open spec fn ingest_check(v: JsonValue) -> (bool, Seq<Seq<char>>, Seq<Seq<char>>) {
    if !(v is Object) {
        verdict(seq![not_object()], Seq::empty())
    } else {
        verdict(
            missing(v, ingest_required(), required_prefix()),
            sub_warnings(v, "source_summary"@, seq!["title"@, "short_summary"@]) + sub_warnings(
                v,
                "coverage_report"@,
                seq!["document_sections_seen"@, "confidence_in_coverage"@],
            ) + array_warnings(
                v,
                "claims"@,
                seq!["claim"@, "confidence"@, "citation_status"@],
                None,
                Seq::empty(),
            ) + array_warnings(
                v,
                "relationships"@,
                seq!["source"@, "target"@, "relation"@, "confidence"@],
                Some("relation"@),
                standard_relations(),
            ),
        )
    }
}

proof fn lemma_missing_empty(v: JsonValue, fields: Seq<Seq<char>>, prefix: Seq<char>)
    ensures
        missing(v, fields, prefix).len() == 0 <==> forall|i: int| 0 <= i < fields.len() ==> has(v, #[trigger] fields[i]),
    decreases fields.len(),
{
    if fields.len() > 0 {
        let d = fields.drop_last();
        lemma_missing_empty(v, d, prefix);
        assert forall|i: int| 0 <= i < d.len() implies d[i] == fields[i] by {}
        if missing(v, fields, prefix).len() == 0 {
            assert forall|i: int| 0 <= i < fields.len() implies has(v, #[trigger] fields[i]) by {
                if i < d.len() {
                    assert(d[i] == fields[i]);
                }
            }
        }
        if forall|i: int| 0 <= i < fields.len() ==> has(v, #[trigger] fields[i]) {
            assert(has(v, fields[fields.len() - 1]));
            assert forall|i: int| 0 <= i < d.len() implies has(v, #[trigger] d[i]) by {
                assert(d[i] == fields[i]);
            }
        }
    }
}

proof fn lemma_missing_reports(v: JsonValue, fields: Seq<Seq<char>>, prefix: Seq<char>, i: int)
    requires
        0 <= i < fields.len(),
        !(has(v, fields[i])),
    ensures
        missing(v, fields, prefix).contains(prefix + fields[i]),
    decreases fields.len(),
{
    let d = fields.drop_last();
    if i < fields.len() - 1 {
        assert(d[i] == fields[i]);
        lemma_missing_reports(v, d, prefix, i);
        let m = missing(v, d, prefix);
        let k = choose|k: int| 0 <= k < m.len() && m[k] == prefix + fields[i];
        assert(missing(v, fields, prefix)[k] == m[k]);
    } else {
        let m = missing(v, d, prefix);
        assert(missing(v, fields, prefix)[m.len() as int] == prefix + fields[i]);
    }
}

/// Law: a source-ingest result is valid exactly when it is an object that
/// has each of the eight fields `source_summary`, `coverage_report`,
/// `entities`, `concepts`, `topics`, `claims`, `relationships` and
/// `proposed_wiki_updates`; and a missing one of them is reported as an
/// error naming it.
pub proof fn ingest_valid_iff_all_fields_present(v: JsonValue)
    ensures
        ingest_check(v).0 <==> (v is Object && has(v, "source_summary"@) && has(v, "coverage_report"@) && has(
            v,
            "entities"@,
        ) && has(v, "concepts"@) && has(v, "topics"@) && has(v, "claims"@) && has(v, "relationships"@)
            && has(v, "proposed_wiki_updates"@)),
        forall|f: Seq<char>|
            (f == "source_summary"@ || f == "coverage_report"@ || f == "entities"@ || f == "concepts"@ || f
                == "topics"@ || f == "claims"@ || f == "relationships"@ || f == "proposed_wiki_updates"@)
                && v is Object && !(has(v, f)) ==> #[trigger] ingest_check(v).1.contains("缺少必需字段: "@ + f),
{
    let fs = ingest_required();
    lemma_missing_empty(v, fs, required_prefix());
    assert(fs[0] == "source_summary"@);
    assert(fs[1] == "coverage_report"@);
    assert(fs[2] == "entities"@);
    assert(fs[3] == "concepts"@);
    assert(fs[4] == "topics"@);
    assert(fs[5] == "claims"@);
    assert(fs[6] == "relationships"@);
    assert(fs[7] == "proposed_wiki_updates"@);
    if v is Object && has(v, "source_summary"@) && has(v, "coverage_report"@) && has(v, "entities"@)
        && has(v, "concepts"@) && has(v, "topics"@) && has(v, "claims"@) && has(v, "relationships"@)
        && has(v, "proposed_wiki_updates"@) {
        assert forall|i: int| 0 <= i < fs.len() implies has(v, #[trigger] fs[i]) by {
            assert(0 <= i < 8);
        }
    }
    assert forall|f: Seq<char>|
        (f == "source_summary"@ || f == "coverage_report"@ || f == "entities"@ || f == "concepts"@ || f
            == "topics"@ || f == "claims"@ || f == "relationships"@ || f == "proposed_wiki_updates"@)
            && v is Object && !(has(v, f)) implies #[trigger] ingest_check(v).1.contains("缺少必需字段: "@ + f) by {
        let i = if f == "source_summary"@ {
            0
        } else if f == "coverage_report"@ {
            1
        } else if f == "entities"@ {
            2
        } else if f == "concepts"@ {
            3
        } else if f == "topics"@ {
            4
        } else if f == "claims"@ {
            5
        } else if f == "relationships"@ {
            6
        } else {
            7int
        };
        assert(fs[i] == f);
        lemma_missing_reports(v, fs, required_prefix(), i);
    }
}

/// The check of an entity-resolution result.
pub open spec fn resolution_check(v: JsonValue) -> (bool, Seq<Seq<char>>, Seq<Seq<char>>) {
    if !(v is Object) {
        verdict(seq![not_object()], Seq::empty())
    } else {
        verdict(
            missing(v, seq!["resolutions"@], required_prefix()),
            array_warnings(
                v,
                "resolutions"@,
                seq!["input_name"@, "decision"@, "confidence"@],
                Some("decision"@),
                standard_decisions(),
            ),
        )
    }
}

/// The check of a wiki update plan.
pub open spec fn update_plan_check(v: JsonValue) -> (bool, Seq<Seq<char>>, Seq<Seq<char>>) {
    if !(v is Object) {
        verdict(seq![not_object()], Seq::empty())
    } else {
        verdict(
            missing(v, seq!["wiki_update_plan"@], required_prefix()),
            array_warnings(
                v,
                "wiki_update_plan"@,
                seq!["operation"@, "title"@, "risk_level"@],
                None,
                Seq::empty(),
            ),
        )
    }
}

/// The check of a query answer.
pub open spec fn query_check(v: JsonValue) -> (bool, Seq<Seq<char>>, Seq<Seq<char>>) {
    if !(v is Object) {
        verdict(seq![not_object()], Seq::empty())
    } else {
        verdict(missing(v, seq!["answer"@], required_prefix()), Seq::empty())
    }
}

/// Law: an entity-resolution result is valid exactly when it is an object
/// with a `resolutions` field; a wiki update plan exactly when it is an
/// object with a `wiki_update_plan` field; a query answer exactly when it
/// is an object with an `answer` field.
pub proof fn stage_results_valid_iff_required_field(v: JsonValue)
    ensures
        resolution_check(v).0 <==> (v is Object && has(v, "resolutions"@)),
        update_plan_check(v).0 <==> (v is Object && has(v, "wiki_update_plan"@)),
        query_check(v).0 <==> (v is Object && has(v, "answer"@)),
{
    let a = seq!["resolutions"@];
    let b = seq!["wiki_update_plan"@];
    let c = seq!["answer"@];
    lemma_missing_empty(v, a, required_prefix());
    lemma_missing_empty(v, b, required_prefix());
    lemma_missing_empty(v, c, required_prefix());
    assert(a[0] == "resolutions"@);
    assert(b[0] == "wiki_update_plan"@);
    assert(c[0] == "answer"@);
}

/// The view of a vector of messages.
pub open spec fn msgs(v: Seq<String>) -> Seq<Seq<char>> {
    v.map_values(|m: String| m@)
}

/// `get`, executable.
pub(crate) fn get_field<'a>(v: &'a JsonValue, key: &str) -> (r: Option<&'a JsonValue>)
    ensures
        match (r, get(*v, key@)) {
            (Some(x), Some(y)) => *x == y,
            (None, None) => true,
            _ => false,
        },
{
    match v {
        JsonValue::Object(entries) => {
            let k = chars_of(key);
            let mut i: usize = 0;
            while i < entries.len()
                invariant
                    i <= entries@.len(),
                    k@ == key@,
                    get(*v, key@) == entry_value(entries@, key@, 0),
                    entry_value(entries@, key@, 0) == entry_value(entries@, key@, i as int),
                decreases entries.len() - i,
            {
                let e = chars_of(entries[i].0.as_str());
                if seq_eq(&e, &k) {
                    return Some(&entries[i].1);
                }
                i = i + 1;
            }
            None
        },
        _ => None,
    }
}

fn push_missing(out: &mut Vec<String>, v: &JsonValue, fields: &Vec<&str>, prefix: &String)
    ensures
        msgs(final(out)@) == msgs(old(out)@) + missing(
            *v,
            fields@.map_values(|f: &str| f@),
            prefix@,
        ),
{
    let ghost fs = fields@.map_values(|f: &str| f@);
    let ghost start = msgs(out@);
    let mut i: usize = 0;
    assert(fs.take(0) =~= Seq::<Seq<char>>::empty());
    assert(start + missing(*v, fs.take(0), prefix@) =~= start);
    while i < fields.len()
        invariant
            i <= fields@.len(),
            fs == fields@.map_values(|f: &str| f@),
            msgs(out@) == start + missing(*v, fs.take(i as int), prefix@),
        decreases fields.len() - i,
    {
        let ghost before = msgs(out@);
        assert(fs.take(i + 1).drop_last() =~= fs.take(i as int));
        assert(fs.take(i + 1).last() == fields@[i as int]@);
        if get_field(v, fields[i]).is_none() {
            let mut m = prefix.clone();
            assert(m@ == prefix@);
            push_str(&mut m, fields[i]);
            out.push(m);
            assert(msgs(out@) =~= before.push(prefix@ + fields@[i as int]@));
        }
        assert(msgs(out@) =~= start + missing(*v, fs.take(i + 1), prefix@));
        i = i + 1;
    }
    assert(fs.take(fields@.len() as int) =~= fs);
}

fn any_eq(v: &Vec<&str>, s: &String) -> (b: bool)
    ensures
        b == v@.map_values(|f: &str| f@).contains(s@),
{
    let c = chars_of(s.as_str());
    let mut i: usize = 0;
    while i < v.len()
        invariant
            i <= v@.len(),
            c@ == s@,
            forall|k: int| 0 <= k < i ==> v@[k]@ != s@,
        decreases v.len() - i,
    {
        let x = chars_of(v[i]);
        if seq_eq(&x, &c) {
            assert(v@.map_values(|f: &str| f@)[i as int] == s@);
            return true;
        }
        i = i + 1;
    }
    let ghost vs = v@.map_values(|f: &str| f@);
    assert forall|k: int| 0 <= k < vs.len() implies #[trigger] vs[k] != s@ by {
        assert(vs[k] == v@[k]@);
    }
    false
}

fn item_prefix_exec(name: &str, i: usize) -> (p: String)
    ensures
        p@ == item_prefix(name@, i as nat),
{
    let mut p = String::from_str(name);
    p.push('[');
    push_decimal(&mut p, i as u64);
    push_str(&mut p, "] 缺少字段: ");
    p
}

fn push_array_warnings(
    out: &mut Vec<String>,
    v: &JsonValue,
    name: &str,
    fields: &Vec<&str>,
    check: Option<&str>,
    allowed: &Vec<&str>,
)
    ensures
        msgs(final(out)@) == msgs(old(out)@) + array_warnings(
            *v,
            name@,
            fields@.map_values(|f: &str| f@),
            match check {
                Some(c) => Some(c@),
                None => None,
            },
            allowed@.map_values(|f: &str| f@),
        ),
{
    let ghost fs = fields@.map_values(|f: &str| f@);
    let ghost ck: Option<Seq<char>> = match check {
        Some(c) => Some(c@),
        None => None,
    };
    let ghost al = allowed@.map_values(|f: &str| f@);
    match get_field(v, name) {
        Some(JsonValue::Array(items)) => {
            let ghost start = msgs(out@);
            let mut i: usize = 0;
            assert(items@.take(0) =~= Seq::<JsonValue>::empty());
            assert(start + item_warnings(items@.take(0), name@, fs, ck, al) =~= start);
            while i < items.len()
                invariant
                    i <= items@.len(),
                    fs == fields@.map_values(|f: &str| f@),
                    al == allowed@.map_values(|f: &str| f@),
                    ck == (match check {
                        Some(c) => Some(c@),
                        None => None,
                    }),
                    msgs(out@) == start + item_warnings(items@.take(i as int), name@, fs, ck, al),
                decreases items.len() - i,
            {
                let it = &items[i];
                let ghost before = msgs(out@);
                assert(items@.take(i + 1).drop_last() =~= items@.take(i as int));
                assert(items@.take(i + 1).last() == items@[i as int]);
                let prefix = item_prefix_exec(name, i);
                push_missing(out, it, fields, &prefix);
                let ghost mid = msgs(out@);
                if let Some(c) = check {
                    if let Some(JsonValue::Str(value)) = get_field(it, c) {
                        if !any_eq(allowed, value) {
                            let mut m = String::from_str(name);
                            m.push('[');
                            push_decimal(&mut m, i as u64);
                            push_str(&mut m, "] 的 ");
                            push_str(&mut m, c);
                            push_str(&mut m, " '");
                            push_str(&mut m, value.as_str());
                            push_str(&mut m, "' 不在标准枚举中");
                            assert(m@ =~= enum_warning(name@, i as nat, c@, value@));
                            out.push(m);
                            assert(msgs(out@) =~= mid.push(
                                enum_warning(name@, i as nat, c@, value@),
                            ));
                        }
                    }
                }
                assert(msgs(out@) =~= start + item_warnings(
                    items@.take(i + 1),
                    name@,
                    fs,
                    ck,
                    al,
                ));
                i = i + 1;
            }
            assert(items@.take(items@.len() as int) =~= items@);
        },
        _ => {
            assert(msgs(out@) =~= msgs(out@) + Seq::<Seq<char>>::empty());
        },
    }
}

fn push_sub_warnings(out: &mut Vec<String>, v: &JsonValue, name: &str, fields: &Vec<&str>)
    ensures
        msgs(final(out)@) == msgs(old(out)@) + sub_warnings(
            *v,
            name@,
            fields@.map_values(|f: &str| f@),
        ),
{
    match get_field(v, name) {
        Some(sub) => {
            let mut prefix = String::from_str(name);
            push_str(&mut prefix, " 缺少字段: ");
            push_missing(out, sub, fields, &prefix);
        },
        None => {
            assert(msgs(out@) =~= msgs(out@) + Seq::<Seq<char>>::empty());
        },
    }
}

fn not_object_result() -> (r: ValidationResult)
    ensures
        result_view(r) == verdict(seq![not_object()], Seq::empty()),
{
    let mut errors: Vec<String> = Vec::new();
    errors.push(String::from_str("根元素必须是 JSON 对象"));
    let warnings: Vec<String> = Vec::new();
    let r = ValidationResult { valid: false, errors, warnings };
    assert(result_view(r).1 =~= seq![not_object()]);
    assert(result_view(r).2 =~= Seq::<Seq<char>>::empty());
    r
}

fn finish(errors: Vec<String>, warnings: Vec<String>) -> (r: ValidationResult)
    ensures
        result_view(r) == verdict(msgs(errors@), msgs(warnings@)),
{
    let valid = errors.len() == 0;
    ValidationResult { valid, errors, warnings }
}

fn required(v: &JsonValue, fields: &Vec<&str>) -> (errors: Vec<String>)
    ensures
        msgs(errors@) == missing(*v, fields@.map_values(|f: &str| f@), required_prefix()),
{
    let mut errors: Vec<String> = Vec::new();
    let prefix = String::from_str("缺少必需字段: ");
    push_missing(&mut errors, v, fields, &prefix);
    assert(msgs(errors@) =~= missing(*v, fields@.map_values(|f: &str| f@), required_prefix()));
    errors
}

/// Checks the result of the source-ingest stage.
pub fn validate_ingest_result(json: &JsonValue) -> (r: ValidationResult)
    ensures
        result_view(r) == ingest_check(*json),
{
    if !matches!(json, JsonValue::Object(_)) {
        return not_object_result();
    }
    let req = vec![
        "source_summary",
        "coverage_report",
        "entities",
        "concepts",
        "topics",
        "claims",
        "relationships",
        "proposed_wiki_updates",
    ];
    proof {
        reveal_strlit("source_summary");
    }
    let errors = required(json, &req);
    assert(req@.map_values(|f: &str| f@) =~= ingest_required());
    let mut warnings: Vec<String> = Vec::new();
    let ss = vec!["title", "short_summary"];
    push_sub_warnings(&mut warnings, json, "source_summary", &ss);
    assert(ss@.map_values(|f: &str| f@) =~= seq!["title"@, "short_summary"@]);
    let ghost w1 = msgs(warnings@);
    let cr = vec!["document_sections_seen", "confidence_in_coverage"];
    push_sub_warnings(&mut warnings, json, "coverage_report", &cr);
    assert(cr@.map_values(|f: &str| f@) =~= seq!["document_sections_seen"@, "confidence_in_coverage"@]);
    let cl = vec!["claim", "confidence", "citation_status"];
    let none: Vec<&str> = Vec::new();
    push_array_warnings(&mut warnings, json, "claims", &cl, None, &none);
    assert(cl@.map_values(|f: &str| f@) =~= seq!["claim"@, "confidence"@, "citation_status"@]);
    assert(none@.map_values(|f: &str| f@) =~= Seq::<Seq<char>>::empty());
    let rl = vec!["source", "target", "relation", "confidence"];
    let rels = vec![
        "is_a",
        "part_of",
        "uses",
        "depends_on",
        "improves",
        "compares_with",
        "contradicts",
        "cites",
        "mentions",
        "related_to",
        "has_alias",
        "belongs_to_topic",
        "evaluated_on",
        "proposed_by",
        "applies_to",
        "derived_from",
    ];
    push_array_warnings(&mut warnings, json, "relationships", &rl, Some("relation"), &rels);
    assert(rl@.map_values(|f: &str| f@) =~= seq!["source"@, "target"@, "relation"@, "confidence"@]);
    assert(rels@.map_values(|f: &str| f@) =~= standard_relations());
    let r = finish(errors, warnings);
    assert(result_view(r) =~~= ingest_check(*json));
    r
}

/// Checks the result of the entity-resolution stage.
pub fn validate_resolution_result(json: &JsonValue) -> (r: ValidationResult)
    ensures
        result_view(r) == resolution_check(*json),
{
    if !matches!(json, JsonValue::Object(_)) {
        return not_object_result();
    }
    let req = vec!["resolutions"];
    let errors = required(json, &req);
    assert(req@.map_values(|f: &str| f@) =~= seq!["resolutions"@]);
    let mut warnings: Vec<String> = Vec::new();
    let fs = vec!["input_name", "decision", "confidence"];
    let ds = vec![
        "create_new",
        "update_existing",
        "append_to_existing",
        "add_alias",
        "merge_suggestion",
        "skip",
        "needs_user_review",
    ];
    push_array_warnings(&mut warnings, json, "resolutions", &fs, Some("decision"), &ds);
    assert(fs@.map_values(|f: &str| f@) =~= seq!["input_name"@, "decision"@, "confidence"@]);
    assert(ds@.map_values(|f: &str| f@) =~= standard_decisions());
    assert(msgs(warnings@) =~= Seq::<Seq<char>>::empty() + array_warnings(
        *json,
        "resolutions"@,
        seq!["input_name"@, "decision"@, "confidence"@],
        Some("decision"@),
        standard_decisions(),
    ));
    finish(errors, warnings)
}

/// Checks a wiki update plan.
pub fn validate_update_plan(json: &JsonValue) -> (r: ValidationResult)
    ensures
        result_view(r) == update_plan_check(*json),
{
    if !matches!(json, JsonValue::Object(_)) {
        return not_object_result();
    }
    let req = vec!["wiki_update_plan"];
    let errors = required(json, &req);
    assert(req@.map_values(|f: &str| f@) =~= seq!["wiki_update_plan"@]);
    let mut warnings: Vec<String> = Vec::new();
    let fs = vec!["operation", "title", "risk_level"];
    let none: Vec<&str> = Vec::new();
    push_array_warnings(&mut warnings, json, "wiki_update_plan", &fs, None, &none);
    assert(fs@.map_values(|f: &str| f@) =~= seq!["operation"@, "title"@, "risk_level"@]);
    assert(none@.map_values(|f: &str| f@) =~= Seq::<Seq<char>>::empty());
    assert(msgs(warnings@) =~= Seq::<Seq<char>>::empty() + array_warnings(
        *json,
        "wiki_update_plan"@,
        seq!["operation"@, "title"@, "risk_level"@],
        None,
        Seq::empty(),
    ));
    finish(errors, warnings)
}

/// Checks the answer of a query.
pub fn validate_query_result(json: &JsonValue) -> (r: ValidationResult)
    ensures
        result_view(r) == query_check(*json),
{
    if !matches!(json, JsonValue::Object(_)) {
        return not_object_result();
    }
    let req = vec!["answer"];
    let errors = required(json, &req);
    assert(req@.map_values(|f: &str| f@) =~= seq!["answer"@]);
    let warnings: Vec<String> = Vec::new();
    assert(msgs(warnings@) =~= Seq::<Seq<char>>::empty());
    finish(errors, warnings)
}

} // verus!
