//! Merging the page plans of a wiki update that name the same page: the
//! first plan for a name stays, and the evidence of the later ones is
//! gathered into it.
use vstd::prelude::*;
use vstd::pervasive::VecAdditionalExecFns;
use crate::dedup::{normalized, DedupService};
use crate::gateway::seq_eq;
use crate::text::chars_of;
use crate::validator::{get, get_field, JsonValue};

verus! {

/// The evidence of a plan: none, the items of an array, or another value.
pub enum Evidence {
    Absent,
    Items(Seq<JsonValue>),
    Other(JsonValue),
}

/// The title a plan goes by: its `title` field, or its `canonical_name`
/// field when it has no `title`, if that field is a string; empty
/// otherwise.
pub open spec fn plan_title(plan: JsonValue) -> Seq<char> {
    let f = match get(plan, "title"@) {
        Some(v) => Some(v),
        None => get(plan, "canonical_name"@),
    };
    match f {
        Some(JsonValue::Str(s)) => s@,
        _ => seq![],
    }
}

/// The name by which plans are merged: the normalised title.
pub open spec fn plan_key(plan: JsonValue) -> Seq<char> {
    normalized(plan_title(plan))
}

/// The evidence field of a value.
pub open spec fn evidence_of(v: JsonValue) -> Evidence {
    match get(v, "evidence"@) {
        None => Evidence::Absent,
        Some(JsonValue::Array(a)) => Evidence::Items(a@),
        Some(x) => Evidence::Other(x),
    }
}

/// The evidence of a kept plan after a later plan with evidence `added` is
/// merged into it: arrays are concatenated, missing evidence is taken over
/// (when the kept plan is an object), anything else stays.
pub open spec fn merge_evidence(kept: Evidence, added: Evidence, is_object: bool) -> Evidence {
    match added {
        Evidence::Absent => kept,
        _ => match kept {
            Evidence::Absent => if is_object {
                added
            } else {
                kept
            },
            Evidence::Items(a) => match added {
                Evidence::Items(b) => Evidence::Items(a + b),
                _ => kept,
            },
            Evidence::Other(_) => kept,
        },
    }
}

/// The first group from `i` on whose first plan has key `k`.
pub open spec fn group_of(plans: Seq<JsonValue>, g: Seq<(int, Evidence)>, k: Seq<char>, i: int) -> Option<int>
    decreases g.len() - i,
{
    if i < 0 || i >= g.len() {
        None
    } else if plan_key(plans[g[i].0]) == k {
        Some(i)
    } else {
        group_of(plans, g, k, i + 1)
    }
}

/// The groups of plans, in the order of their first plans: each the index
/// of its first plan and the evidence gathered from the plans with its key.
/// Plans whose key is empty are dropped.
pub open spec fn plan_groups(plans: Seq<JsonValue>) -> Seq<(int, Evidence)>
    decreases plans.len(),
{
    if plans.len() == 0 {
        seq![]
    } else {
        let g = plan_groups(plans.drop_last());
        let p = plans.last();
        let k = plan_key(p);
        if k.len() == 0 {
            g
        } else {
            match group_of(plans, g, k, 0) {
                Some(j) => g.update(
                    j,
                    (g[j].0, merge_evidence(g[j].1, evidence_of(p), plans[g[j].0] is Object)),
                ),
                None => g.push(((plans.len() - 1) as int, evidence_of(p))),
            }
        }
    }
}

/// The index of the first entry with `key` from `i` on.
pub open spec fn entry_index(entries: Seq<(String, JsonValue)>, key: Seq<char>, i: int) -> Option<int>
    decreases entries.len() - i,
{
    if i < 0 || i >= entries.len() {
        None
    } else if entries[i].0@ == key {
        Some(i)
    } else {
        entry_index(entries, key, i + 1)
    }
}

/// Whether `v` is the value that evidence `ev` stands for.
pub open spec fn holds_evidence(v: JsonValue, ev: Evidence) -> bool {
    match ev {
        Evidence::Items(s) => v matches JsonValue::Array(a) && a@ == s,
        Evidence::Other(x) => v == x,
        Evidence::Absent => false,
    }
}

/// Whether `out` is the plan `first` with its evidence made `ev`: the
/// evidence entry holds it (appended at the end when `first` had none),
/// every other entry is as in `first`.
pub open spec fn with_evidence(out: JsonValue, first: JsonValue, ev: Evidence) -> bool {
    match first {
        JsonValue::Object(e0) => match out {
            JsonValue::Object(e1) => match entry_index(e0@, "evidence"@, 0) {
                Some(k) => {
                    &&& e1@.len() == e0@.len()
                    &&& forall|j: int| 0 <= j < e0@.len() && j != k ==> #[trigger] e1@[j] == e0@[j]
                    &&& e1@[k].0@ == "evidence"@
                    &&& holds_evidence(e1@[k].1, ev)
                },
                None => if ev is Absent {
                    e1@ == e0@
                } else {
                    &&& e1@.len() == e0@.len() + 1
                    &&& forall|j: int| 0 <= j < e0@.len() ==> #[trigger] e1@[j] == e0@[j]
                    &&& e1@[e0@.len() as int].0@ == "evidence"@
                    &&& holds_evidence(e1@[e0@.len() as int].1, ev)
                },
            },
            _ => false,
        },
        _ => out == first && ev is Absent,
    }
}

/// Evidence that is not an array is held as `Other`.
pub open spec fn evidence_ok(ev: Evidence) -> bool {
    ev matches Evidence::Other(x) ==> !(x is Array)
}

// ---------------------------------------------------------------------------
// Facts
// ---------------------------------------------------------------------------

proof fn lemma_entry_index(entries: Seq<(String, JsonValue)>, key: Seq<char>, i: int)
    requires
        0 <= i,
    ensures
        match entry_index(entries, key, i) {
            Some(k) => {
                &&& i <= k < entries.len()
                &&& entries[k].0@ == key
                &&& forall|q: int| i <= q < k ==> (#[trigger] entries[q]).0@ != key
                &&& crate::validator::entry_value(entries, key, i) == Some(entries[k].1)
            },
            None => {
                &&& forall|q: int| i <= q < entries.len() ==> (#[trigger] entries[q]).0@ != key
                &&& crate::validator::entry_value(entries, key, i) is None
            },
        },
    decreases entries.len() - i,
{
    if i < entries.len() && entries[i].0@ != key {
        lemma_entry_index(entries, key, i + 1);
    }
}

/// Entries that agree before `k` and hold `key` at `k` give the value at
/// `k` for `key`.
proof fn lemma_entry_value_at(entries: Seq<(String, JsonValue)>, key: Seq<char>, k: int, i: int)
    requires
        0 <= i <= k < entries.len(),
        entries[k].0@ == key,
        forall|q: int| i <= q < k ==> (#[trigger] entries[q]).0@ != key,
    ensures
        crate::validator::entry_value(entries, key, i) == Some(entries[k].1),
        entry_index(entries, key, i) == Some(k),
    decreases k - i,
{
    if i < k {
        lemma_entry_value_at(entries, key, k, i + 1);
    }
}

/// A value that `with_evidence` relates to `first` has evidence `ev`.
proof fn lemma_evidence_after(out: JsonValue, first: JsonValue, ev: Evidence)
    requires
        with_evidence(out, first, ev),
        evidence_ok(ev),
    ensures
        evidence_of(out) == ev,
        out is Object <==> first is Object,
{
    match first {
        JsonValue::Object(e0) => {
            match out {
                JsonValue::Object(e1) => {
                    lemma_entry_index(e0@, "evidence"@, 0);
                    match entry_index(e0@, "evidence"@, 0) {
                        Some(k) => {
                            assert forall|q: int| 0 <= q < k implies (#[trigger] e1@[q]).0@ != "evidence"@ by {
                                assert(e1@[q] == e0@[q]);
                            }
                            lemma_entry_value_at(e1@, "evidence"@, k, 0);
                        },
                        None => {
                            if ev is Absent {
                                assert(e1@ == e0@);
                            } else {
                                let k = e0@.len() as int;
                                assert forall|q: int| 0 <= q < k implies (#[trigger] e1@[q]).0@ != "evidence"@ by {
                                    assert(e1@[q] == e0@[q]);
                                }
                                lemma_entry_value_at(e1@, "evidence"@, k, 0);
                            }
                        },
                    }
                },
                _ => {},
            }
        },
        _ => {},
    }
}

/// A plan is its own plan with its own evidence.
proof fn lemma_with_own_evidence(p: JsonValue)
    ensures
        with_evidence(p, p, evidence_of(p)),
        evidence_ok(evidence_of(p)),
{
    match p {
        JsonValue::Object(e) => {
            lemma_entry_index(e@, "evidence"@, 0);
            match entry_index(e@, "evidence"@, 0) {
                Some(k) => {},
                None => {},
            }
        },
        _ => {},
    }
}

/// Merging through an intermediate value: if `mid` is `first` with
/// evidence `ev1`, and `out` is `mid` with `mid`'s evidence merged with
/// `added`, then `out` is `first` with `ev1` merged with `added`.
proof fn lemma_merge_through(out: JsonValue, mid: JsonValue, first: JsonValue, ev1: Evidence, added: Evidence)
    requires
        with_evidence(mid, first, ev1),
        evidence_ok(ev1),
        evidence_ok(added),
        with_evidence(out, mid, merge_evidence(evidence_of(mid), added, mid is Object)),
    ensures
        with_evidence(out, first, merge_evidence(ev1, added, first is Object)),
        evidence_ok(merge_evidence(ev1, added, first is Object)),
{
    lemma_evidence_after(mid, first, ev1);
    let ev2 = merge_evidence(ev1, added, first is Object);
    match first {
        JsonValue::Object(e0) => {
            let e1 = match mid {
                JsonValue::Object(e) => e,
                _ => e0,
            };
            let e2 = match out {
                JsonValue::Object(e) => e,
                _ => e0,
            };
            lemma_entry_index(e0@, "evidence"@, 0);
            lemma_entry_index(e1@, "evidence"@, 0);
            match entry_index(e0@, "evidence"@, 0) {
                Some(k) => {
                    assert forall|q: int| 0 <= q < k implies (#[trigger] e1@[q]).0@ != "evidence"@ by {
                        assert(e1@[q] == e0@[q]);
                    }
                    lemma_entry_value_at(e1@, "evidence"@, k, 0);
                    assert forall|j: int| 0 <= j < e0@.len() && j != k implies #[trigger] e2@[j] == e0@[j] by {
                        assert(e2@[j] == e1@[j]);
                    }
                },
                None => {
                    if ev1 is Absent {
                        assert(e1@ == e0@);
                    } else {
                        let k = e0@.len() as int;
                        assert forall|q: int| 0 <= q < k implies (#[trigger] e1@[q]).0@ != "evidence"@ by {
                            assert(e1@[q] == e0@[q]);
                        }
                        lemma_entry_value_at(e1@, "evidence"@, k, 0);
                        assert forall|j: int| 0 <= j < e0@.len() implies #[trigger] e2@[j] == e0@[j] by {
                            assert(e2@[j] == e1@[j]);
                        }
                    }
                },
            }
        },
        _ => {},
    }
}

// ---------------------------------------------------------------------------
// Computation
// ---------------------------------------------------------------------------

/// The index of the first entry with `key`.
fn find_entry(entries: &Vec<(String, JsonValue)>, key: &str) -> (r: Option<usize>)
    ensures
        match (r, entry_index(entries@, key@, 0)) {
            (Some(a), Some(b)) => a == b,
            (None, None) => true,
            _ => false,
        },
{
    let k = chars_of(key);
    let mut i: usize = 0;
    while i < entries.len()
        invariant
            i <= entries@.len(),
            k@ == key@,
            entry_index(entries@, key@, 0) == entry_index(entries@, key@, i as int),
        decreases entries.len() - i,
    {
        let e = chars_of(entries[i].0.as_str());
        if seq_eq(&e, &k) {
            return Some(i);
        }
        i = i + 1;
    }
    None
}

/// The title of a plan (see `plan_title`).
fn title_of(plan: &JsonValue) -> (t: String)
    ensures
        t@ == plan_title(*plan),
{
    let f = match get_field(plan, "title") {
        Some(v) => Some(v),
        None => get_field(plan, "canonical_name"),
    };
    match f {
        Some(JsonValue::Str(s)) => s.clone(),
        _ => String::new(),
    }
}

/// The evidence value of a plan, moved out of it.
fn take_evidence(plan: JsonValue) -> (r: Option<JsonValue>)
    ensures
        match r {
            Some(v) => get(plan, "evidence"@) == Some(v),
            None => get(plan, "evidence"@) is None,
        },
{
    match plan {
        JsonValue::Object(mut entries) => {
            let ghost e0 = entries@;
            proof {
                lemma_entry_index(e0, "evidence"@, 0);
            }
            match find_entry(&entries, "evidence") {
                Some(k) => {
                    let mut slot: (String, JsonValue) = (String::new(), JsonValue::Null);
                    entries.set_and_swap(k, &mut slot);
                    Some(slot.1)
                },
                None => None,
            }
        },
        _ => None,
    }
}

/// `existing` with the evidence of `plan` merged into it (see
/// `merge_evidence`).
fn add_evidence(existing: JsonValue, plan: JsonValue) -> (r: JsonValue)
    ensures
        with_evidence(r, existing, merge_evidence(evidence_of(existing), evidence_of(plan), existing is Object)),
{
    let ghost pe = evidence_of(plan);
    let added = take_evidence(plan);
    let ghost ex = existing;
    proof {
        lemma_with_own_evidence(ex);
    }
    match added {
        None => existing,
        Some(value) => match existing {
            JsonValue::Object(mut entries) => {
                let ghost e0 = entries@;
                proof {
                    lemma_entry_index(e0, "evidence"@, 0);
                    reveal_strlit("evidence");
                }
                match find_entry(&entries, "evidence") {
                    Some(k) => {
                        let both_arrays = match (&entries[k].1, &value) {
                            (JsonValue::Array(_), JsonValue::Array(_)) => true,
                            _ => false,
                        };
                        if both_arrays {
                            let mut slot: (String, JsonValue) = (String::new(), JsonValue::Null);
                            entries.set_and_swap(k, &mut slot);
                            let (key, old_value) = slot;
                            match (old_value, value) {
                                (JsonValue::Array(mut a1), JsonValue::Array(mut a2)) => {
                                    let ghost s1 = a1@;
                                    let ghost s2 = a2@;
                                    a1.append(&mut a2);
                                    assert(a1@ == s1 + s2);
                                    entries.set(k, (key, JsonValue::Array(a1)));
                                },
                                _ => {},
                            }
                            JsonValue::Object(entries)
                        } else {
                            JsonValue::Object(entries)
                        }
                    },
                    None => {
                        entries.push((String::from_str("evidence"), value));
                        JsonValue::Object(entries)
                    },
                }
            },
            other => other,
        },
    }
}

impl DedupService {
    /// Merges the plans that name the same page (see `plan_groups`): plans
    /// are taken in order; a plan whose normalised title was not seen
    /// before is kept, one whose title was seen has its evidence merged
    /// into the kept plan (see `with_evidence`), and one without a title is
    /// dropped.
    pub fn dedup_update_plans(plans: Vec<JsonValue>) -> (merged: Vec<JsonValue>)
        ensures
            merged@.len() == plan_groups(plans@).len(),
            forall|i: int|
                0 <= i < merged@.len() ==> with_evidence(
                    #[trigger] merged@[i],
                    plans@[plan_groups(plans@)[i].0],
                    plan_groups(plans@)[i].1,
                ),
    {
        let ghost orig = plans@;
        let mut plans = plans;
        let mut merged: Vec<JsonValue> = Vec::new();
        let mut keys: Vec<Vec<char>> = Vec::new();
        let mut i: usize = 0;
        while i < plans.len()
            invariant
                i <= plans@.len() == orig.len(),
                forall|q: int| i <= q < orig.len() ==> #[trigger] plans@[q] == orig[q],
                merged@.len() == keys@.len() == plan_groups(orig.take(i as int)).len(),
                forall|j: int|
                    0 <= j < keys@.len() ==> {
                        let g = plan_groups(orig.take(i as int));
                        &&& 0 <= g[j].0 < i
                        &&& (#[trigger] keys@[j])@ == plan_key(orig[g[j].0])
                        &&& with_evidence(merged@[j], orig[g[j].0], g[j].1)
                        &&& evidence_ok(g[j].1)
                    },
            decreases plans.len() - i,
        {
            let ghost g = plan_groups(orig.take(i as int));
            let ghost t = orig.take(i + 1);
            assert(t.drop_last() =~= orig.take(i as int));
            assert(t.last() == orig[i as int]);
            proof {
                assert forall|q: int| 0 <= q < g.len() implies {
                    &&& 0 <= #[trigger] g[q].0 < i
                    &&& keys@[q]@ == plan_key(orig[g[q].0])
                    &&& with_evidence(merged@[q], orig[g[q].0], g[q].1)
                    &&& evidence_ok(g[q].1)
                } by {
                    assert(keys@[q]@ == plan_key(orig[g[q].0]));
                }
            }
            let mut p = JsonValue::Null;
            plans.set_and_swap(i, &mut p);
            let title = title_of(&p);
            let key_s = DedupService::normalize_name(title.as_str());
            let key = chars_of(key_s.as_str());
            if key.len() == 0 {
                assert(plan_groups(t) == g);
                i = i + 1;
                continue;
            }
            // The group of this key, if there is one.
            let mut j: usize = 0;
            let mut found: Option<usize> = None;
            while j < keys.len() && found.is_none()
                invariant
                    j <= keys@.len() == g.len(),
                    i < orig.len(),
                    key@ == plan_key(p),
                    p == orig[i as int],
                    t == orig.take(i + 1),
                    forall|q: int| 0 <= q < g.len() ==> 0 <= #[trigger] g[q].0 < i,
                    forall|q: int| 0 <= q < keys@.len() ==> (#[trigger] keys@[q])@ == plan_key(orig[g[q].0]),
                    match found {
                        Some(x) => x < g.len() && group_of(t, g, key@, 0) == Some(x as int),
                        None => group_of(t, g, key@, 0) == group_of(t, g, key@, j as int),
                    },
                decreases keys.len() - j + (if found is None { 1int } else { 0int }),
            {
                assert(t[g[j as int].0] == orig[g[j as int].0]);
                if seq_eq(&keys[j], &key) {
                    found = Some(j);
                } else {
                    j = j + 1;
                }
            }
            match found {
                Some(j) => {
                    let mut mid = JsonValue::Null;
                    merged.set_and_swap(j, &mut mid);
                    let ghost m = mid;
                    let out = add_evidence(mid, p);
                    proof {
                        lemma_with_own_evidence(p);
                        lemma_merge_through(out, m, orig[g[j as int].0], g[j as int].1, evidence_of(p));
                        lemma_evidence_after(m, orig[g[j as int].0], g[j as int].1);
                    }
                    merged.set(j, out);
                    assert(plan_groups(t) == g.update(
                        j as int,
                        (g[j as int].0, merge_evidence(g[j as int].1, evidence_of(p), t[g[j as int].0] is Object)),
                    ));
                },
                None => {
                    proof {
                        lemma_with_own_evidence(p);
                    }
                    merged.push(p);
                    keys.push(key);
                    assert(plan_groups(t) == g.push((i as int, evidence_of(p))));
                },
            }
            i = i + 1;
        }
        assert(orig.take(orig.len() as int) =~= orig);
        proof {
            let g = plan_groups(orig);
            assert forall|q: int| 0 <= q < merged@.len() implies with_evidence(
                #[trigger] merged@[q],
                orig[g[q].0],
                g[q].1,
            ) by {
                assert(keys@[q]@ == plan_key(orig[g[q].0]));
            }
        }
        merged
    }
}

} // verus!
