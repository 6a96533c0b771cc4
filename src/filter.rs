use crate::model::{HydratedRecord, Language, StoredResult};
use vstd::prelude::*;

verus! {

/// A language entry is present and its name equals the target exactly.
pub open spec fn language_matches(entry: Option<Language>, target: Seq<char>) -> bool {
    match entry {
        Some(l) => l.name@ == target,
        None => false,
    }
}

/// How many entries of a language list match the target.
pub open spec fn match_count(languages: Seq<Option<Language>>, target: Seq<char>) -> nat
    decreases languages.len(),
{
    if languages.len() == 0 {
        0
    } else {
        match_count(languages.drop_last(), target) + if language_matches(
            languages.last(),
            target,
        ) {
            1nat
        } else {
            0nat
        }
    }
}

/// How many times a hydration slot is stored: once per matching language
/// entry of a present record, never for an absent one.
pub open spec fn record_match_count(record: Option<HydratedRecord>, target: Seq<char>) -> nat {
    match record {
        Some(r) => match_count(r.languages@, target),
        None => 0,
    }
}

/// The indices of the hydration slots to probe and store, in slot order,
/// each repeated once per matching language entry.
pub open spec fn store_plan(records: Seq<Option<HydratedRecord>>, target: Seq<char>) -> Seq<usize>
    decreases records.len(),
{
    if records.len() == 0 {
        Seq::empty()
    } else {
        store_plan(records.drop_last(), target) + Seq::new(
            record_match_count(records.last(), target),
            |j: int| (records.len() - 1) as usize,
        )
    }
}

/// Counts the entries of `languages` whose name equals `target` exactly,
/// skipping absent entries.
pub fn count_matches(languages: &Vec<Option<Language>>, target: &String) -> (r: usize)
    ensures
        r == match_count(languages@, target@),
{
    let mut count: usize = 0;
    let mut i: usize = 0;
    while i < languages.len()
        invariant
            i <= languages@.len(),
            count <= i,
            count == match_count(languages@.subrange(0, i as int), target@),
        decreases languages@.len() - i,
    {
        proof {
            assert(languages@.subrange(0, i + 1).drop_last() == languages@.subrange(0, i as int));
        }
        match &languages[i] {
            Some(l) => {
                if l.name == *target {
                    count += 1;
                }
            },
            None => {},
        }
        i += 1;
    }
    assert(languages@.subrange(0, i as int) == languages@);
    count
}

/// Which hydration slots lead to a stored result: the index of each present
/// record, repeated once for each of its language entries that equals
/// `target`. The caller probes and stores once per index returned, in order.
pub fn matching_records(records: &Vec<Option<HydratedRecord>>, target: &String) -> (r: Vec<usize>)
    ensures
        r@ == store_plan(records@, target@),
{
    let mut plan: Vec<usize> = Vec::new();
    let mut i: usize = 0;
    while i < records.len()
        invariant
            i <= records@.len(),
            plan@ == store_plan(records@.subrange(0, i as int), target@),
        decreases records@.len() - i,
    {
        let ghost prefix = records@.subrange(0, i + 1);
        proof {
            assert(prefix.drop_last() == records@.subrange(0, i as int));
        }
        let times: usize = match &records[i] {
            Some(rec) => count_matches(&rec.languages, target),
            None => 0,
        };
        let ghost before = plan@;
        let mut k: usize = 0;
        while k < times
            invariant
                i < records@.len(),
                k <= times,
                plan@ == before + Seq::new(k as nat, |j: int| i),
            decreases times - k,
        {
            plan.push(i);
            k += 1;
            assert(plan@ == before + Seq::new(k as nat, |j: int| i));
        }
        assert(Seq::new(times as nat, |j: int| i) == Seq::new(
            record_match_count(prefix.last(), target@),
            |j: int| (prefix.len() - 1) as usize,
        ));
        i += 1;
    }
    assert(records@.subrange(0, i as int) == records@);
    plan
}

/// The result stored for a matching record, from the two existence probes.
pub fn stored_result(record: &HydratedRecord, manifest_present: bool, lock_present: bool) -> (r:
    StoredResult)
    ensures
        r.opaque_id == record.opaque_id,
        r.display_name == record.display_name,
        r.manifest_present == manifest_present,
        r.lock_present == lock_present,
{
    StoredResult {
        opaque_id: record.opaque_id.clone(),
        display_name: record.display_name.clone(),
        manifest_present,
        lock_present,
    }
}

} // verus!

verus! {

/// A hydration slot holds a present record with an entry equal to the target.
pub open spec fn record_matches(record: Option<HydratedRecord>, target: Seq<char>) -> bool {
    match record {
        Some(r) => exists|k: int|
            0 <= k < r.languages@.len() && language_matches(#[trigger] r.languages@[k], target),
        None => false,
    }
}

proof fn lemma_match_count_positive(languages: Seq<Option<Language>>, target: Seq<char>)
    ensures
        match_count(languages, target) > 0 <==> exists|k: int|
            0 <= k < languages.len() && language_matches(#[trigger] languages[k], target),
    decreases languages.len(),
{
    if languages.len() > 0 {
        let rest = languages.drop_last();
        lemma_match_count_positive(rest, target);
        if match_count(rest, target) > 0 {
            let k = choose|k: int| 0 <= k < rest.len() && language_matches(#[trigger] rest[k], target);
            assert(languages[k] == rest[k]);
        }
        if exists|k: int| 0 <= k < languages.len() && language_matches(#[trigger] languages[k], target) {
            let k = choose|k: int|
                0 <= k < languages.len() && language_matches(#[trigger] languages[k], target);
            if k < rest.len() {
                assert(rest[k] == languages[k]);
            }
        }
    }
}

proof fn lemma_plan_slots(records: Seq<Option<HydratedRecord>>, target: Seq<char>, i: int)
    requires
        0 <= i <= records.len(),
        records.len() <= usize::MAX,
    ensures
        forall|p: int| 0 <= p < store_plan(records, target).len() ==> #[trigger] store_plan(records, target)[p] < records.len(),
        0 <= i < records.len() ==> (store_plan(records, target).contains(i as usize)
            <==> record_match_count(records[i], target) > 0),
    decreases records.len(),
{
    if records.len() > 0 {
        let rest = records.drop_last();
        let last = (records.len() - 1) as usize;
        let tail = Seq::new(record_match_count(records.last(), target), |j: int| last);
        let plan = store_plan(records, target);
        assert(plan == store_plan(rest, target) + tail);
        lemma_plan_slots(rest, target, if i < rest.len() { i } else { 0 });
        assert forall|p: int| 0 <= p < plan.len() implies #[trigger] plan[p] < records.len() by {
            if p < store_plan(rest, target).len() {
                assert(plan[p] == store_plan(rest, target)[p]);
            } else {
                assert(plan[p] == tail[p - store_plan(rest, target).len()]);
            }
        }
        if 0 <= i < rest.len() {
            assert(records[i] == rest[i]);
            if plan.contains(i as usize) {
                let p = choose|p: int| 0 <= p < plan.len() && plan[p] == i as usize;
                if p >= store_plan(rest, target).len() {
                    assert(plan[p] == tail[p - store_plan(rest, target).len()]);
                }
                assert(store_plan(rest, target)[p] == i as usize);
            }
            if store_plan(rest, target).contains(i as usize) {
                let p = choose|p: int|
                    0 <= p < store_plan(rest, target).len() && store_plan(rest, target)[p] == i as usize;
                assert(plan[p] == i as usize);
            }
        } else if i == records.len() - 1 {
            if record_match_count(records[i], target) > 0 {
                assert(plan[store_plan(rest, target).len() as int] == i as usize);
            }
            if plan.contains(i as usize) {
                let p = choose|p: int| 0 <= p < plan.len() && plan[p] == i as usize;
                if p < store_plan(rest, target).len() {
                    assert(plan[p] == store_plan(rest, target)[p]);
                }
            }
        }
    }
}

/// A result is stored for a hydration slot if and only if the slot holds a
/// present record whose language list has an entry whose name equals the
/// target exactly; the plan names no slot outside the batch.
pub proof fn lemma_match_gated(records: Seq<Option<HydratedRecord>>, target: Seq<char>, i: int)
    requires
        0 <= i < records.len(),
        records.len() <= usize::MAX,
    ensures
        store_plan(records, target).contains(i as usize) <==> record_matches(records[i], target),
        forall|p: int| 0 <= p < store_plan(records, target).len() ==> #[trigger] store_plan(records, target)[p] < records.len(),
{
    lemma_plan_slots(records, target, i);
    match records[i] {
        Some(r) => lemma_match_count_positive(r.languages@, target),
        None => {},
    }
}

} // verus!
