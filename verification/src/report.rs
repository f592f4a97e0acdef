//! The aggregator: merges the per-batch, per-service outcomes into
//! per-service match counts and a combined unique-match count.
//!
//! Each (service, batch) request resolves to an outcome: either a
//! decoded match result or a recorded failure. A failure contributes an
//! empty result for its pair and touches nothing else. Aggregation is
//! pure: it never fails, and each service's counts depend only on that
//! service's own outcomes.

use vstd::prelude::*;
use vstd::seq_lib::seq_to_set_distributes_over_add;
use vstd::set_lib::lemma_len_union;

verus! {

/// One server-reported confirmation that a submitted fingerprint belongs
/// to a known package; only the package identifier matters here.
#[derive(Clone, Copy, PartialEq, Eq, Structural, Debug)]
pub struct ExactMatch {
    pub id: i32,
}

/// The decoded response to one batch request: the exact matches the
/// service reported for that batch's fingerprints.
#[derive(Clone, Debug)]
pub struct MatchResult {
    pub exact_matches: Vec<ExactMatch>,
}

/// The per-service and combined counts the audit reports.
#[derive(Clone, Copy, PartialEq, Eq, Structural, Debug)]
pub struct AuditReport {
    /// Distinct package identifiers across both services' matches.
    pub unique_across_services: usize,
    /// Distinct package identifiers among the primary service's matches.
    pub primary_distinct: usize,
    /// Raw count of the primary service's match records.
    pub primary_match_total: usize,
    /// Distinct package identifiers among the secondary service's matches.
    pub secondary_distinct: usize,
    /// Raw count of the secondary service's match records.
    pub secondary_match_total: usize,
}

/// The package identifiers one match result reports, in order.
pub open spec fn result_ids(m: MatchResult) -> Seq<i32> {
    m.exact_matches@.map_values(|e: ExactMatch| e.id)
}

/// What one outcome contributes: its identifiers on success, nothing on
/// a recorded failure.
pub open spec fn outcome_ids(o: Option<MatchResult>) -> Seq<i32> {
    match o {
        Some(m) => result_ids(m),
        None => Seq::empty(),
    }
}

/// All identifiers a service's per-batch outcomes contribute, batch by
/// batch in order, duplicates kept.
pub open spec fn service_ids(outcomes: Seq<Option<MatchResult>>) -> Seq<i32>
    decreases outcomes.len(),
{
    if outcomes.len() == 0 {
        Seq::empty()
    } else {
        service_ids(outcomes.drop_last()) + outcome_ids(outcomes.last())
    }
}

/// Whether `v` holds `x`.
fn contains_id(v: &Vec<i32>, x: i32) -> (b: bool)
    ensures
        b == v@.contains(x),
{
    let mut i: usize = 0;
    while i < v.len()
        invariant
            i <= v@.len(),
            forall|k: int| 0 <= k < i ==> v@[k] != x,
        decreases v@.len() - i,
    {
        if v[i] == x {
            return true;
        }
        i = i + 1;
    }
    false
}

/// Flattens a service's successful outcomes into one list of reported
/// package identifiers, in batch order, duplicates kept.
pub fn collect_ids(outcomes: &Vec<Option<MatchResult>>) -> (r: Vec<i32>)
    ensures
        r@ == service_ids(outcomes@),
{
    let mut r: Vec<i32> = Vec::new();
    let mut i: usize = 0;
    while i < outcomes.len()
        invariant
            i <= outcomes@.len(),
            r@ == service_ids(outcomes@.take(i as int)),
        decreases outcomes@.len() - i,
    {
        match &outcomes[i] {
            Some(m) => {
                let found = &m.exact_matches;
                let mut j: usize = 0;
                while j < found.len()
                    invariant
                        j <= found@.len(),
                        i < outcomes@.len(),
                        outcomes@[i as int] == Some(*m),
                        found@ == m.exact_matches@,
                        r@ == service_ids(outcomes@.take(i as int)) + found@.take(
                            j as int,
                        ).map_values(|e: ExactMatch| e.id),
                    decreases found@.len() - j,
                {
                    r.push(found[j].id);
                    proof {
                        assert(found@.take(j + 1int) =~= found@.take(j as int).push(
                            found@[j as int],
                        ));
                        assert(found@.take(j + 1int).map_values(|e: ExactMatch| e.id)
                            =~= found@.take(j as int).map_values(|e: ExactMatch| e.id).push(
                            found@[j as int].id,
                        ));
                    }
                    j = j + 1;
                }
                proof {
                    assert(found@.take(found@.len() as int) =~= found@);
                }
            },
            None => {},
        }
        proof {
            assert(outcomes@.take(i + 1int).drop_last() =~= outcomes@.take(i as int));
            assert(outcomes@.take(i + 1int).last() == outcomes@[i as int]);
            assert(r@ =~= service_ids(outcomes@.take(i + 1int)));
        }
        i = i + 1;
    }
    proof {
        assert(outcomes@.take(outcomes@.len() as int) =~= outcomes@);
    }
    r
}

/// Strips repeated identifiers, keeping first occurrences; the set of
/// identifiers is unchanged.
pub fn dedup_ids(ids: &Vec<i32>) -> (r: Vec<i32>)
    ensures
        r@.no_duplicates(),
        r@.to_set() == ids@.to_set(),
{
    let mut r: Vec<i32> = Vec::new();
    let mut i: usize = 0;
    proof {
        assert(r@.to_set() =~= ids@.take(0int).to_set());
    }
    while i < ids.len()
        invariant
            i <= ids@.len(),
            r@.no_duplicates(),
            r@.to_set() == ids@.take(i as int).to_set(),
        decreases ids@.len() - i,
    {
        let x = ids[i];
        let seen = contains_id(&r, x);
        let ghost r_before = r@;
        if !seen {
            r.push(x);
        }
        proof {
            let prev = ids@.take(i as int);
            assert(ids@.take(i + 1int) =~= prev.push(x));
            prev.lemma_push_to_set_commute(x);
            if seen {
                assert(r@.to_set() =~= prev.push(x).to_set());
            } else {
                r_before.lemma_push_to_set_commute(x);
                assert(r@.to_set() =~= prev.push(x).to_set());
                assert forall|a: int, b: int|
                    0 <= a < r@.len() && 0 <= b < r@.len() && a != b implies r@[a] != r@[b] by {
                    if a < r_before.len() && b < r_before.len() {
                        assert(r@[a] == r_before[a] && r@[b] == r_before[b]);
                    } else if b == r_before.len() {
                        assert(r_before[a] != x);
                    } else {
                        assert(r_before[b] != x);
                    }
                }
                assert(r@.no_duplicates());
            }
        }
        i = i + 1;
    }
    proof {
        assert(ids@.take(ids@.len() as int) =~= ids@);
    }
    r
}

/// One identifier list after the other, as a single list.
fn concat_ids(a: &Vec<i32>, b: &Vec<i32>) -> (r: Vec<i32>)
    ensures
        r@ == a@ + b@,
{
    let mut r: Vec<i32> = Vec::new();
    let mut i: usize = 0;
    while i < a.len()
        invariant
            i <= a@.len(),
            r@ == a@.take(i as int),
        decreases a@.len() - i,
    {
        r.push(a[i]);
        proof {
            assert(a@.take(i + 1int) =~= a@.take(i as int).push(a@[i as int]));
        }
        i = i + 1;
    }
    let mut j: usize = 0;
    proof {
        assert(a@.take(a@.len() as int) + b@.take(0int) =~= a@.take(a@.len() as int));
    }
    while j < b.len()
        invariant
            j <= b@.len(),
            r@ == a@.take(a@.len() as int) + b@.take(j as int),
        decreases b@.len() - j,
    {
        r.push(b[j]);
        proof {
            assert(b@.take(j + 1int) =~= b@.take(j as int).push(b@[j as int]));
            assert(a@.take(a@.len() as int) + b@.take(j + 1int) =~= (a@.take(a@.len() as int)
                + b@.take(j as int)).push(b@[j as int]));
        }
        j = j + 1;
    }
    proof {
        assert(a@.take(a@.len() as int) =~= a@);
        assert(b@.take(b@.len() as int) =~= b@);
        assert(r@ =~= a@ + b@);
    }
    r
}

/// Merges the two services' per-batch outcomes into the reported counts:
/// for each service the raw match count and the distinct-package count,
/// and the count of distinct packages across both services. Failures were
/// already reduced to `None` and contribute nothing. The clauses relating
/// the distinct counts to the raw counts and to their sum hold for all
/// inputs: a raw count is never below its distinct count, and the
/// combined unique count never exceeds the sum of the two distinct
/// counts.
pub fn aggregate(
    primary: &Vec<Option<MatchResult>>,
    secondary: &Vec<Option<MatchResult>>,
) -> (r: AuditReport)
    ensures
        r.primary_match_total == service_ids(primary@).len(),
        r.secondary_match_total == service_ids(secondary@).len(),
        r.primary_distinct == service_ids(primary@).to_set().len(),
        r.secondary_distinct == service_ids(secondary@).to_set().len(),
        r.unique_across_services == service_ids(primary@).to_set().union(
            service_ids(secondary@).to_set(),
        ).len(),
        r.primary_distinct <= r.primary_match_total,
        r.secondary_distinct <= r.secondary_match_total,
        r.unique_across_services <= r.primary_distinct + r.secondary_distinct,
{
    let primary_ids = collect_ids(primary);
    let secondary_ids = collect_ids(secondary);
    let primary_dedup = dedup_ids(&primary_ids);
    let secondary_dedup = dedup_ids(&secondary_ids);
    let combined = concat_ids(&primary_ids, &secondary_ids);
    let combined_dedup = dedup_ids(&combined);

    proof {
        primary_dedup@.unique_seq_to_set();
        secondary_dedup@.unique_seq_to_set();
        combined_dedup@.unique_seq_to_set();
        primary_ids@.lemma_cardinality_of_set();
        secondary_ids@.lemma_cardinality_of_set();
        seq_to_set_distributes_over_add(primary_ids@, secondary_ids@);
        assert(combined@.to_set() =~= service_ids(primary@).to_set().union(
            service_ids(secondary@).to_set(),
        ));
        vstd::seq_lib::seq_to_set_is_finite::<i32>(service_ids(primary@));
        vstd::seq_lib::seq_to_set_is_finite::<i32>(service_ids(secondary@));
        lemma_len_union(service_ids(primary@).to_set(), service_ids(secondary@).to_set());
    }
    AuditReport {
        unique_across_services: combined_dedup.len(),
        primary_distinct: primary_dedup.len(),
        primary_match_total: primary_ids.len(),
        secondary_distinct: secondary_dedup.len(),
        secondary_match_total: secondary_ids.len(),
    }
}

/// Law: a failed (service, batch) pair contributes exactly what a
/// successful pair with an empty match list contributes. Replacing one
/// recorded failure by an empty success leaves the service's identifier
/// list, and so every count derived from it, unchanged; the other
/// service's outcomes are not mentioned, so its counts cannot change.
pub proof fn lemma_failure_isolation(
    outcomes: Seq<Option<MatchResult>>,
    k: int,
    empty_result: MatchResult,
)
    requires
        0 <= k < outcomes.len(),
        outcomes[k] is None,
        result_ids(empty_result).len() == 0,
    ensures
        service_ids(outcomes.update(k, Some(empty_result))) == service_ids(outcomes),
    decreases outcomes.len(),
{
    let patched = outcomes.update(k, Some(empty_result));
    assert(result_ids(empty_result) =~= Seq::<i32>::empty());
    if k == outcomes.len() - 1 {
        assert(patched.drop_last() =~= outcomes.drop_last());
        assert(service_ids(patched) =~= service_ids(outcomes));
    } else {
        lemma_failure_isolation(outcomes.drop_last(), k, empty_result);
        assert(patched.drop_last() =~= outcomes.drop_last().update(k, Some(empty_result)));
        assert(patched.last() == outcomes.last());
        assert(service_ids(patched) =~= service_ids(outcomes));
    }
}

} // verus!
