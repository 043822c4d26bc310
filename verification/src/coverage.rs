use vstd::prelude::*;
use crate::records::{Digest, Summary};
use crate::pending::{
    increasing_ids, lemma_log_in_pending, lemma_nothing_pending, lemma_pending_all,
    lemma_pending_from_log, pending_of, pending_pred,
};
use crate::plan::{ids_of, lemma_projections_pointwise};
use crate::store::{digests_sorted, watermark_spec};

verus! {

/// The set of summary ids one digest covers.
pub open spec fn covered_set(d: Digest) -> Set<i64> {
    d.covered_summary_ids@.to_set()
}

/// Every id covered by any digest of the history.
pub open spec fn covered_union(ds: Seq<Digest>) -> Set<i64>
    decreases ds.len(),
{
    if ds.len() == 0 {
        Set::empty()
    } else {
        covered_union(ds.drop_last()).union(covered_set(ds.last()))
    }
}

/// The ids of the summaries stamped at or before `t`.
pub open spec fn ids_at_most(log: Seq<Summary>, t: i64) -> Set<i64> {
    Set::new(
        |id: i64|
            exists|j: int| 0 <= j < log.len() && log[j].id == id && log[j].timestamp <= t,
    )
}

/// Full coverage: the ids ever covered by some digest are exactly the ids
/// of the summaries stamped at or before the last digest's timestamp —
/// nothing is covered twice as a set, nothing before the watermark is lost.
pub open spec fn full_coverage(log: Seq<Summary>, ds: Seq<Digest>) -> bool {
    covered_union(ds) == match watermark_spec(ds) {
        Option::None => Set::<i64>::empty(),
        Option::Some(t) => ids_at_most(log, t),
    }
}

/// One successful cycle appends a digest that covers exactly the pending
/// ids, stamped at the current time: at or after every summary in the log
/// and at or after the previous watermark.
pub open spec fn cycle_step(log: Seq<Summary>, ds: Seq<Digest>, d: Digest) -> bool {
    &&& d.covered_summary_ids@ == ids_of(pending_of(log, watermark_spec(ds)))
    &&& forall|j: int| 0 <= j < log.len() ==> (#[trigger] log[j]).timestamp <= d.timestamp
    &&& (watermark_spec(ds) matches Some(t) ==> d.timestamp >= t)
}

/// A history in which every digest was produced by a successful cycle over
/// the same log.
pub open spec fn cycle_history(log: Seq<Summary>, ds: Seq<Digest>) -> bool
    decreases ds.len(),
{
    if ds.len() == 0 {
        true
    } else {
        cycle_history(log, ds.drop_last()) && cycle_step(log, ds.drop_last(), ds.last())
    }
}

/// A successful cycle extends the history: the digest it appends — covering
/// exactly the pending ids, stamped at or after every summary and at or
/// after the previous watermark, as the cycle's contract states — keeps the
/// whole digest sequence a history of successful cycles.
pub proof fn lemma_successful_cycle_extends_history(log: Seq<Summary>, ds: Seq<Digest>, d: Digest)
    requires
        cycle_history(log, ds),
        cycle_step(log, ds, d),
    ensures
        cycle_history(log, ds.push(d)),
{
    assert(ds.push(d).drop_last() =~= ds);
    assert(ds.push(d).last() == d);
}

/// Before any digest exists, nothing is covered.
pub proof fn lemma_coverage_initial(log: Seq<Summary>)
    ensures
        full_coverage(log, Seq::<Digest>::empty()),
{
}

/// One successful cycle preserves full coverage: afterwards exactly the
/// summaries stamped at or before the new digest's timestamp are covered.
pub proof fn lemma_cycle_preserves_coverage(log: Seq<Summary>, ds: Seq<Digest>, d: Digest)
    requires
        full_coverage(log, ds),
        cycle_step(log, ds, d),
    ensures
        full_coverage(log, ds.push(d)),
{
    let wm = watermark_spec(ds);
    let pending = pending_of(log, wm);
    assert(ds.push(d).drop_last() =~= ds);
    assert(ds.push(d).last() == d);
    assert(covered_union(ds.push(d)) == covered_union(ds).union(covered_set(d)));
    lemma_projections_pointwise(pending);
    lemma_pending_from_log(log, wm);
    assert forall|id: i64| covered_union(ds).union(covered_set(d)).contains(id) implies ids_at_most(
        log,
        d.timestamp,
    ).contains(id) by {
        if covered_union(ds).contains(id) {
            let t = ds.last().timestamp;
            assert(ids_at_most(log, t).contains(id));
            let j = choose|j: int|
                0 <= j < log.len() && log[j].id == id && log[j].timestamp <= t;
            assert(log[j].timestamp <= d.timestamp);
        } else {
            assert(d.covered_summary_ids@.contains(id));
            let k = choose|k: int|
                0 <= k < d.covered_summary_ids@.len() && d.covered_summary_ids@[k] == id;
            assert(pending[k].id == id);
            assert(log.contains(pending[k]));
            let j = choose|j: int| 0 <= j < log.len() && log[j] == pending[k];
            assert(log[j].timestamp <= d.timestamp);
        }
    }
    assert forall|id: i64| ids_at_most(log, d.timestamp).contains(id) implies covered_union(
        ds,
    ).union(covered_set(d)).contains(id) by {
        let j = choose|j: int|
            0 <= j < log.len() && log[j].id == id && log[j].timestamp <= d.timestamp;
        match wm {
            Option::None => {
                lemma_pending_all(log);
                assert(pending[j].id == id);
                assert(d.covered_summary_ids@[j] == id);
                assert(d.covered_summary_ids@.contains(id));
            },
            Option::Some(t) => {
                if log[j].timestamp <= t {
                    assert(ids_at_most(log, t).contains(id));
                } else {
                    assert(pending_pred(wm, log[j]));
                    lemma_log_in_pending(log, wm, j);
                    let k = choose|k: int| 0 <= k < pending.len() && pending[k] == log[j];
                    assert(d.covered_summary_ids@[k] == id);
                    assert(d.covered_summary_ids@.contains(id));
                }
            },
        }
    }
    assert(covered_union(ds).union(covered_set(d)) =~= ids_at_most(log, d.timestamp));
}

/// Eventual full coverage under no-failure conditions: after any sequence
/// of successful cycles, the set of summaries ever covered by some digest
/// is exactly the set of summaries stamped at or before the last digest's
/// timestamp.
pub proof fn lemma_history_full_coverage(log: Seq<Summary>, ds: Seq<Digest>)
    requires
        cycle_history(log, ds),
    ensures
        full_coverage(log, ds),
    decreases ds.len(),
{
    if ds.len() == 0 {
        lemma_coverage_initial(log);
    } else {
        lemma_history_full_coverage(log, ds.drop_last());
        lemma_cycle_preserves_coverage(log, ds.drop_last(), ds.last());
        assert(ds.drop_last().push(ds.last()) =~= ds);
    }
}

/// Digest timestamps are non-decreasing across the sequence of successfully
/// created digests.
pub proof fn lemma_history_monotonic(log: Seq<Summary>, ds: Seq<Digest>)
    requires
        cycle_history(log, ds),
    ensures
        digests_sorted(ds),
    decreases ds.len(),
{
    if ds.len() > 0 {
        let prefix = ds.drop_last();
        lemma_history_monotonic(log, prefix);
        assert forall|i: int, j: int|
            0 <= i <= j < ds.len() implies ds[i].timestamp <= ds[j].timestamp by {
            if j < prefix.len() {
                assert(prefix[i].timestamp <= prefix[j].timestamp);
            } else if i < prefix.len() {
                assert(prefix[i].timestamp <= prefix[prefix.len() - 1].timestamp);
            }
        }
    }
}

/// Every digest's covered set sits inside the union over the history.
pub proof fn lemma_covered_in_union(ds: Seq<Digest>, a: int)
    requires
        0 <= a < ds.len(),
    ensures
        covered_set(ds[a]).subset_of(covered_union(ds)),
    decreases ds.len(),
{
    if a == ds.len() - 1 {
        assert(ds.last() == ds[a]);
    } else {
        lemma_covered_in_union(ds.drop_last(), a);
        assert(ds.drop_last()[a] == ds[a]);
    }
}

/// Under normal operation the new digest covers no id that an earlier
/// digest covered, provided no summary is stamped exactly at the previous
/// watermark (the inclusive `>=` boundary reprocesses such a summary).
pub proof fn lemma_new_digest_disjoint(log: Seq<Summary>, ds: Seq<Digest>, d: Digest)
    requires
        full_coverage(log, ds),
        cycle_step(log, ds, d),
        increasing_ids(log),
        (watermark_spec(ds) matches Some(t) ==> forall|j: int|
            0 <= j < log.len() ==> (#[trigger] log[j]).timestamp != t),
    ensures
        covered_set(d).disjoint(covered_union(ds)),
{
    let wm = watermark_spec(ds);
    let pending = pending_of(log, wm);
    lemma_projections_pointwise(pending);
    lemma_pending_from_log(log, wm);
    assert forall|id: i64| covered_set(d).contains(id) implies !covered_union(ds).contains(
        id,
    ) by {
        if ds.len() > 0 {
            let t = ds.last().timestamp;
            assert(d.covered_summary_ids@.contains(id));
            let k = choose|k: int|
                0 <= k < d.covered_summary_ids@.len() && d.covered_summary_ids@[k] == id;
            assert(pending[k].id == id);
            assert(log.contains(pending[k]));
            let j2 = choose|j2: int| 0 <= j2 < log.len() && log[j2] == pending[k];
            assert(pending_pred(wm, pending[k]));
            assert(log[j2].timestamp >= t);
            assert(log[j2].timestamp != t);
            if covered_union(ds).contains(id) {
                assert(ids_at_most(log, t).contains(id));
                let j1 = choose|j1: int|
                    0 <= j1 < log.len() && log[j1].id == id && log[j1].timestamp <= t;
                assert(j1 != j2);
                if j1 < j2 {
                    assert(log[j1].id < log[j2].id);
                } else {
                    assert(log[j2].id < log[j1].id);
                }
                assert(false);
            }
        }
    }
}

/// Pairwise over the whole history: the covered-id sets of distinct digests
/// do not intersect.
pub open spec fn pairwise_disjoint(ds: Seq<Digest>) -> bool {
    forall|a: int, b: int|
        0 <= a < b < ds.len() ==> covered_set(#[trigger] ds[a]).disjoint(
            covered_set(#[trigger] ds[b]),
        )
}

/// At every step of the history, no summary was stamped exactly at the
/// watermark that step resolved.
pub open spec fn no_boundary_collision(log: Seq<Summary>, ds: Seq<Digest>) -> bool
    decreases ds.len(),
{
    if ds.len() == 0 {
        true
    } else {
        no_boundary_collision(log, ds.drop_last()) && (watermark_spec(ds.drop_last())
            matches Some(t) ==> forall|j: int|
            0 <= j < log.len() ==> (#[trigger] log[j]).timestamp != t)
    }
}

/// Disjointness, best effort: when no summary ever sits exactly on a
/// watermark boundary, the covered-id sets of distinct digests of a
/// successful history do not intersect. (With a summary stamped exactly at
/// a digest's timestamp the inclusive boundary re-covers it, which is the
/// accepted imprecision of timestamp watermarking.)
pub proof fn lemma_history_disjoint(log: Seq<Summary>, ds: Seq<Digest>)
    requires
        cycle_history(log, ds),
        increasing_ids(log),
        no_boundary_collision(log, ds),
    ensures
        pairwise_disjoint(ds),
    decreases ds.len(),
{
    if ds.len() > 0 {
        let prefix = ds.drop_last();
        lemma_history_disjoint(log, prefix);
        lemma_history_full_coverage(log, prefix);
        lemma_new_digest_disjoint(log, prefix, ds.last());
        assert forall|a: int, b: int|
            0 <= a < b < ds.len() implies covered_set(ds[a]).disjoint(covered_set(ds[b])) by {
            if b < prefix.len() {
                assert(prefix[a] == ds[a]);
                assert(prefix[b] == ds[b]);
            } else {
                assert(ds[b] == ds.last());
                assert(prefix[a] == ds[a]);
                lemma_covered_in_union(prefix, a);
                assert forall|id: i64| covered_set(ds[a]).contains(id) implies !covered_set(
                    ds[b],
                ).contains(id) by {
                    assert(covered_union(prefix).contains(id));
                }
            }
        }
    }
}

/// A summary arriving after a cycle does not disturb full coverage, as
/// long as it is stamped strictly after the current watermark: coverage is
/// a statement about the summaries at or before the last digest, and the
/// newcomer is not among them.
pub proof fn lemma_arrival_preserves_coverage(log: Seq<Summary>, ds: Seq<Digest>, s: Summary)
    requires
        full_coverage(log, ds),
        (watermark_spec(ds) matches Some(t) ==> s.timestamp > t),
    ensures
        full_coverage(log.push(s), ds),
{
    if ds.len() > 0 {
        let t = ds.last().timestamp;
        assert forall|id: i64| ids_at_most(log.push(s), t).contains(id) implies ids_at_most(
            log,
            t,
        ).contains(id) by {
            let j = choose|j: int|
                0 <= j < log.push(s).len() && log.push(s)[j].id == id && log.push(s)[j].timestamp
                    <= t;
            assert(j < log.len());
            assert(log[j] == log.push(s)[j]);
        }
        assert forall|id: i64| ids_at_most(log, t).contains(id) implies ids_at_most(
            log.push(s),
            t,
        ).contains(id) by {
            let j = choose|j: int|
                0 <= j < log.len() && log[j].id == id && log[j].timestamp <= t;
            assert(log.push(s)[j] == log[j]);
        }
        assert(ids_at_most(log.push(s), t) =~= ids_at_most(log, t));
    }
}

/// Idempotence under repeated empty loads: once every summary is stamped
/// strictly before the last digest's timestamp — full coverage, and no new
/// arrivals — the pending set is empty, so every further cycle is a no-op:
/// no digest is written and nothing is announced.
pub proof fn lemma_idle_after_coverage(log: Seq<Summary>, ds: Seq<Digest>)
    requires
        ds.len() > 0,
        forall|j: int|
            0 <= j < log.len() ==> (#[trigger] log[j]).timestamp < ds.last().timestamp,
    ensures
        pending_of(log, watermark_spec(ds)).len() == 0,
{
    lemma_nothing_pending(log, ds.last().timestamp);
}

} // verus!
