use vstd::prelude::*;
use crate::records::Summary;

verus! {

/// A summary is pending when its timestamp lies at or after the watermark;
/// with no watermark (no digest ever created) every summary is pending.
/// The boundary is deliberately inclusive (`>=`): a summary whose timestamp
/// exactly equals the previous digest's timestamp may be picked up again.
pub open spec fn pending_pred(watermark: Option<i64>, s: Summary) -> bool {
    match watermark {
        Option::None => true,
        Option::Some(t) => s.timestamp >= t,
    }
}

/// The pending subsequence of an append-only log: exactly the summaries at
/// or after the watermark, in log order.
pub open spec fn pending_of(log: Seq<Summary>, watermark: Option<i64>) -> Seq<Summary>
    decreases log.len(),
{
    if log.len() == 0 {
        Seq::empty()
    } else {
        let rest = pending_of(log.drop_last(), watermark);
        if pending_pred(watermark, log.last()) {
            rest.push(log.last())
        } else {
            rest
        }
    }
}

/// Timestamps never decrease along the sequence.
pub open spec fn sorted_by_timestamp(log: Seq<Summary>) -> bool {
    forall|i: int, j: int|
        0 <= i <= j < log.len() ==> log[i].timestamp <= log[j].timestamp
}

/// Ids strictly increase along the sequence (storage assigns them
/// monotonically), so no two records share an id.
pub open spec fn increasing_ids(log: Seq<Summary>) -> bool {
    forall|i: int, j: int| 0 <= i < j < log.len() ==> log[i].id < log[j].id
}

/// The watermark is the timestamp of the most recently created digest row,
/// or absent when no digest exists yet.
pub fn watermark_of(last_digest: Option<(i64, i64)>) -> (r: Option<i64>)
    ensures
        r == match last_digest {
            Option::Some((id, ts)) => Option::Some(ts),
            Option::None => Option::None::<i64>,
        },
{
    match last_digest {
        Option::Some((_, ts)) => Option::Some(ts),
        Option::None => Option::None,
    }
}

/// Appending one summary to the log extends the pending subsequence by that
/// summary exactly when it satisfies the pending predicate.
pub proof fn lemma_pending_push(log: Seq<Summary>, watermark: Option<i64>, s: Summary)
    ensures
        pending_of(log.push(s), watermark) == if pending_pred(watermark, s) {
            pending_of(log, watermark).push(s)
        } else {
            pending_of(log, watermark)
        },
{
    assert(log.push(s).drop_last() =~= log);
    assert(log.push(s).last() == s);
}

/// Select the pending summaries from a log: exactly those at or after the
/// watermark, in their original order.
pub fn select_pending(log: &Vec<Summary>, watermark: Option<i64>) -> (r: Vec<Summary>)
    ensures
        r@ == pending_of(log@, watermark),
        sorted_by_timestamp(log@) ==> sorted_by_timestamp(r@),
{
    proof {
        if sorted_by_timestamp(log@) {
            lemma_pending_sorted(log@, watermark);
        }
    }
    let mut out: Vec<Summary> = Vec::new();
    let mut i: usize = 0;
    while i < log.len()
        invariant
            i <= log.len(),
            out@ == pending_of(log@.take(i as int), watermark),
        decreases log.len() - i,
    {
        let s = &log[i];
        let keep = match watermark {
            Option::None => true,
            Option::Some(t) => s.timestamp >= t,
        };
        if keep {
            out.push(s.clone());
        }
        proof {
            let prefix = log@.take(i as int);
            assert(log@.take(i as int + 1) =~= prefix.push(log@[i as int]));
            lemma_pending_push(prefix, watermark, log@[i as int]);
        }
        i += 1;
    }
    proof {
        assert(log@.take(log@.len() as int) =~= log@);
    }
    out
}

/// Every element of the pending subsequence comes from the log and satisfies
/// the pending predicate.
pub proof fn lemma_pending_from_log(log: Seq<Summary>, watermark: Option<i64>)
    ensures
        forall|k: int|
            0 <= k < pending_of(log, watermark).len() ==> log.contains(
                #[trigger] pending_of(log, watermark)[k],
            ) && pending_pred(watermark, pending_of(log, watermark)[k]),
    decreases log.len(),
{
    if log.len() > 0 {
        let prefix = log.drop_last();
        lemma_pending_from_log(prefix, watermark);
        let sub = pending_of(prefix, watermark);
        assert forall|k: int|
            0 <= k < pending_of(log, watermark).len() implies log.contains(
            pending_of(log, watermark)[k],
        ) && pending_pred(watermark, pending_of(log, watermark)[k]) by {
            let picked = pending_of(log, watermark)[k];
            if k < sub.len() {
                assert(sub[k] == picked);
                assert(prefix.contains(picked));
                let j = choose|j: int| 0 <= j < prefix.len() && prefix[j] == picked;
                assert(log[j] == picked);
            } else {
                assert(picked == log.last());
                assert(log[log.len() - 1] == picked);
            }
        }
    }
}

/// A summary of the log that satisfies the pending predicate appears in the
/// pending subsequence: nothing at or after the watermark is lost.
pub proof fn lemma_log_in_pending(log: Seq<Summary>, watermark: Option<i64>, j: int)
    requires
        0 <= j < log.len(),
        pending_pred(watermark, log[j]),
    ensures
        pending_of(log, watermark).contains(log[j]),
    decreases log.len(),
{
    if j == log.len() - 1 {
        let sub = pending_of(log.drop_last(), watermark);
        assert(pending_of(log, watermark) == sub.push(log.last()));
        assert(pending_of(log, watermark)[sub.len() as int] == log[j]);
    } else {
        let prefix = log.drop_last();
        assert(prefix[j] == log[j]);
        lemma_log_in_pending(prefix, watermark, j);
        let sub = pending_of(prefix, watermark);
        let k = choose|k: int| 0 <= k < sub.len() && sub[k] == log[j];
        assert(pending_of(log, watermark)[k] == log[j]);
    }
}

/// Selecting from a timestamp-sorted log keeps the result sorted by
/// timestamp, and no selected timestamp exceeds the last timestamp of the
/// log.
pub proof fn lemma_pending_sorted(log: Seq<Summary>, watermark: Option<i64>)
    requires
        sorted_by_timestamp(log),
    ensures
        sorted_by_timestamp(pending_of(log, watermark)),
        log.len() > 0 ==> forall|k: int|
            0 <= k < pending_of(log, watermark).len() ==> (#[trigger] pending_of(
                log,
                watermark,
            )[k]).timestamp <= log.last().timestamp,
    decreases log.len(),
{
    if log.len() > 0 {
        let prefix = log.drop_last();
        assert(sorted_by_timestamp(prefix));
        lemma_pending_sorted(prefix, watermark);
        let sub = pending_of(prefix, watermark);
        assert forall|k: int|
            0 <= k < sub.len() implies sub[k].timestamp <= log.last().timestamp by {
            assert(prefix.len() > 0);
            assert(prefix.last().timestamp <= log.last().timestamp);
        }
        if pending_pred(watermark, log.last()) {
            assert(sorted_by_timestamp(sub.push(log.last())));
        }
    }
}

/// With no watermark, everything is pending.
pub proof fn lemma_pending_all(log: Seq<Summary>)
    ensures
        pending_of(log, Option::None) == log,
    decreases log.len(),
{
    if log.len() > 0 {
        lemma_pending_all(log.drop_last());
        assert(pending_of(log, Option::None) =~= log);
    } else {
        assert(pending_of(log, Option::None) =~= log);
    }
}

/// Once every summary lies strictly below the watermark, nothing is pending:
/// after full coverage, cycles become no-ops until new summaries arrive.
pub proof fn lemma_nothing_pending(log: Seq<Summary>, t: i64)
    requires
        forall|j: int| 0 <= j < log.len() ==> (#[trigger] log[j]).timestamp < t,
    ensures
        pending_of(log, Option::Some(t)) =~= Seq::<Summary>::empty(),
    decreases log.len(),
{
    if log.len() > 0 {
        lemma_nothing_pending(log.drop_last(), t);
    }
}

} // verus!
