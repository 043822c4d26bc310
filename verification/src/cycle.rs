use vstd::prelude::*;
use crate::records::Summary;
use crate::pending::pending_of;
use crate::plan::{ids_of, plan_digest};
use crate::notify::{is_success_status, notification_payload, payload_of};
use crate::store::{watermark_spec, MemoryStore};

verus! {

/// The summarization service failed: any transport, auth or service-side
/// failure is collapsed into this one kind at this layer.
#[derive(Clone, Copy, PartialEq, Eq, Structural, Debug)]
pub struct SummarizeError {}

/// What the driver's webhook attempt produced. Posting happens outside the
/// verified core; the cycle only classifies the result.
#[derive(Clone, Copy, PartialEq, Eq, Structural, Debug)]
pub enum NotifyResult {
    /// No webhook URL is configured; nothing was posted.
    MissingWebhook,
    /// The POST could not be delivered.
    TransportError,
    /// The POST was answered with this HTTP status.
    Status(u16),
}

/// How one cycle ended. Every failure returns the scheduler to idle for the
/// next tick; none of them propagates an error out of the cycle.
#[derive(Clone, Copy, PartialEq, Eq, Structural, Debug)]
pub enum CycleOutcome {
    /// The watermark or pending query failed: fatal to the cycle, nothing
    /// was written.
    StorageReadFailed,
    /// Nothing was pending: the expected steady state, a clean no-op.
    NothingPending,
    /// The summarization call failed: the cycle aborted before any write.
    SummarizationFailed,
    /// Persisting the digest failed: the digest text is dropped and the
    /// summaries stay pending for the next cycle.
    StorageWriteFailed,
    /// A digest was persisted; `notified` tells whether the webhook
    /// answered with a success status.
    Completed { notified: bool },
}

/// One cycle's report: how it ended, and the payload handed to the webhook
/// when a digest was persisted.
pub struct CycleReport {
    pub outcome: CycleOutcome,
    pub payload: Option<String>,
}

/// Whether a webhook attempt counts as delivered: only a 2xx answer.
pub open spec fn notify_delivered(reply: NotifyResult) -> bool {
    match reply {
        NotifyResult::Status(s) => 200 <= s < 300,
        _ => false,
    }
}

/// The summaries a cycle over this store would work on.
pub open spec fn current_pending(store: MemoryStore) -> Seq<Summary> {
    pending_of(store.summaries@, watermark_spec(store.digests@))
}

/// Run one full cycle against the store. The outcomes of the three external
/// calls that the verified core cannot make — reading storage, the
/// summarization request for the planned input, and the webhook POST — are
/// supplied by the driver; the contract states the cycle's effect for every
/// combination of them:
/// a failed read, an empty pending set, a failed summarization and a failed
/// persist all leave the store untouched and send nothing, while after a
/// successful persist exactly one digest row is appended, stamped `now`,
/// covering the pending ids in order, and the webhook payload announces the
/// digest text whatever the notification outcome was.
pub fn run_cycle(
    store: &mut MemoryStore,
    now: i64,
    read_ok: bool,
    summarize_reply: Result<String, SummarizeError>,
    persist_ok: bool,
    notify_reply: NotifyResult,
) -> (r: CycleReport)
    requires
        old(store).wf(),
        old(store).digests@.len() < i64::MAX,
        (watermark_spec(old(store).digests@) matches Some(t) ==> now >= t),
    ensures
        final(store).wf(),
        final(store).summaries@ == old(store).summaries@,
        (r.payload is Some <==> r.outcome matches CycleOutcome::Completed { .. }),
        !read_ok ==> final(store).digests@ == old(store).digests@
            && r.outcome == CycleOutcome::StorageReadFailed,
        read_ok && current_pending(*old(store)).len() == 0
            ==> final(store).digests@ == old(store).digests@
            && r.outcome == CycleOutcome::NothingPending,
        read_ok && current_pending(*old(store)).len() > 0 && summarize_reply is Err
            ==> final(store).digests@ == old(store).digests@
            && r.outcome == CycleOutcome::SummarizationFailed,
        read_ok && current_pending(*old(store)).len() > 0 && summarize_reply is Ok && !persist_ok
            ==> final(store).digests@ == old(store).digests@
            && r.outcome == CycleOutcome::StorageWriteFailed,
        (read_ok && current_pending(*old(store)).len() > 0 && persist_ok && summarize_reply
            is Ok) ==> ({
            let text = summarize_reply->Ok_0;
            &&& final(store).digests@.len() == old(store).digests@.len() + 1
            &&& final(store).digests@.drop_last() == old(store).digests@
            &&& final(store).digests@.last().text@ == text@
            &&& final(store).digests@.last().timestamp == now
            &&& final(store).digests@.last().covered_summary_ids@ == ids_of(
                current_pending(*old(store)),
            )
            &&& final(store).digests@.last().id as int == old(store).digests@.len() + 1
            &&& r.outcome == (CycleOutcome::Completed { notified: notify_delivered(notify_reply) })
            &&& r.payload is Some
            &&& r.payload->Some_0@ == payload_of(text@)
        }),
{
    if !read_ok {
        return CycleReport { outcome: CycleOutcome::StorageReadFailed, payload: Option::None };
    }
    let pending = store.pending_summaries();
    match plan_digest(&pending) {
        Option::None => CycleReport { outcome: CycleOutcome::NothingPending, payload: Option::None },
        Option::Some(plan) => match summarize_reply {
            Result::Err(_) => CycleReport {
                outcome: CycleOutcome::SummarizationFailed,
                payload: Option::None,
            },
            Result::Ok(text) => {
                if !persist_ok {
                    CycleReport { outcome: CycleOutcome::StorageWriteFailed, payload: Option::None }
                } else {
                    let payload = notification_payload(text.as_str());
                    let _ = store.insert_digest(text, plan.covered_ids, now);
                    let delivered = match notify_reply {
                        NotifyResult::Status(s) => is_success_status(s),
                        _ => false,
                    };
                    CycleReport {
                        outcome: CycleOutcome::Completed { notified: delivered },
                        payload: Option::Some(payload),
                    }
                }
            }
        },
    }
}

} // verus!
