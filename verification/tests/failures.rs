use daily_recap::cycle::{run_cycle, CycleOutcome, NotifyResult, SummarizeError};
use daily_recap::records::Summary;
use daily_recap::store::MemoryStore;

fn store_with_one_pending() -> MemoryStore {
    let mut store = MemoryStore::new();
    store.add_summary(Summary { id: 1, text: "a".to_string(), timestamp: 100 });
    store
}

#[test]
fn summarization_failure_leaves_storage_unchanged() {
    let mut store = store_with_one_pending();
    let report = run_cycle(
        &mut store,
        200,
        true,
        Err(SummarizeError {}),
        true,
        NotifyResult::Status(200),
    );
    assert_eq!(report.outcome, CycleOutcome::SummarizationFailed);
    // No digest row was written and the notifier was never handed a payload.
    assert!(store.digests.is_empty());
    assert!(report.payload.is_none());
    assert_eq!(store.summaries.len(), 1);
}

#[test]
fn summaries_stay_pending_after_summarization_failure() {
    let mut store = store_with_one_pending();
    run_cycle(
        &mut store,
        200,
        true,
        Err(SummarizeError {}),
        true,
        NotifyResult::Status(200),
    );
    // The watermark did not advance, so the next cycle re-includes them.
    let pending = store.pending_summaries();
    assert_eq!(pending.len(), 1);
    assert_eq!(pending[0].id, 1);
}

#[test]
fn notifier_failure_keeps_persisted_digest() {
    let mut store = store_with_one_pending();
    let report = run_cycle(
        &mut store,
        200,
        true,
        Ok("d".to_string()),
        true,
        NotifyResult::Status(500),
    );
    // The digest is already durable; a non-2xx answer only downgrades the
    // report, it neither rolls back nor raises.
    assert_eq!(report.outcome, CycleOutcome::Completed { notified: false });
    assert_eq!(store.digests.len(), 1);
    assert_eq!(store.digests[0].text, "d");
    assert_eq!(report.payload.unwrap(), "{\"content\":\"Daily Digest: d\"}");
}

#[test]
fn transport_error_keeps_persisted_digest() {
    let mut store = store_with_one_pending();
    let report = run_cycle(
        &mut store,
        200,
        true,
        Ok("d".to_string()),
        true,
        NotifyResult::TransportError,
    );
    assert_eq!(report.outcome, CycleOutcome::Completed { notified: false });
    assert_eq!(store.digests.len(), 1);
}

#[test]
fn missing_webhook_keeps_persisted_digest() {
    let mut store = store_with_one_pending();
    let report = run_cycle(
        &mut store,
        200,
        true,
        Ok("d".to_string()),
        true,
        NotifyResult::MissingWebhook,
    );
    assert_eq!(report.outcome, CycleOutcome::Completed { notified: false });
    assert_eq!(store.digests.len(), 1);
}

#[test]
fn storage_write_failure_aborts_cycle() {
    let mut store = store_with_one_pending();
    let report = run_cycle(
        &mut store,
        200,
        true,
        Ok("d".to_string()),
        false,
        NotifyResult::Status(200),
    );
    assert_eq!(report.outcome, CycleOutcome::StorageWriteFailed);
    assert!(store.digests.is_empty());
    assert!(report.payload.is_none());
}

#[test]
fn storage_read_failure_aborts_cycle() {
    let mut store = store_with_one_pending();
    let report = run_cycle(
        &mut store,
        200,
        false,
        Ok("d".to_string()),
        true,
        NotifyResult::Status(200),
    );
    assert_eq!(report.outcome, CycleOutcome::StorageReadFailed);
    assert!(store.digests.is_empty());
    assert!(report.payload.is_none());
}
