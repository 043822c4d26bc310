use daily_recap::cycle::{run_cycle, CycleOutcome, NotifyResult};
use daily_recap::plan::plan_digest;
use daily_recap::records::Summary;
use daily_recap::store::MemoryStore;

fn summary(id: i64, text: &str, timestamp: i64) -> Summary {
    Summary { id, text: text.to_string(), timestamp }
}

#[test]
fn first_cycle_covers_everything() {
    let mut store = MemoryStore::new();
    store.add_summary(summary(1, "a", 100));
    store.add_summary(summary(2, "b", 200));
    store.add_summary(summary(3, "c", 300));

    let pending = store.pending_summaries();
    assert_eq!(pending.len(), 3);
    let plan = plan_digest(&pending).unwrap();
    assert_eq!(plan.input, "a b c");
    assert_eq!(plan.covered_ids, vec![1, 2, 3]);

    let report = run_cycle(
        &mut store,
        400,
        true,
        Ok("d1".to_string()),
        true,
        NotifyResult::Status(204),
    );
    assert_eq!(report.outcome, CycleOutcome::Completed { notified: true });
    assert_eq!(report.payload.unwrap(), "{\"content\":\"Daily Digest: d1\"}");
    assert_eq!(store.digests.len(), 1);
    assert_eq!(store.digests[0].text, "d1");
    assert_eq!(store.digests[0].covered_summary_ids, vec![1, 2, 3]);
    assert_eq!(store.digests[0].timestamp, 400);
}

#[test]
fn inclusive_boundary_reprocesses_watermark_summary() {
    let mut store = MemoryStore::new();
    store.add_summary(summary(1, "a", 100));
    store.add_summary(summary(2, "b", 200));
    store.insert_digest("d0".to_string(), vec![1, 2], 200);
    store.add_summary(summary(3, "c", 300));

    // The implemented boundary is inclusive (`timestamp >= watermark`), so
    // the summary stamped exactly at the prior digest's timestamp comes
    // back along with the new one.
    let pending = store.pending_summaries();
    let ids: Vec<i64> = pending.iter().map(|s| s.id).collect();
    assert_eq!(ids, vec![2, 3]);

    let plan = plan_digest(&pending).unwrap();
    assert_eq!(plan.input, "b c");
    assert_eq!(plan.covered_ids, vec![2, 3]);
}

#[test]
fn second_cycle_picks_up_only_later_arrivals_when_strictly_newer() {
    let mut store = MemoryStore::new();
    store.add_summary(summary(1, "a", 100));
    store.add_summary(summary(2, "b", 200));
    let report = run_cycle(
        &mut store,
        250,
        true,
        Ok("first".to_string()),
        true,
        NotifyResult::Status(200),
    );
    assert_eq!(report.outcome, CycleOutcome::Completed { notified: true });

    store.add_summary(summary(3, "c", 300));
    let pending = store.pending_summaries();
    let ids: Vec<i64> = pending.iter().map(|s| s.id).collect();
    assert_eq!(ids, vec![3]);

    let report = run_cycle(
        &mut store,
        350,
        true,
        Ok("second".to_string()),
        true,
        NotifyResult::Status(200),
    );
    assert_eq!(report.outcome, CycleOutcome::Completed { notified: true });
    assert_eq!(store.digests.len(), 2);
    assert_eq!(store.digests[0].covered_summary_ids, vec![1, 2]);
    assert_eq!(store.digests[1].covered_summary_ids, vec![3]);
    // Monotone digest timestamps.
    assert!(store.digests[0].timestamp <= store.digests[1].timestamp);
}

#[test]
fn empty_cycles_are_no_ops_after_full_coverage() {
    let mut store = MemoryStore::new();
    store.add_summary(summary(1, "a", 100));
    let report = run_cycle(
        &mut store,
        150,
        true,
        Ok("d".to_string()),
        true,
        NotifyResult::Status(200),
    );
    assert_eq!(report.outcome, CycleOutcome::Completed { notified: true });
    assert_eq!(store.digests.len(), 1);

    // No new summaries arrive: every further cycle is a clean no-op.
    for now in [160, 170, 180] {
        let report = run_cycle(
            &mut store,
            now,
            true,
            Ok("unused".to_string()),
            true,
            NotifyResult::Status(200),
        );
        assert_eq!(report.outcome, CycleOutcome::NothingPending);
        assert!(report.payload.is_none());
        assert_eq!(store.digests.len(), 1);
    }
}

#[test]
fn empty_store_first_cycle_is_no_op() {
    let mut store = MemoryStore::new();
    let report = run_cycle(
        &mut store,
        10,
        true,
        Ok("unused".to_string()),
        true,
        NotifyResult::Status(200),
    );
    assert_eq!(report.outcome, CycleOutcome::NothingPending);
    assert!(report.payload.is_none());
    assert!(store.digests.is_empty());
}
