use daily_recap::pending::{select_pending, watermark_of};
use daily_recap::plan::plan_digest;
use daily_recap::records::Summary;

fn summary(id: i64, text: &str, timestamp: i64) -> Summary {
    Summary { id, text: text.to_string(), timestamp }
}

#[test]
fn watermark_of_last_digest_row() {
    assert_eq!(watermark_of(None), None);
    assert_eq!(watermark_of(Some((7, 123))), Some(123));
}

#[test]
fn select_pending_without_watermark_takes_all() {
    let log = vec![summary(1, "a", 10), summary(2, "b", 20)];
    let picked = select_pending(&log, None);
    let ids: Vec<i64> = picked.iter().map(|s| s.id).collect();
    assert_eq!(ids, vec![1, 2]);
}

#[test]
fn select_pending_boundary_is_inclusive() {
    let log = vec![summary(1, "a", 10), summary(2, "b", 20), summary(3, "c", 30)];
    let picked = select_pending(&log, Some(20));
    let ids: Vec<i64> = picked.iter().map(|s| s.id).collect();
    assert_eq!(ids, vec![2, 3]);
}

#[test]
fn select_pending_on_empty_log() {
    let log: Vec<Summary> = Vec::new();
    assert!(select_pending(&log, None).is_empty());
    assert!(select_pending(&log, Some(5)).is_empty());
}

#[test]
fn plan_digest_of_empty_pending_is_none() {
    let pending: Vec<Summary> = Vec::new();
    assert!(plan_digest(&pending).is_none());
}

#[test]
fn plan_digest_of_single_summary_has_no_separator() {
    let pending = vec![summary(4, "only", 40)];
    let plan = plan_digest(&pending).unwrap();
    assert_eq!(plan.input, "only");
    assert_eq!(plan.covered_ids, vec![4]);
}

#[test]
fn plan_digest_keeps_order_and_single_spaces() {
    let pending = vec![summary(1, "", 1), summary(2, "mid", 2), summary(3, "", 3)];
    let plan = plan_digest(&pending).unwrap();
    assert_eq!(plan.input, " mid ");
    assert_eq!(plan.covered_ids, vec![1, 2, 3]);
}
