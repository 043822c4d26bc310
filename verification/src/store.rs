use vstd::prelude::*;
use crate::records::{Digest, Summary};
use crate::pending::{increasing_ids, pending_of, select_pending, sorted_by_timestamp};

verus! {

/// Digest timestamps never decrease along the order in which the digests
/// were created: each cycle stamps its digest at or after the previous one.
pub open spec fn digests_sorted(ds: Seq<Digest>) -> bool {
    forall|i: int, j: int|
        0 <= i <= j < ds.len() ==> ds[i].timestamp <= ds[j].timestamp
}

/// The watermark carried by a digest history: the timestamp of the most
/// recently created digest, or absent when none exists yet.
pub open spec fn watermark_spec(ds: Seq<Digest>) -> Option<i64> {
    if ds.len() == 0 {
        Option::None
    } else {
        Option::Some(ds.last().timestamp)
    }
}

/// In-memory image of the durable store: the append-only summary log and
/// the digest history. The scheduler keeps no state of its own between
/// cycles; everything a cycle needs is reconstructed from here.
pub struct MemoryStore {
    pub summaries: Vec<Summary>,
    pub digests: Vec<Digest>,
}

impl MemoryStore {
    /// Well-formedness: the summary log is ordered by timestamp with
    /// strictly increasing ids, and the digest history is ordered by
    /// timestamp.
    pub open spec fn wf(self) -> bool {
        &&& sorted_by_timestamp(self.summaries@)
        &&& increasing_ids(self.summaries@)
        &&& digests_sorted(self.digests@)
    }

    pub fn new() -> (r: Self)
        ensures
            r.wf(),
            r.summaries@ == Seq::<Summary>::empty(),
            r.digests@ == Seq::<Digest>::empty(),
    {
        MemoryStore { summaries: Vec::new(), digests: Vec::new() }
    }

    /// Append one summary, as the out-of-scope upstream writer does:
    /// storage assigns ids monotonically and stamps records in creation
    /// order, so the new record's id and timestamp extend the log.
    pub fn add_summary(&mut self, s: Summary)
        requires
            old(self).wf(),
            old(self).summaries@.len() > 0 ==> old(self).summaries@.last().timestamp
                <= s.timestamp && old(self).summaries@.last().id < s.id,
        ensures
            final(self).wf(),
            final(self).summaries@ == old(self).summaries@.push(s),
            final(self).digests@ == old(self).digests@,
    {
        proof {
            let log = self.summaries@;
            assert forall|i: int, j: int|
                0 <= i <= j < log.push(s).len() implies log.push(s)[i].timestamp
                <= log.push(s)[j].timestamp by {
                if j < log.len() {
                } else if i < log.len() {
                    assert(log[i].timestamp <= log[log.len() - 1].timestamp);
                }
            }
            assert forall|i: int, j: int|
                0 <= i < j < log.push(s).len() implies log.push(s)[i].id < log.push(s)[j].id by {
                if j < log.len() {
                } else if i < log.len() {
                    assert(log[i].id <= log[log.len() - 1].id);
                }
            }
        }
        self.summaries.push(s);
    }

    /// The most recent digest's timestamp — the watermark query. With a
    /// well-formed history the answer bounds every stored digest.
    pub fn latest_digest_timestamp(&self) -> (r: Option<i64>)
        ensures
            r == watermark_spec(self.digests@),
            (self.wf() && self.digests@.len() > 0) ==> forall|j: int|
                0 <= j < self.digests@.len() ==> (#[trigger] self.digests@[j]).timestamp
                    <= self.digests@.last().timestamp,
    {
        if self.digests.len() == 0 {
            Option::None
        } else {
            Option::Some(self.digests[self.digests.len() - 1].timestamp)
        }
    }

    /// The pending query: every summary at or after the current watermark,
    /// in log order.
    pub fn pending_summaries(&self) -> (r: Vec<Summary>)
        ensures
            r@ == pending_of(self.summaries@, watermark_spec(self.digests@)),
            self.wf() ==> sorted_by_timestamp(r@),
    {
        let watermark = self.latest_digest_timestamp();
        select_pending(&self.summaries, watermark)
    }

    /// Persist one digest: a single atomic write of the digest row together
    /// with the set of summary ids it covers. The caller stamps it no
    /// earlier than the current watermark, which keeps the history ordered.
    pub fn insert_digest(&mut self, text: String, covered: Vec<i64>, timestamp: i64) -> (id: i64)
        requires
            old(self).wf(),
            old(self).digests@.len() < i64::MAX,
            (watermark_spec(old(self).digests@) matches Some(t) ==> timestamp >= t),
        ensures
            final(self).wf(),
            final(self).summaries@ == old(self).summaries@,
            final(self).digests@.len() == old(self).digests@.len() + 1,
            final(self).digests@.drop_last() == old(self).digests@,
            id as int == old(self).digests@.len() + 1,
            final(self).digests@.last().id == id,
            final(self).digests@.last().text@ == text@,
            final(self).digests@.last().timestamp == timestamp,
            final(self).digests@.last().covered_summary_ids@ == covered@,
    {
        let id = self.digests.len() as i64 + 1;
        let ghost before = self.digests@;
        let row = Digest { id, text, timestamp, covered_summary_ids: covered };
        self.digests.push(row);
        proof {
            assert(self.digests@.drop_last() =~= before);
            assert forall|i: int, j: int|
                0 <= i <= j < self.digests@.len() implies self.digests@[i].timestamp
                <= self.digests@[j].timestamp by {
                if j < before.len() {
                } else if i < before.len() {
                    assert(before[i].timestamp <= before[before.len() - 1].timestamp);
                }
            }
        }
        id
    }
}

} // verus!
