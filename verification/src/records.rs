use vstd::prelude::*;

verus! {

/// An immutable source record to be condensed: one previously produced
/// summary of upstream content. Timestamps are unix seconds; storage assigns
/// ids in strictly increasing order as records are appended.
pub struct Summary {
    pub id: i64,
    pub text: String,
    pub timestamp: i64,
}

impl Clone for Summary {
    fn clone(&self) -> (r: Self)
        ensures
            r == *self,
    {
        Summary { id: self.id, text: self.text.clone(), timestamp: self.timestamp }
    }
}

/// One cycle's recap: the condensed text returned by the summarization
/// service, the set of summary ids folded into it, and the creation time
/// that becomes the next cycle's watermark.
pub struct Digest {
    pub id: i64,
    pub text: String,
    pub timestamp: i64,
    pub covered_summary_ids: Vec<i64>,
}

} // verus!
