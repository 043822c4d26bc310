use vstd::prelude::*;
use vstd::string::StringExecFns;
use crate::records::Summary;

verus! {

/// The texts of a run of summaries, in order.
pub open spec fn texts_of(log: Seq<Summary>) -> Seq<Seq<char>>
    decreases log.len(),
{
    if log.len() == 0 {
        Seq::empty()
    } else {
        texts_of(log.drop_last()).push(log.last().text@)
    }
}

/// The ids of a run of summaries, in order.
pub open spec fn ids_of(log: Seq<Summary>) -> Seq<i64>
    decreases log.len(),
{
    if log.len() == 0 {
        Seq::empty()
    } else {
        ids_of(log.drop_last()).push(log.last().id)
    }
}

/// All texts joined with a single space between adjacent entries.
pub open spec fn join_spaced(texts: Seq<Seq<char>>) -> Seq<char>
    decreases texts.len(),
{
    if texts.len() == 0 {
        Seq::empty()
    } else if texts.len() == 1 {
        texts[0]
    } else {
        join_spaced(texts.drop_last()) + seq![' '] + texts.last()
    }
}

/// `texts_of` and `ids_of` read the log pointwise.
pub proof fn lemma_projections_pointwise(log: Seq<Summary>)
    ensures
        texts_of(log).len() == log.len(),
        ids_of(log).len() == log.len(),
        forall|k: int| 0 <= k < log.len() ==> texts_of(log)[k] == (#[trigger] log[k]).text@,
        forall|k: int| 0 <= k < log.len() ==> ids_of(log)[k] == (#[trigger] log[k]).id,
    decreases log.len(),
{
    if log.len() > 0 {
        let prefix = log.drop_last();
        lemma_projections_pointwise(prefix);
        assert forall|k: int| 0 <= k < log.len() implies texts_of(log)[k] == (#[trigger] log[k]).text@
            && ids_of(log)[k] == log[k].id by {
            if k < log.len() - 1 {
                assert(prefix[k] == log[k]);
                assert(texts_of(prefix)[k] == prefix[k].text@);
                assert(ids_of(prefix)[k] == prefix[k].id);
            }
        }
    }
}

/// What one cycle hands to the summarization service: the concatenated
/// input text and the ids that the resulting digest will cover.
pub struct DigestPlan {
    pub input: String,
    pub covered_ids: Vec<i64>,
}

/// Concatenate the summaries' texts in order, separated by single spaces.
pub fn concat_texts(summaries: &Vec<Summary>) -> (r: String)
    ensures
        r@ == join_spaced(texts_of(summaries@)),
{
    let mut out = String::new();
    let mut i: usize = 0;
    while i < summaries.len()
        invariant
            i <= summaries.len(),
            out@ == join_spaced(texts_of(summaries@.take(i as int))),
        decreases summaries.len() - i,
    {
        proof {
            lemma_projections_pointwise(summaries@.take(i as int));
        }
        if i > 0 {
            out.append(" ");
            proof {
                reveal_strlit(" ");
            }
        }
        out.append(summaries[i].text.as_str());
        proof {
            let prefix = summaries@.take(i as int);
            let elem = summaries@[i as int];
            assert(summaries@.take(i as int + 1) =~= prefix.push(elem));
            assert(prefix.push(elem).drop_last() =~= prefix);
            assert(prefix.push(elem).last() == elem);
            let grown = texts_of(summaries@.take(i as int + 1));
            assert(grown == texts_of(prefix).push(elem.text@));
            if i == 0 {
                assert(grown.len() == 1);
                assert(out@ =~= grown[0]);
            } else {
                assert(grown.len() >= 2);
                assert(grown.drop_last() =~= texts_of(prefix));
                assert(grown.last() == elem.text@);
                assert((" ")@ =~= seq![' ']);
                assert(out@ =~= join_spaced(texts_of(prefix)) + seq![' '] + elem.text@);
            }
            assert(out@ == join_spaced(grown));
        }
        i += 1;
    }
    proof {
        assert(summaries@.take(summaries@.len() as int) =~= summaries@);
    }
    out
}

/// Collect the covered ids in order.
pub fn covered_ids(summaries: &Vec<Summary>) -> (r: Vec<i64>)
    ensures
        r@ == ids_of(summaries@),
{
    let mut out: Vec<i64> = Vec::new();
    let mut i: usize = 0;
    while i < summaries.len()
        invariant
            i <= summaries.len(),
            out@ == ids_of(summaries@.take(i as int)),
        decreases summaries.len() - i,
    {
        out.push(summaries[i].id);
        proof {
            let prefix = summaries@.take(i as int);
            let elem = summaries@[i as int];
            assert(summaries@.take(i as int + 1) =~= prefix.push(elem));
            assert(prefix.push(elem).drop_last() =~= prefix);
            assert(prefix.push(elem).last() == elem);
            assert(ids_of(summaries@.take(i as int + 1)) == ids_of(prefix).push(elem.id));
        }
        i += 1;
    }
    proof {
        assert(summaries@.take(summaries@.len() as int) =~= summaries@);
    }
    out
}

/// Plan one digest from the pending summaries. An empty pending set plans
/// nothing: the cycle is a clean no-op, no digest is produced and no
/// notification is sent. A non-empty set yields the summarization input
/// (texts joined with single spaces, in order) and the covered ids.
pub fn plan_digest(pending: &Vec<Summary>) -> (r: Option<DigestPlan>)
    ensures
        r is None <==> pending@.len() == 0,
        (r matches Some(p) ==> p.input@ == join_spaced(texts_of(pending@))
            && p.covered_ids@ == ids_of(pending@)),
{
    if pending.len() == 0 {
        Option::None
    } else {
        Option::Some(
            DigestPlan { input: concat_texts(pending), covered_ids: covered_ids(pending) },
        )
    }
}

} // verus!
