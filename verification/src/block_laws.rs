//! What processing a block does, stated over its inputs and its results:
//! which claims are saved, which are refused, and that every inscription of
//! the block is looked at before the block is recorded.
use vstd::prelude::*;
use crate::ord_api::{BlockData, InscriptionMeta};
use crate::parser::{claim_of, lowercase, BitmapClaim};
use crate::processor::{
    fetched_content, lemma_fetched_content_found, pair_views, is_trace, named_parents, Action, Answer, BlockRun, Note, Stage,
    Step,
};

verus! {

/// The content of inscription `run.cursor`, read by `Parser::parse`, claims `claim`.
pub open spec fn cursor_claims(run: BlockRun, content: String, claim: BitmapClaim) -> bool {
    &&& run.cursor < run.ids.len()
    &&& run.cursor < run.contents.len()
    &&& run.contents[run.cursor as int] == Some(content)
    &&& claim_of(lowercase(content@)) == claim
}

/// Law: a district claim that is not after the block being processed is
/// saved, with the inscription that made it and the block being processed.
pub proof fn lemma_district_claim_is_saved(
    run: BlockRun,
    after: BlockRun,
    step: Step,
    content: String,
    number: u64,
)
    requires
        run.wf(),
        run.stage is Scan,
        run.resume_post(after, step),
        cursor_claims(run, content, BitmapClaim::District { number }),
        number <= run.height,
    ensures
        step.action == (Action::SaveDistrict {
            number,
            inscription_id: run.ids[run.cursor as int],
            height: run.height,
        }),
        after.cursor == run.cursor,
        after.stage == (Stage::AwaitDistrictSave { number }),
{
}

/// Law: a district claim after the block being processed is refused, with a
/// note that names it, and the run moves on to the next inscription.
pub proof fn lemma_future_district_is_refused(
    run: BlockRun,
    after: BlockRun,
    step: Step,
    content: String,
    number: u64,
)
    requires
        run.wf(),
        run.stage is Scan,
        run.resume_post(after, step),
        cursor_claims(run, content, BitmapClaim::District { number }),
        number > run.height,
    ensures
        step.action is Continue,
        (step.note matches Some(Note::DistrictInvalid { number: n, .. }) && n == number),
        after.cursor == run.cursor + 1,
        after.stage is Scan,
{
}

/// Law: a parcel claim leads to fetching the block that it names.
pub proof fn lemma_parcel_claim_fetches_its_block(
    run: BlockRun,
    after: BlockRun,
    step: Step,
    content: String,
    tx_index: u64,
    block_number: u64,
)
    requires
        run.wf(),
        run.stage is Scan,
        run.resume_post(after, step),
        cursor_claims(run, content, BitmapClaim::Parcel { tx_index, block_number }),
    ensures
        step.action == (Action::FetchClaimedBlock { block_number }),
        after.cursor == run.cursor,
        after.stage == (Stage::AwaitTargetBlock { tx_index, block_number }),
{
}

/// Law: an inscription whose content was not fetched, or makes no claim, is
/// passed over silently.
pub proof fn lemma_non_claims_are_skipped(run: BlockRun, after: BlockRun, step: Step)
    requires
        run.wf(),
        run.stage is Scan,
        run.resume_post(after, step),
        run.cursor < run.ids.len(),
        run.cursor >= run.contents.len() || run.contents[run.cursor as int] is None || claim_of(
            lowercase(run.contents[run.cursor as int]->0@),
        ) == BitmapClaim::Invalid,
    ensures
        step.action is Continue,
        step.note is None,
        after.cursor == run.cursor + 1,
        after.stage is Scan,
        after.ids == run.ids,
{
}

/// Law: once every inscription has been looked at, the block being processed
/// is recorded as processed.
pub proof fn lemma_end_records_block(run: BlockRun, after: BlockRun, step: Step)
    requires
        run.wf(),
        run.stage is Scan,
        run.resume_post(after, step),
        run.cursor == run.ids.len(),
    ensures
        step.action == (Action::SetLastBlock { height: run.height }),
        after.stage is AwaitFinish,
{
}

/// Law: a parcel whose claimed block is not after the block being processed
/// and lists more transactions than its index passes the block check: its
/// inscription's metadata is fetched next.
pub proof fn lemma_parcel_in_range_passes(
    run: BlockRun,
    after: BlockRun,
    step: Step,
    data: BlockData,
    count: usize,
)
    requires
        run.wf(),
        run.stage is AwaitTargetBlock,
        run.on_claimed_block_post(after, step, Some(data)),
        data.transaction_count == Some(count),
        run.stage->AwaitTargetBlock_block_number <= run.height,
        run.stage->AwaitTargetBlock_tx_index < count,
    ensures
        step.action == (Action::FetchInscription { inscription_id: run.ids[run.cursor as int] }),
        after.cursor == run.cursor,
        after.stage == (Stage::AwaitMeta {
            tx_index: run.stage->AwaitTargetBlock_tx_index,
            block_number: run.stage->AwaitTargetBlock_block_number,
            transaction_count: count,
        }),
{
    crate::validator::lemma_parcel_refusal_none(
        run.stage->AwaitTargetBlock_tx_index,
        run.stage->AwaitTargetBlock_block_number,
        run.scan_block,
        data.transaction_count,
    );
}

/// Law: a parcel is refused by the block check when its claimed block is
/// after the block being processed, when the block's data lists no
/// transactions, or when its index is not below their number.
pub proof fn lemma_parcel_out_of_range_is_refused(
    run: BlockRun,
    after: BlockRun,
    step: Step,
    data: BlockData,
)
    requires
        run.wf(),
        run.stage is AwaitTargetBlock,
        run.on_claimed_block_post(after, step, Some(data)),
        ({
            let tx_index = run.stage->AwaitTargetBlock_tx_index;
            let block_number = run.stage->AwaitTargetBlock_block_number;
            ||| block_number > run.height
            ||| data.transaction_count is None
            ||| (match data.transaction_count {
                Some(count) => tx_index >= count,
                None => false,
            })
        }),
    ensures
        step.action is Continue,
        (step.note matches Some(Note::ParcelInvalid { tx_index: t, block_number: b, .. }) && t
            == run.stage->AwaitTargetBlock_tx_index && b == run.stage->AwaitTargetBlock_block_number),
        after.cursor == run.cursor + 1,
        after.stage is Scan,
{
    crate::validator::lemma_parcel_refusal_none(
        run.stage->AwaitTargetBlock_tx_index,
        run.stage->AwaitTargetBlock_block_number,
        run.scan_block,
        data.transaction_count,
    );
}

/// Law: a parcel whose claimed block could not be fetched is passed over.
pub proof fn lemma_parcel_without_block_is_skipped(run: BlockRun, after: BlockRun, step: Step)
    requires
        run.wf(),
        run.stage is AwaitTargetBlock,
        run.on_claimed_block_post(after, step, None),
    ensures
        step.action is Continue,
        step.note == Some(Note::ParcelBlockUnavailable {
            block_number: run.stage->AwaitTargetBlock_block_number,
        }),
        after.cursor == run.cursor + 1,
{
}

/// Law: the parents of a parcel are looked up starting with the first parent
/// that is named by a string.
pub proof fn lemma_first_parent_is_looked_up(
    run: BlockRun,
    after: BlockRun,
    step: Step,
    parents: Vec<Option<String>>,
    k: int,
)
    requires
        run.wf(),
        run.stage is AwaitMeta,
        run.on_meta_post(after, step, Some(InscriptionMeta { parents: Some(parents) })),
        0 <= k < parents.len(),
        parents[k] is Some,
        forall|j: int| 0 <= j < k ==> parents[j] is None,
    ensures
        step.action == (Action::LookupDistrict { parent_id: parents[k]->0 }),
        after.cursor == run.cursor,
{
    lemma_named_parents_first(parents@, k);
}

proof fn lemma_named_parents_first(ps: Seq<Option<String>>, k: int)
    requires
        0 <= k < ps.len(),
        ps[k] is Some,
        forall|j: int| 0 <= j < k ==> ps[j] is None,
    ensures
        named_parents(ps).len() > 0,
        named_parents(ps)[0] == ps[k]->0,
    decreases ps.len(),
{
    if k < ps.len() - 1 {
        lemma_named_parents_first(ps.drop_last(), k);
        assert(ps.drop_last()[k] == ps[k]);
    } else {
        lemma_named_parents_none(ps.drop_last());
    }
}

proof fn lemma_named_parents_none(ps: Seq<Option<String>>)
    requires
        forall|j: int| 0 <= j < ps.len() ==> ps[j] is None,
    ensures
        named_parents(ps).len() == 0,
    decreases ps.len(),
{
    if ps.len() > 0 {
        assert forall|j: int| 0 <= j < ps.drop_last().len() implies ps.drop_last()[j] is None by {
            assert(ps.drop_last()[j] == ps[j]);
        }
        lemma_named_parents_none(ps.drop_last());
    }
}

/// Law: a parcel is saved under the district that the store names for the
/// parent being looked up, with the parcel's inscription.
pub proof fn lemma_parcel_saved_under_found_district(
    run: BlockRun,
    after: BlockRun,
    step: Step,
    district: u64,
)
    requires
        run.wf(),
        run.stage is AwaitParent,
        run.on_parent_post(after, step, Some(district)),
    ensures
        step.action == (Action::SaveParcel {
            tx_index: run.stage->AwaitParent_tx_index,
            block_number: run.stage->AwaitParent_block_number,
            inscription_id: run.ids[run.cursor as int],
            district,
        }),
{
}

/// Law: when the store names no district for a parent, the next parent is
/// looked up; after the last one the parcel is refused.
pub proof fn lemma_unknown_parent_moves_on(run: BlockRun, after: BlockRun, step: Step)
    requires
        run.wf(),
        run.stage is AwaitParent,
        run.on_parent_post(after, step, None),
    ensures
        ({
            let parents = run.stage->AwaitParent_parents;
            let next = run.stage->AwaitParent_next;
            if next + 1 < parents.len() {
                step.action == (Action::LookupDistrict { parent_id: parents[next + 1] })
            } else {
                &&& step.action is Continue
                &&& step.note == Some(Note::ParcelParentNotDistrict)
                &&& after.cursor == run.cursor + 1
            }
        }),
{
}

/// Law: the store's answer to saving a district is reported with that
/// district and its inscription, and the run moves on.
pub proof fn lemma_district_save_reported(
    run: BlockRun,
    after: BlockRun,
    step: Step,
    inserted: bool,
)
    requires
        run.wf(),
        run.stage is AwaitDistrictSave,
        run.on_district_saved_post(after, step, inserted),
    ensures
        ({
            let number = run.stage->AwaitDistrictSave_number;
            let id = run.ids[run.cursor as int];
            step.note == if inserted {
                Some(Note::DistrictAccepted { number, inscription_id: id })
            } else {
                Some(Note::DistrictDuplicate { number, inscription_id: id })
            }
        }),
        after.cursor == run.cursor + 1,
{
}

/// Law: the inscriptions of a block are exactly the string entries of its
/// document's `inscriptions` array, in order.
pub proof fn lemma_block_inscriptions_kept(
    run: BlockRun,
    after: BlockRun,
    step: Step,
    data: BlockData,
)
    requires
        run.wf(),
        run.stage is AwaitBlock,
        run.on_block_post(after, step, data),
    ensures
        match data.inscriptions {
            Some(list) => after.ids@ == list@,
            None => after.ids@.len() == 0,
        },
        step.action is SetLastBlock <==> after.ids@.len() == 0,
{
}

proof fn lemma_ids_settled(
    height: u64,
    runs: Seq<BlockRun>,
    steps: Seq<Step>,
    answers: Seq<Answer>,
    k: int,
    list: Vec<String>,
    m: int,
)
    requires
        is_trace(height, runs, steps, answers),
        0 <= k < m < runs.len(),
        (answers[k] matches Answer::Block(data) && data.inscriptions == Some(list)),
    ensures
        runs[m].ids@ == list@,
        !(runs[m].stage is AwaitBlock),
    decreases m - k,
{
    let j = m - 1;
    assert(runs[j].step_post(runs[j + 1], steps[j + 1], answers[j]));
    if j > k {
        lemma_ids_settled(height, runs, steps, answers, k, list, j);
    }
}

/// Law: a block is recorded as processed only after every inscription its
/// document lists has been looked at, in order: whenever a run reaches the
/// end, the inscriptions it walked are the block's list, and its cursor has
/// passed all of them.
pub proof fn lemma_every_listed_inscription_is_examined(
    height: u64,
    runs: Seq<BlockRun>,
    steps: Seq<Step>,
    answers: Seq<Answer>,
    k: int,
    list: Vec<String>,
    m: int,
)
    requires
        is_trace(height, runs, steps, answers),
        0 <= k < m < runs.len(),
        (answers[k] matches Answer::Block(data) && data.inscriptions == Some(list)),
        runs[m].stage is AwaitFinish || runs[m].stage is Done,
    ensures
        runs[m].ids@ == list@,
        runs[m].cursor == list.len(),
{
    lemma_ids_settled(height, runs, steps, answers, k, list, m);
    assert(runs[m - 1].step_post(runs[m], steps[m], answers[m - 1])) by {
        let j = m - 1;
        assert(runs[j].step_post(runs[j + 1], steps[j + 1], answers[j]));
    }
}

/// Law: when an inscription was fetched more than once, the content of the
/// fetch that finished last counts.
pub proof fn lemma_latest_fetch_counts(
    p: Seq<(Seq<char>, Seq<char>)>,
    id: Seq<char>,
    content: Seq<char>,
    q: Seq<(Seq<char>, Seq<char>)>,
)
    requires
        forall|i: int| 0 <= i < q.len() ==> (#[trigger] q[i]).0 != id,
    ensures
        fetched_content(p + seq![(id, content)] + q, id) == Some(content),
    decreases q.len(),
{
    let s = p + seq![(id, content)] + q;
    if q.len() == 0 {
        assert(s.last() == (id, content));
    } else {
        assert(s.drop_last() =~= p + seq![(id, content)] + q.drop_last());
        assert(s.last() == q.last());
        assert(q.last() == q[q.len() - 1]);
        assert forall|i: int| 0 <= i < q.drop_last().len() implies (#[trigger] q.drop_last()[i]).0
            != id by {
            assert(q.drop_last()[i] == q[i]);
        }
        lemma_latest_fetch_counts(p, id, content, q.drop_last());
    }
}

/// Law: the store's answer to saving a parcel is reported with that parcel,
/// its district and its inscription, and the run moves on.
pub proof fn lemma_parcel_save_reported(run: BlockRun, after: BlockRun, step: Step, inserted: bool)
    requires
        run.wf(),
        run.stage is AwaitParcelSave,
        run.on_parcel_saved_post(after, step, inserted),
    ensures
        ({
            let tx_index = run.stage->AwaitParcelSave_tx_index;
            let block_number = run.stage->AwaitParcelSave_block_number;
            let district = run.stage->AwaitParcelSave_district;
            let id = run.ids[run.cursor as int];
            step.note == if inserted {
                Some(Note::ParcelAccepted { tx_index, block_number, district, inscription_id: id })
            } else {
                Some(Note::ParcelDuplicate { tx_index, block_number, inscription_id: id })
            }
        }),
        step.action is Continue,
        after.cursor == run.cursor + 1,
{
}

/// Law: once the block is recorded as processed, the run is done.
pub proof fn lemma_recorded_block_is_done(run: BlockRun, after: BlockRun, step: Step)
    requires
        run.wf(),
        run.stage is AwaitFinish,
        run.on_finished_post(after, step),
    ensures
        step.action is Finish,
        after.stage is Done,
{
}

/// Law: a block document without an inscriptions array is reported and the
/// block is recorded at once; one that lists inscriptions has their number
/// reported and their contents fetched.
pub proof fn lemma_block_document_reported(
    run: BlockRun,
    after: BlockRun,
    step: Step,
    data: BlockData,
)
    requires
        run.wf(),
        run.stage is AwaitBlock,
        run.on_block_post(after, step, data),
    ensures
        data.inscriptions is None ==> step.note == Some(Note::NoInscriptions { height: run.height })
            && step.action == (Action::SetLastBlock { height: run.height }),
        match data.inscriptions {
            Some(list) => list.len() > 0 ==> step.note == Some(
                Note::FoundInscriptions { count: list.len() },
            ) && step.action is FetchContents,
            None => true,
        },
{
}

/// Law: after the contents arrive, each inscription holds a content that was
/// fetched for it, and holds none only when no fetch for it succeeded.
pub proof fn lemma_contents_lined_up(
    run: BlockRun,
    after: BlockRun,
    step: Step,
    fetched: Vec<(String, String)>,
    i: int,
)
    requires
        run.wf(),
        run.stage is AwaitContents,
        run.on_contents_post(after, step, fetched),
        0 <= i < run.ids.len(),
    ensures
        i < after.contents.len(),
        match after.contents[i] {
            Some(c) => pair_views(fetched@).contains((run.ids[i]@, c@)),
            None => forall|j: int|
                0 <= j < fetched.len() ==> (#[trigger] fetched[j]).0@ != run.ids[i]@,
        },
{
    let pv = pair_views(fetched@);
    lemma_fetched_content_found(pv, run.ids[i]@);
    assert(after.content_at(i) == after.contents[i]);
    if after.contents[i] is None {
        assert forall|j: int| 0 <= j < fetched.len() implies (#[trigger] fetched[j]).0@
            != run.ids[i]@ by {
            assert(pv[j].0 == fetched[j].0@);
        }
    }
}

} // verus!
