//! The decisions of processing one block, as a machine that is told what
//! the outside world answered and says what to do next.
//!
//! A run starts by asking for the block's document, then for the contents
//! of its inscriptions, then looks at the inscriptions one by one in block
//! order: a valid district claim is saved, a parcel claim is checked against
//! the block it names and against its parent inscriptions, which must be
//! known districts; everything else is skipped. At the end the block is
//! recorded as processed.
use vstd::prelude::*;
use crate::ord_api::{BlockData, InscriptionMeta};
use crate::parser::{claim_of, lowercase, BitmapClaim, Parser};
use crate::validator::{district_refusal, parcel_refusal, ValidationResult, Validator};

verus! {

/// Where the processing of a block stands.
pub enum Stage {
    /// Waiting for the block's document.
    AwaitBlock,
    /// Waiting for the contents of the block's inscriptions.
    AwaitContents,
    /// Ready to look at the inscription under the cursor.
    Scan,
    /// Waiting for the store to save a district.
    AwaitDistrictSave { number: u64 },
    /// Waiting for the document of the block that a parcel names.
    AwaitTargetBlock { tx_index: u64, block_number: u64 },
    /// Waiting for the metadata of the parcel's inscription; the claimed
    /// block lists `transaction_count` transactions.
    AwaitMeta { tx_index: u64, block_number: u64, transaction_count: usize },
    /// Waiting for the district, if any, that parent `parents[next]` inscribed;
    /// the store named no district for the parents before it.
    AwaitParent {
        tx_index: u64,
        block_number: u64,
        transaction_count: usize,
        parents: Vec<String>,
        next: usize,
    },
    /// Waiting for the store to save a parcel of `district`, the district
    /// that parent `parents[parent]` inscribed.
    AwaitParcelSave {
        tx_index: u64,
        block_number: u64,
        transaction_count: usize,
        district: u64,
        parents: Vec<String>,
        parent: usize,
    },
    /// Waiting for the store to record the block as processed.
    AwaitFinish,
    /// The block is processed.
    Done,
}

/// What the outside world is asked to do next; each request names the
/// method through which its answer comes back.
pub enum Action {
    /// Fetch the document of block `height`; answer with `on_block`.
    FetchBlock { height: u64 },
    /// Fetch the contents of all inscriptions in `ids`; answer with `on_contents`.
    FetchContents,
    /// Save the district; answer with `on_district_saved`.
    SaveDistrict { number: u64, inscription_id: String, height: u64 },
    /// Fetch the document of the block a parcel names; answer with `on_claimed_block`.
    FetchClaimedBlock { block_number: u64 },
    /// Fetch an inscription's metadata; answer with `on_meta`.
    FetchInscription { inscription_id: String },
    /// Look up the district inscribed by `parent_id`; answer with `on_parent`.
    LookupDistrict { parent_id: String },
    /// Save the parcel; answer with `on_parcel_saved`.
    SaveParcel { tx_index: u64, block_number: u64, inscription_id: String, district: u64 },
    /// Record block `height` as processed; answer with `on_finished`.
    SetLastBlock { height: u64 },
    /// Nothing to do outside; call `resume`.
    Continue,
    /// The block is processed.
    Finish,
}

/// What is worth reporting about a step.
pub enum Note {
    NoInscriptions { height: u64 },
    FoundInscriptions { count: usize },
    DistrictAccepted { number: u64, inscription_id: String },
    DistrictDuplicate { number: u64, inscription_id: String },
    DistrictInvalid { number: u64, reason: String },
    ParcelBlockUnavailable { block_number: u64 },
    ParcelInvalid { tx_index: u64, block_number: u64, reason: String },
    ParcelMetadataUnavailable,
    ParcelWithoutParent,
    ParcelParentNotDistrict,
    ParcelAccepted { tx_index: u64, block_number: u64, district: u64, inscription_id: String },
    ParcelDuplicate { tx_index: u64, block_number: u64, inscription_id: String },
}

/// The result of one step: what to do, and what to report.
pub struct Step {
    pub action: Action,
    pub note: Option<Note>,
}

/// What the outside world answered to a step, one variant for each method
/// through which an answer comes back.
pub enum Answer {
    Block(BlockData),
    Contents(Vec<(String, String)>),
    Resume,
    DistrictSaved(bool),
    ClaimedBlock(Option<BlockData>),
    Meta(Option<InscriptionMeta>),
    Parent(Option<u64>),
    ParcelSaved(bool),
    Finished,
}

/// The processing of one block.
pub struct BlockRun {
    /// The block being processed.
    pub height: u64,
    /// The block against which claims are validated: the block being
    /// processed, which is the block currently being scanned.
    pub scan_block: u64,
    /// The block's inscriptions, in block order.
    pub ids: Vec<String>,
    /// The contents fetched for the inscriptions (`None` where fetching failed).
    pub contents: Vec<Option<String>>,
    /// The inscription being looked at.
    pub cursor: usize,
    pub stage: Stage,
}

/// The string entries of a parents array, in order.
pub open spec fn named_parents(parents: Seq<Option<String>>) -> Seq<String>
    decreases parents.len(),
{
    if parents.len() == 0 {
        Seq::empty()
    } else {
        let rest = named_parents(parents.drop_last());
        match parents.last() {
            Some(p) => rest.push(p),
            None => rest,
        }
    }
}

/// `a` comes before `b` in the lexicographic order of quadruples.
pub open spec fn lex_less(a: (nat, nat, nat, nat), b: (nat, nat, nat, nat)) -> bool {
    ||| a.0 < b.0
    ||| a.0 == b.0 && a.1 < b.1
    ||| a.0 == b.0 && a.1 == b.1 && a.2 < b.2
    ||| a.0 == b.0 && a.1 == b.1 && a.2 == b.2 && a.3 < b.3
}

impl BlockRun {
    /// The content fetched for inscription `i`, if any.
    pub open spec fn content_at(self, i: int) -> Option<String> {
        if 0 <= i < self.contents.len() {
            self.contents[i]
        } else {
            None
        }
    }

    /// The claim made by inscription `i` (none when its content is missing).
    pub open spec fn claim_at(self, i: int) -> BitmapClaim {
        match self.content_at(i) {
            Some(c) => claim_of(lowercase(c@)),
            None => BitmapClaim::Invalid,
        }
    }

    /// The inscription under the cursor claims the parcel, whose block is not
    /// after the scan block and lists `transaction_count` transactions, of
    /// which `tx_index` is one.
    pub open spec fn parcel_in_scope(
        self,
        tx_index: u64,
        block_number: u64,
        transaction_count: usize,
    ) -> bool {
        &&& self.cursor < self.ids.len()
        &&& self.claim_at(self.cursor as int) == (BitmapClaim::Parcel { tx_index, block_number })
        &&& block_number <= self.scan_block
        &&& tx_index < transaction_count
    }

    /// Each inscription's content is the one that `fetched` holds for it.
    pub open spec fn contents_from(self, fetched: Seq<(Seq<char>, Seq<char>)>) -> bool {
        forall|i: int|
            0 <= i < self.ids.len() ==> match #[trigger] self.content_at(i) {
                Some(c) => fetched_content(fetched, self.ids[i]@) == Some(c@),
                None => fetched_content(fetched, self.ids[i]@) is None,
            }
    }

    /// The invariant of a run.
    pub open spec fn wf(self) -> bool {
        &&& self.scan_block == self.height
        &&& self.cursor <= self.ids.len()
        &&& match self.stage {
            Stage::AwaitBlock => self.ids.len() == 0 && self.cursor == 0,
            Stage::AwaitContents => self.cursor == 0,
            Stage::Scan => true,
            Stage::AwaitDistrictSave { number } => {
                &&& self.cursor < self.ids.len()
                &&& self.claim_at(self.cursor as int) == (BitmapClaim::District { number })
                &&& number <= self.scan_block
            },
            Stage::AwaitTargetBlock { tx_index, block_number } => {
                &&& self.cursor < self.ids.len()
                &&& self.claim_at(self.cursor as int) == (BitmapClaim::Parcel {
                    tx_index,
                    block_number,
                })
            },
            Stage::AwaitMeta { tx_index, block_number, transaction_count } => self.parcel_in_scope(
                tx_index,
                block_number,
                transaction_count,
            ),
            Stage::AwaitParent { tx_index, block_number, transaction_count, parents, next } => {
                &&& self.parcel_in_scope(tx_index, block_number, transaction_count)
                &&& next < parents.len()
            },
            Stage::AwaitParcelSave {
                tx_index,
                block_number,
                transaction_count,
                parents,
                parent,
                ..
            } => {
                &&& self.parcel_in_scope(tx_index, block_number, transaction_count)
                &&& parent < parents.len()
            },
            Stage::AwaitFinish => self.cursor == self.ids.len(),
            Stage::Done => self.cursor == self.ids.len(),
        }
    }

    /// How far the run still has to go: every step lowers it in `lex_less`.
    pub open spec fn progress(self) -> (nat, nat, nat, nat) {
        let left = (self.ids.len() - self.cursor) as nat;
        match self.stage {
            Stage::AwaitBlock => (4, 0, 0, 0),
            Stage::AwaitContents => (3, 0, 0, 0),
            Stage::Scan => (2, left, 5, 0),
            Stage::AwaitTargetBlock { .. } => (2, left, 4, 0),
            Stage::AwaitMeta { .. } => (2, left, 3, 0),
            Stage::AwaitParent { parents, next, .. } => (2, left, 2, (parents.len() - next) as nat),
            Stage::AwaitDistrictSave { .. } => (2, left, 1, 0),
            Stage::AwaitParcelSave { .. } => (2, left, 1, 0),
            Stage::AwaitFinish => (1, 0, 0, 0),
            Stage::Done => (0, 0, 0, 0),
        }
    }

    /// The block, its inscriptions and their contents are the same in both runs.
    pub open spec fn same_block(self, other: BlockRun) -> bool {
        &&& self.height == other.height
        &&& self.scan_block == other.scan_block
        &&& self.ids == other.ids
        &&& self.contents == other.contents
    }

    /// `self` has moved on to the next inscription, ready to look at it.
    pub open spec fn moved_on(self, before: BlockRun) -> bool {
        &&& self.same_block(before)
        &&& self.cursor == before.cursor + 1
        &&& self.stage is Scan
    }

    /// What `on_block` makes of `self`: the run `after` and the step it returns.
    pub open spec fn on_block_post(self, after: BlockRun, step: Step, data: BlockData) -> bool {
        &&& after.height == self.height
        &&& after.scan_block == self.scan_block
        &&& after.cursor == 0
        &&& after.contents == self.contents
        &&& match data.inscriptions {
            None => {
                &&& after.stage is AwaitFinish
                &&& after.ids@ =~= Seq::<String>::empty()
                &&& step.action == (Action::SetLastBlock { height: self.height })
                &&& step.note == Some(Note::NoInscriptions { height: self.height })
            },
            Some(list) => if list.len() == 0 {
                &&& after.stage is AwaitFinish
                &&& after.ids@ =~= Seq::<String>::empty()
                &&& step.action == (Action::SetLastBlock { height: self.height })
                &&& step.note is None
            } else {
                &&& after.stage is AwaitContents
                &&& after.ids == list
                &&& step.action is FetchContents
                &&& step.note == Some(Note::FoundInscriptions { count: list.len() })
            },
        }
    }

    /// What `on_contents` makes of `self`: the run `after` and the step it returns.
    pub open spec fn on_contents_post(self, after: BlockRun, step: Step, fetched: Vec<(String, String)>) -> bool {
        &&& after.height == self.height
        &&& after.scan_block == self.scan_block
        &&& after.ids == self.ids
        &&& after.contents.len() == self.ids.len()
        &&& after.contents_from(pair_views(fetched@))
        &&& after.cursor == 0
        &&& after.stage is Scan
        &&& step.action is Continue
        &&& step.note is None
    }

    /// What `resume` makes of `self`: the run `after` and the step it returns.
    pub open spec fn resume_post(self, after: BlockRun, step: Step) -> bool {
        &&& after.same_block(self)
        &&& ({
            let i = self.cursor as int;
            if i >= self.ids.len() {
                &&& after.stage is AwaitFinish
                &&& after.cursor == self.cursor
                &&& step.action == (Action::SetLastBlock { height: self.height })
                &&& step.note is None
            } else {
                match self.claim_at(i) {
                    BitmapClaim::Invalid => {
                        &&& after.moved_on(self)
                        &&& step.action is Continue
                        &&& step.note is None
                    },
                    BitmapClaim::District { number } => if number <= self.scan_block {
                        &&& after.cursor == self.cursor
                        &&& after.stage == (Stage::AwaitDistrictSave { number })
                        &&& step.action == (Action::SaveDistrict {
                            number,
                            inscription_id: self.ids[i],
                            height: self.height,
                        })
                        &&& step.note is None
                    } else {
                        &&& after.moved_on(self)
                        &&& step.action is Continue
                        &&& step.note matches Some(Note::DistrictInvalid { number: n, reason })
                        &&& n == number
                        &&& reason@ == district_refusal(number, self.scan_block)->0
                    },
                    BitmapClaim::Parcel { tx_index, block_number } => {
                        &&& after.cursor == self.cursor
                        &&& after.stage == (Stage::AwaitTargetBlock {
                            tx_index,
                            block_number,
                        })
                        &&& step.action == (Action::FetchClaimedBlock { block_number })
                        &&& step.note is None
                    },
                }
            }
        })
    }

    /// What `on_district_saved` makes of `self`: the run `after` and the step it returns.
    pub open spec fn on_district_saved_post(self, after: BlockRun, step: Step, inserted: bool) -> bool {
        &&& after.moved_on(self)
        &&& step.action is Continue
        &&& ({
            let number = self.stage->AwaitDistrictSave_number;
            let id = self.ids[self.cursor as int];
            if inserted {
                step.note == Some(Note::DistrictAccepted { number, inscription_id: id })
            } else {
                step.note == Some(Note::DistrictDuplicate { number, inscription_id: id })
            }
        })
    }

    /// What `on_claimed_block` makes of `self`: the run `after` and the step it returns.
    pub open spec fn on_claimed_block_post(self, after: BlockRun, step: Step, data: Option<BlockData>) -> bool {
        &&& after.same_block(self)
        &&& ({
            let tx_index = self.stage->AwaitTargetBlock_tx_index;
            let block_number = self.stage->AwaitTargetBlock_block_number;
            match data {
                None => {
                    &&& after.moved_on(self)
                    &&& step.action is Continue
                    &&& step.note == Some(Note::ParcelBlockUnavailable { block_number })
                },
                Some(d) => match parcel_refusal(
                    tx_index,
                    block_number,
                    self.scan_block,
                    d.transaction_count,
                ) {
                    Some(why) => {
                        &&& after.moved_on(self)
                        &&& step.action is Continue
                        &&& step.note matches Some(
                            Note::ParcelInvalid { tx_index: t, block_number: b, reason },
                        )
                        &&& t == tx_index && b == block_number && reason@ == why
                    },
                    None => {
                        &&& after.cursor == self.cursor
                        &&& d.transaction_count matches Some(count)
                        &&& tx_index < count
                        &&& block_number <= self.scan_block
                        &&& after.stage == (Stage::AwaitMeta {
                            tx_index,
                            block_number,
                            transaction_count: count,
                        })
                        &&& step.action == (Action::FetchInscription {
                            inscription_id: self.ids[self.cursor as int],
                        })
                        &&& step.note is None
                    },
                },
            }
        })
    }

    /// What `on_meta` makes of `self`: the run `after` and the step it returns.
    pub open spec fn on_meta_post(self, after: BlockRun, step: Step, meta: Option<InscriptionMeta>) -> bool {
        &&& after.same_block(self)
        &&& ({
            let tx_index = self.stage->AwaitMeta_tx_index;
            let block_number = self.stage->AwaitMeta_block_number;
            let count = self.stage->AwaitMeta_transaction_count;
            match meta {
                None => {
                    &&& after.moved_on(self)
                    &&& step.action is Continue
                    &&& step.note == Some(Note::ParcelMetadataUnavailable)
                },
                Some(m) => match m.parents {
                    Some(ps) if ps.len() > 0 => {
                        let named = named_parents(ps@);
                        if named.len() == 0 {
                            &&& after.moved_on(self)
                            &&& step.action is Continue
                            &&& step.note == Some(Note::ParcelParentNotDistrict)
                        } else {
                            &&& after.cursor == self.cursor
                            &&& after.stage matches Stage::AwaitParent {
                                tx_index: t,
                                block_number: b,
                                transaction_count: c,
                                parents,
                                next,
                            }
                            &&& t == tx_index && b == block_number && c == count
                            &&& parents@ =~= named
                            &&& next == 0
                            &&& step.action == (Action::LookupDistrict { parent_id: named[0] })
                            &&& step.note is None
                        }
                    },
                    _ => {
                        &&& after.moved_on(self)
                        &&& step.action is Continue
                        &&& step.note == Some(Note::ParcelWithoutParent)
                    },
                },
            }
        })
    }

    /// What `on_parent` makes of `self`: the run `after` and the step it returns.
    pub open spec fn on_parent_post(self, after: BlockRun, step: Step, district: Option<u64>) -> bool {
        &&& after.same_block(self)
        &&& ({
            let tx_index = self.stage->AwaitParent_tx_index;
            let block_number = self.stage->AwaitParent_block_number;
            let count = self.stage->AwaitParent_transaction_count;
            let parents = self.stage->AwaitParent_parents;
            let next = self.stage->AwaitParent_next;
            match district {
                Some(d) => {
                    &&& after.cursor == self.cursor
                    &&& after.stage == (Stage::AwaitParcelSave {
                        tx_index,
                        block_number,
                        transaction_count: count,
                        district: d,
                        parents,
                        parent: next,
                    })
                    &&& step.action == (Action::SaveParcel {
                        tx_index,
                        block_number,
                        inscription_id: self.ids[self.cursor as int],
                        district: d,
                    })
                    &&& step.note is None
                },
                None => if next + 1 < parents.len() {
                    &&& after.cursor == self.cursor
                    &&& after.stage == (Stage::AwaitParent {
                        tx_index,
                        block_number,
                        transaction_count: count,
                        parents,
                        next: (next + 1) as usize,
                    })
                    &&& step.action == (Action::LookupDistrict { parent_id: parents[next + 1] })
                    &&& step.note is None
                } else {
                    &&& after.moved_on(self)
                    &&& step.action is Continue
                    &&& step.note == Some(Note::ParcelParentNotDistrict)
                },
            }
        })
    }

    /// What `on_parcel_saved` makes of `self`: the run `after` and the step it returns.
    pub open spec fn on_parcel_saved_post(self, after: BlockRun, step: Step, inserted: bool) -> bool {
        &&& after.moved_on(self)
        &&& step.action is Continue
        &&& ({
            let tx_index = self.stage->AwaitParcelSave_tx_index;
            let block_number = self.stage->AwaitParcelSave_block_number;
            let district = self.stage->AwaitParcelSave_district;
            let id = self.ids[self.cursor as int];
            if inserted {
                step.note == Some(Note::ParcelAccepted {
                    tx_index,
                    block_number,
                    district,
                    inscription_id: id,
                })
            } else {
                step.note == Some(Note::ParcelDuplicate {
                    tx_index,
                    block_number,
                    inscription_id: id,
                })
            }
        })
    }

    /// What `on_finished` makes of `self`: the run `after` and the step it returns.
    pub open spec fn on_finished_post(self, after: BlockRun, step: Step) -> bool {
        &&& after.same_block(self)
        &&& after.cursor == self.cursor
        &&& after.stage is Done
        &&& step.action is Finish
        &&& step.note is None
    }

    /// What `new(height)` returns: the run and its first step.
    pub open spec fn new_post(height: u64, run: BlockRun, step: Step) -> bool {
        &&& run.wf()
        &&& run.height == height
        &&& run.scan_block == height
        &&& run.ids@ =~= Seq::<String>::empty()
        &&& run.contents@ =~= Seq::<Option<String>>::empty()
        &&& run.cursor == 0
        &&& run.stage is AwaitBlock
        &&& step.action == (Action::FetchBlock { height })
        &&& step.note is None
    }

    /// Starts processing block `height`; claims are validated against it,
    /// the block currently being scanned.
    pub fn new(height: u64) -> (r: (BlockRun, Step))
        ensures
            Self::new_post(height, r.0, r.1),
    {
        let run = BlockRun {
            height,
            scan_block: height,
            ids: Vec::new(),
            contents: Vec::new(),
            cursor: 0,
            stage: Stage::AwaitBlock,
        };
        (run, Step { action: Action::FetchBlock { height }, note: None })
    }

    /// The block's document arrived: without inscriptions the block is done
    /// at once; otherwise their contents are wanted.
    pub fn on_block(&mut self, data: BlockData) -> (step: Step)
        requires
            old(self).wf(),
            old(self).stage is AwaitBlock,
        ensures
            final(self).wf(),
            lex_less(final(self).progress(), old(self).progress()),
            old(self).on_block_post(*final(self), step, data),
    {
        match data.inscriptions {
            None => {
                self.stage = Stage::AwaitFinish;
                Step {
                    action: Action::SetLastBlock { height: self.height },
                    note: Some(Note::NoInscriptions { height: self.height }),
                }
            },
            Some(list) => {
                if list.len() == 0 {
                    self.stage = Stage::AwaitFinish;
                    Step { action: Action::SetLastBlock { height: self.height }, note: None }
                } else {
                    let count = list.len();
                    self.ids = list;
                    self.stage = Stage::AwaitContents;
                    Step {
                        action: Action::FetchContents,
                        note: Some(Note::FoundInscriptions { count }),
                    }
                }
            },
        }
    }

    /// The contents arrived: `fetched` pairs inscriptions with their contents
    /// in the order in which the fetches finished, and leaves out the fetches
    /// that failed. Each inscription gets the content listed last for it.
    pub fn on_contents(&mut self, fetched: &Vec<(String, String)>) -> (step: Step)
        requires
            old(self).wf(),
            old(self).stage is AwaitContents,
        ensures
            final(self).wf(),
            lex_less(final(self).progress(), old(self).progress()),
            old(self).on_contents_post(*final(self), step, *fetched),
    {
        self.contents = align_contents(&self.ids, fetched);
        self.stage = Stage::Scan;
        Step { action: Action::Continue, note: None }
    }

    /// Looks at the inscription under the cursor, or finishes the block when
    /// all have been looked at.
    pub fn resume(&mut self) -> (step: Step)
        requires
            old(self).wf(),
            old(self).stage is Scan,
        ensures
            final(self).wf(),
            lex_less(final(self).progress(), old(self).progress()),
            old(self).resume_post(*final(self), step),
    {
        let i = self.cursor;
        if i >= self.ids.len() {
            self.stage = Stage::AwaitFinish;
            return Step { action: Action::SetLastBlock { height: self.height }, note: None };
        }
        let claim = if i < self.contents.len() {
            match &self.contents[i] {
                Some(content) => Parser::parse(content.as_str()),
                None => BitmapClaim::Invalid,
            }
        } else {
            BitmapClaim::Invalid
        };
        match claim {
            BitmapClaim::Invalid => {
                self.cursor = i + 1;
                Step { action: Action::Continue, note: None }
            },
            BitmapClaim::District { number } => {
                match Validator::validate_district(number, self.scan_block) {
                    ValidationResult::Valid => {
                        self.stage = Stage::AwaitDistrictSave { number };
                        Step {
                            action: Action::SaveDistrict {
                                number,
                                inscription_id: self.ids[i].clone(),
                                height: self.height,
                            },
                            note: None,
                        }
                    },
                    ValidationResult::Invalid(reason) => {
                        self.cursor = i + 1;
                        Step {
                            action: Action::Continue,
                            note: Some(Note::DistrictInvalid { number, reason }),
                        }
                    },
                }
            },
            BitmapClaim::Parcel { tx_index, block_number } => {
                self.stage = Stage::AwaitTargetBlock { tx_index, block_number };
                Step { action: Action::FetchClaimedBlock { block_number }, note: None }
            },
        }
    }
    /// The store answered whether the district was new.
    pub fn on_district_saved(&mut self, inserted: bool) -> (step: Step)
        requires
            old(self).wf(),
            old(self).stage is AwaitDistrictSave,
        ensures
            final(self).wf(),
            lex_less(final(self).progress(), old(self).progress()),
            old(self).on_district_saved_post(*final(self), step, inserted),
    {
        let number = match self.stage {
            Stage::AwaitDistrictSave { number } => number,
            _ => 0,
        };
        let inscription_id = self.ids[self.cursor].clone();
        self.cursor = self.cursor + 1;
        self.stage = Stage::Scan;
        let note = if inserted {
            Note::DistrictAccepted { number, inscription_id }
        } else {
            Note::DistrictDuplicate { number, inscription_id }
        };
        Step { action: Action::Continue, note: Some(note) }
    }

    /// The document of the block that the parcel names arrived (`None` when
    /// it could not be fetched): the parcel is checked against it.
    pub fn on_claimed_block(&mut self, data: Option<BlockData>) -> (step: Step)
        requires
            old(self).wf(),
            old(self).stage is AwaitTargetBlock,
        ensures
            final(self).wf(),
            lex_less(final(self).progress(), old(self).progress()),
            old(self).on_claimed_block_post(*final(self), step, data),
    {
        let (tx_index, block_number) = match self.stage {
            Stage::AwaitTargetBlock { tx_index, block_number } => (tx_index, block_number),
            _ => (0, 0),
        };
        match data {
            None => {
                self.cursor = self.cursor + 1;
                self.stage = Stage::Scan;
                Step {
                    action: Action::Continue,
                    note: Some(Note::ParcelBlockUnavailable { block_number }),
                }
            },
            Some(d) => {
                match Validator::validate_parcel(tx_index, block_number, self.scan_block, &d) {
                    ValidationResult::Valid => {
                        let transaction_count = match d.transaction_count {
                            Some(count) => count,
                            None => 0,
                        };
                        self.stage = Stage::AwaitMeta { tx_index, block_number, transaction_count };
                        Step {
                            action: Action::FetchInscription {
                                inscription_id: self.ids[self.cursor].clone(),
                            },
                            note: None,
                        }
                    },
                    ValidationResult::Invalid(reason) => {
                        self.cursor = self.cursor + 1;
                        self.stage = Stage::Scan;
                        Step {
                            action: Action::Continue,
                            note: Some(Note::ParcelInvalid { tx_index, block_number, reason }),
                        }
                    },
                }
            },
        }
    }

    /// The parcel's inscription metadata arrived (`None` when it could not be
    /// fetched): its parents are looked up in order.
    pub fn on_meta(&mut self, meta: Option<InscriptionMeta>) -> (step: Step)
        requires
            old(self).wf(),
            old(self).stage is AwaitMeta,
        ensures
            final(self).wf(),
            lex_less(final(self).progress(), old(self).progress()),
            old(self).on_meta_post(*final(self), step, meta),
    {
        let (tx_index, block_number, transaction_count) = match self.stage {
            Stage::AwaitMeta { tx_index, block_number, transaction_count } => (
                tx_index,
                block_number,
                transaction_count,
            ),
            _ => (0, 0, 0),
        };
        let listed = match meta {
            None => {
                self.cursor = self.cursor + 1;
                self.stage = Stage::Scan;
                return Step { action: Action::Continue, note: Some(Note::ParcelMetadataUnavailable) };
            },
            Some(m) => m.parents,
        };
        let ps = match listed {
            Some(ps) => ps,
            None => {
                self.cursor = self.cursor + 1;
                self.stage = Stage::Scan;
                return Step { action: Action::Continue, note: Some(Note::ParcelWithoutParent) };
            },
        };
        if ps.len() == 0 {
            self.cursor = self.cursor + 1;
            self.stage = Stage::Scan;
            return Step { action: Action::Continue, note: Some(Note::ParcelWithoutParent) };
        }
        let ghost all = ps@;
        let mut parents: Vec<String> = Vec::new();
        for p in it: ps
            invariant
                all == it.seq(),
                parents@ == named_parents(all.take(it.index() as int)),
        {
            assert(all.take(it.index() + 1).drop_last() =~= all.take(it.index() as int));
            match p {
                Some(name) => {
                    parents.push(name);
                },
                None => {},
            }
        }
        assert(all.take(all.len() as int) =~= all);
        if parents.len() == 0 {
            self.cursor = self.cursor + 1;
            self.stage = Stage::Scan;
            return Step { action: Action::Continue, note: Some(Note::ParcelParentNotDistrict) };
        }
        let parent_id = parents[0].clone();
        self.stage = Stage::AwaitParent {
            tx_index,
            block_number,
            transaction_count,
            parents,
            next: 0,
        };
        Step { action: Action::LookupDistrict { parent_id }, note: None }
    }

    /// The store answered which district, if any, the parent under
    /// consideration inscribed: the first parent that is a district decides.
    pub fn on_parent(&mut self, district: Option<u64>) -> (step: Step)
        requires
            old(self).wf(),
            old(self).stage is AwaitParent,
        ensures
            final(self).wf(),
            lex_less(final(self).progress(), old(self).progress()),
            old(self).on_parent_post(*final(self), step, district),
    {
        let mut stage = Stage::Scan;
        std::mem::swap(&mut stage, &mut self.stage);
        let (tx_index, block_number, transaction_count, parents, next) = match stage {
            Stage::AwaitParent { tx_index, block_number, transaction_count, parents, next } => (
                tx_index,
                block_number,
                transaction_count,
                parents,
                next,
            ),
            _ => (0, 0, 0, Vec::new(), 0),
        };
        match district {
            Some(d) => {
                let inscription_id = self.ids[self.cursor].clone();
                self.stage = Stage::AwaitParcelSave {
                    tx_index,
                    block_number,
                    transaction_count,
                    district: d,
                    parents,
                    parent: next,
                };
                Step {
                    action: Action::SaveParcel {
                        tx_index,
                        block_number,
                        inscription_id,
                        district: d,
                    },
                    note: None,
                }
            },
            None => {
                if next + 1 < parents.len() {
                    let parent_id = parents[next + 1].clone();
                    self.stage = Stage::AwaitParent {
                        tx_index,
                        block_number,
                        transaction_count,
                        parents,
                        next: next + 1,
                    };
                    Step { action: Action::LookupDistrict { parent_id }, note: None }
                } else {
                    self.cursor = self.cursor + 1;
                    Step { action: Action::Continue, note: Some(Note::ParcelParentNotDistrict) }
                }
            },
        }
    }

    /// The store answered whether the parcel was new.
    pub fn on_parcel_saved(&mut self, inserted: bool) -> (step: Step)
        requires
            old(self).wf(),
            old(self).stage is AwaitParcelSave,
        ensures
            final(self).wf(),
            lex_less(final(self).progress(), old(self).progress()),
            old(self).on_parcel_saved_post(*final(self), step, inserted),
    {
        let (tx_index, block_number, district) = match self.stage {
            Stage::AwaitParcelSave { tx_index, block_number, district, .. } => (
                tx_index,
                block_number,
                district,
            ),
            _ => (0, 0, 0),
        };
        let inscription_id = self.ids[self.cursor].clone();
        self.cursor = self.cursor + 1;
        self.stage = Stage::Scan;
        let note = if inserted {
            Note::ParcelAccepted { tx_index, block_number, district, inscription_id }
        } else {
            Note::ParcelDuplicate { tx_index, block_number, inscription_id }
        };
        Step { action: Action::Continue, note: Some(note) }
    }

    /// The store recorded the block as processed.
    pub fn on_finished(&mut self) -> (step: Step)
        requires
            old(self).wf(),
            old(self).stage is AwaitFinish,
        ensures
            final(self).wf(),
            lex_less(final(self).progress(), old(self).progress()),
            old(self).on_finished_post(*final(self), step),
    {
        self.stage = Stage::Done;
        Step { action: Action::Finish, note: None }
    }
}


/// The content that `fetched` holds for inscription `id`: the one listed
/// last for it, if any. `fetched` pairs inscriptions with their contents in
/// the order in which the fetches finished.
pub open spec fn fetched_content(fetched: Seq<(Seq<char>, Seq<char>)>, id: Seq<char>) -> Option<
    Seq<char>,
>
    decreases fetched.len(),
{
    if fetched.len() == 0 {
        None
    } else if fetched.last().0 == id {
        Some(fetched.last().1)
    } else {
        fetched_content(fetched.drop_last(), id)
    }
}

/// The pairs of `fetched`, as text.
pub open spec fn pair_views(fetched: Seq<(String, String)>) -> Seq<(Seq<char>, Seq<char>)> {
    fetched.map_values(|p: (String, String)| (p.0@, p.1@))
}

/// Every inscription that `fetched` lists more than once has one content.
pub open spec fn consistent(fetched: Seq<(Seq<char>, Seq<char>)>) -> bool {
    forall|i: int, j: int|
        0 <= i < fetched.len() && 0 <= j < fetched.len() && #[trigger] fetched[i].0
            == #[trigger] fetched[j].0 ==> fetched[i].1 == fetched[j].1
}

/// Law: an inscription's content is one that was fetched for it, and it has
/// none exactly when no fetch for it succeeded.
pub proof fn lemma_fetched_content_found(fetched: Seq<(Seq<char>, Seq<char>)>, id: Seq<char>)
    ensures
        fetched_content(fetched, id) matches Some(c) ==> fetched.contains((id, c)),
        fetched_content(fetched, id) is None <==> forall|i: int|
            0 <= i < fetched.len() ==> #[trigger] fetched[i].0 != id,
    decreases fetched.len(),
{
    if fetched.len() > 0 {
        let rest = fetched.drop_last();
        lemma_fetched_content_found(rest, id);
        if fetched.last().0 == id {
            assert(fetched[fetched.len() - 1] == (id, fetched.last().1));
        } else {
            if fetched_content(rest, id) is Some {
                let c = fetched_content(rest, id)->0;
                let k = choose|k: int| 0 <= k < rest.len() && rest[k] == (id, c);
                assert(fetched[k] == (id, c));
            }
            assert forall|i: int| 0 <= i < rest.len() implies rest[i] == #[trigger] fetched[i] by {}
        }
    }
}

/// Law: the contents lined up for the inscriptions do not depend on the order
/// in which the fetches finished, as long as each inscription has one content.
pub proof fn lemma_fetch_order_irrelevant(
    p: Seq<(Seq<char>, Seq<char>)>,
    q: Seq<(Seq<char>, Seq<char>)>,
    id: Seq<char>,
)
    requires
        consistent(p),
        p.to_multiset() == q.to_multiset(),
    ensures
        fetched_content(p, id) == fetched_content(q, id),
{
    broadcast use vstd::seq_lib::group_to_multiset_ensures;

    lemma_fetched_content_found(p, id);
    lemma_fetched_content_found(q, id);
    match fetched_content(p, id) {
        Some(c) => {
            assert(p.to_multiset().count((id, c)) > 0);
            assert(q.to_multiset().count((id, c)) > 0);
            assert(q.contains((id, c)));
            let k = choose|k: int| 0 <= k < q.len() && q[k] == (id, c);
            assert(q[k].0 == id);
            let c2 = fetched_content(q, id)->0;
            assert(q.contains((id, c2)));
            assert(q.to_multiset().count((id, c2)) > 0);
            assert(p.to_multiset().count((id, c2)) > 0);
            assert(p.contains((id, c2)));
            let i = choose|i: int| 0 <= i < p.len() && p[i] == (id, c);
            let j = choose|j: int| 0 <= j < p.len() && p[j] == (id, c2);
            assert(p[i].0 == p[j].0);
        },
        None => {
            if fetched_content(q, id) is Some {
                let c2 = fetched_content(q, id)->0;
                assert(q.contains((id, c2)));
                assert(q.to_multiset().count((id, c2)) > 0);
                assert(p.to_multiset().count((id, c2)) > 0);
                assert(p.contains((id, c2)));
                let j = choose|j: int| 0 <= j < p.len() && p[j] == (id, c2);
                assert(p[j].0 == id);
            }
        },
    }
}

/// The content that `fetched` holds for `id`.
fn content_for(id: &String, fetched: &Vec<(String, String)>) -> (r: Option<String>)
    ensures
        match r {
            Some(c) => fetched_content(pair_views(fetched@), id@) == Some(c@),
            None => fetched_content(pair_views(fetched@), id@) is None,
        },
{
    let ghost pv = pair_views(fetched@);
    let mut j = fetched.len();
    assert(pv.take(j as int) =~= pv);
    while j > 0
        invariant
            j <= fetched.len(),
            pv == pair_views(fetched@),
            fetched_content(pv, id@) == fetched_content(pv.take(j as int), id@),
        decreases j,
    {
        let k = j - 1;
        let ghost prefix = pv.take(j as int);
        assert(prefix.last() == pv[k as int]);
        assert(prefix.drop_last() =~= pv.take(k as int));
        if fetched[k].0 == *id {
            return Some(fetched[k].1.clone());
        }
        j = k;
    }
    None
}

/// Lines up fetched contents with the inscriptions: for each inscription,
/// the content that `fetched` holds for it (`None` when its fetch failed).
pub fn align_contents(ids: &Vec<String>, fetched: &Vec<(String, String)>) -> (r: Vec<
    Option<String>,
>)
    ensures
        r.len() == ids.len(),
        forall|i: int|
            0 <= i < ids.len() ==> match #[trigger] r[i] {
                Some(c) => fetched_content(pair_views(fetched@), ids[i]@) == Some(c@),
                None => fetched_content(pair_views(fetched@), ids[i]@) is None,
            },
{
    let mut r: Vec<Option<String>> = Vec::new();
    for i in 0..ids.len()
        invariant
            r.len() == i,
            forall|k: int|
                0 <= k < i ==> match #[trigger] r[k] {
                    Some(c) => fetched_content(pair_views(fetched@), ids[k]@) == Some(c@),
                    None => fetched_content(pair_views(fetched@), ids[k]@) is None,
                },
    {
        r.push(content_for(&ids[i], fetched));
    }
    r
}

/// Law: what each inscription claims does not depend on the order in which
/// the fetches of the contents finished.
pub proof fn lemma_claims_ignore_fetch_order(
    a: BlockRun,
    b: BlockRun,
    p: Seq<(Seq<char>, Seq<char>)>,
    q: Seq<(Seq<char>, Seq<char>)>,
    i: int,
)
    requires
        consistent(p),
        p.to_multiset() == q.to_multiset(),
        a.ids@ == b.ids@,
        a.contents_from(p),
        b.contents_from(q),
        0 <= i < a.ids.len(),
    ensures
        a.claim_at(i) == b.claim_at(i),
{
    lemma_fetch_order_irrelevant(p, q, a.ids[i]@);
    assert(match a.content_at(i) {
        Some(c) => fetched_content(p, a.ids[i]@) == Some(c@),
        None => fetched_content(p, a.ids[i]@) is None,
    });
    assert(match b.content_at(i) {
        Some(c) => fetched_content(q, b.ids[i]@) == Some(c@),
        None => fetched_content(q, b.ids[i]@) is None,
    });
}

impl BlockRun {
    /// `answer` takes the run from `self` to `after`, returning `step`, as
    /// the method for that kind of answer does.
    pub open spec fn step_post(self, after: BlockRun, step: Step, answer: Answer) -> bool {
        &&& self.wf()
        &&& after.wf()
        &&& match answer {
            Answer::Block(data) => self.stage is AwaitBlock && self.on_block_post(after, step, data),
            Answer::Contents(fetched) => self.stage is AwaitContents && self.on_contents_post(
                after,
                step,
                fetched,
            ),
            Answer::Resume => self.stage is Scan && self.resume_post(after, step),
            Answer::DistrictSaved(inserted) => self.stage is AwaitDistrictSave
                && self.on_district_saved_post(after, step, inserted),
            Answer::ClaimedBlock(data) => self.stage is AwaitTargetBlock
                && self.on_claimed_block_post(after, step, data),
            Answer::Meta(meta) => self.stage is AwaitMeta && self.on_meta_post(after, step, meta),
            Answer::Parent(district) => self.stage is AwaitParent && self.on_parent_post(
                after,
                step,
                district,
            ),
            Answer::ParcelSaved(inserted) => self.stage is AwaitParcelSave
                && self.on_parcel_saved_post(after, step, inserted),
            Answer::Finished => self.stage is AwaitFinish && self.on_finished_post(after, step),
        }
    }

    /// Two runs are at the same point of the same block and see the same
    /// claims; their contents may differ in everything else.
    pub open spec fn same_course(self, other: BlockRun) -> bool {
        &&& self.height == other.height
        &&& self.scan_block == other.scan_block
        &&& self.ids@ == other.ids@
        &&& self.cursor == other.cursor
        &&& stages_alike(self.stage, other.stage)
        &&& forall|i: int| #[trigger] self.claim_at(i) == other.claim_at(i)
    }
}

/// The two stages are the same, up to the text of the parents they hold.
pub open spec fn stages_alike(s: Stage, t: Stage) -> bool {
    match (s, t) {
        (
            Stage::AwaitParent {
                tx_index: a1,
                block_number: b1,
                transaction_count: c1,
                parents: p1,
                next: n1,
            },
            Stage::AwaitParent {
                tx_index: a2,
                block_number: b2,
                transaction_count: c2,
                parents: p2,
                next: n2,
            },
        ) => a1 == a2 && b1 == b2 && c1 == c2 && p1@ == p2@ && n1 == n2,
        (
            Stage::AwaitParcelSave {
                tx_index: a1,
                block_number: b1,
                transaction_count: c1,
                district: d1,
                parents: p1,
                parent: n1,
            },
            Stage::AwaitParcelSave {
                tx_index: a2,
                block_number: b2,
                transaction_count: c2,
                district: d2,
                parents: p2,
                parent: n2,
            },
        ) => a1 == a2 && b1 == b2 && c1 == c2 && d1 == d2 && p1@ == p2@ && n1 == n2,
        _ => s == t,
    }
}

/// The two notes report the same, up to the text of their reasons.
pub open spec fn notes_alike(a: Option<Note>, b: Option<Note>) -> bool {
    match (a, b) {
        (
            Some(Note::DistrictInvalid { number: n1, reason: r1 }),
            Some(Note::DistrictInvalid { number: n2, reason: r2 }),
        ) => n1 == n2 && r1@ == r2@,
        (
            Some(Note::ParcelInvalid { tx_index: t1, block_number: b1, reason: r1 }),
            Some(Note::ParcelInvalid { tx_index: t2, block_number: b2, reason: r2 }),
        ) => t1 == t2 && b1 == b2 && r1@ == r2@,
        _ => a == b,
    }
}

/// The two steps ask for the same and report the same.
pub open spec fn steps_agree(a: Step, b: Step) -> bool {
    a.action == b.action && notes_alike(a.note, b.note)
}

/// The two answers are the same, except that fetched contents may come in
/// another order, each inscription having one content.
pub open spec fn answers_alike(a: Answer, b: Answer) -> bool {
    match (a, b) {
        (Answer::Contents(p), Answer::Contents(q)) => consistent(pair_views(p@)) && pair_views(
            p@,
        ).to_multiset() == pair_views(q@).to_multiset(),
        _ => a == b,
    }
}

/// `runs` and `steps` are what processing block `height` goes through when
/// the outside world gives `answers`: `runs[0]` and `steps[0]` come from
/// `new`, and answer `k` takes `runs[k]` to `runs[k + 1]`, returning `steps[k + 1]`.
pub open spec fn is_trace(
    height: u64,
    runs: Seq<BlockRun>,
    steps: Seq<Step>,
    answers: Seq<Answer>,
) -> bool {
    &&& runs.len() == answers.len() + 1
    &&& steps.len() == runs.len()
    &&& BlockRun::new_post(height, runs[0], steps[0])
    &&& forall|k: int|
        0 <= k < answers.len() ==> #[trigger] runs[k].step_post(runs[k + 1], steps[k + 1], answers[k])
}

/// One answer keeps two runs on the same course, and they take the same step.
proof fn lemma_step_keeps_course(
    a: BlockRun,
    b: BlockRun,
    a2: BlockRun,
    b2: BlockRun,
    sa: Step,
    sb: Step,
    xa: Answer,
    xb: Answer,
)
    requires
        a.same_course(b),
        a.step_post(a2, sa, xa),
        b.step_post(b2, sb, xb),
        answers_alike(xa, xb),
    ensures
        a2.same_course(b2),
        steps_agree(sa, sb),
{
    match xa {
        Answer::Contents(p) => {
            let q = xb->Contents_0;
            assert forall|i: int| #[trigger] a2.claim_at(i) == b2.claim_at(i) by {
                if 0 <= i < a2.ids.len() {
                    lemma_claims_ignore_fetch_order(a2, b2, pair_views(p@), pair_views(q@), i);
                }
            }
            assert(a2.ids@ == b2.ids@);
        },
        Answer::Block(d) => {
            assert forall|i: int| #[trigger] a2.claim_at(i) == b2.claim_at(i) by {
                assert(a2.claim_at(i) == a.claim_at(i));
                assert(b2.claim_at(i) == b.claim_at(i));
            }
        },
        _ => {
            assert forall|i: int| #[trigger] a2.claim_at(i) == b2.claim_at(i) by {
                assert(a2.claim_at(i) == a.claim_at(i));
                assert(b2.claim_at(i) == b.claim_at(i));
            }
        },
    }
}

proof fn lemma_traces_keep_course(
    height: u64,
    ra: Seq<BlockRun>,
    sa: Seq<Step>,
    xa: Seq<Answer>,
    rb: Seq<BlockRun>,
    sb: Seq<Step>,
    xb: Seq<Answer>,
    n: int,
)
    requires
        is_trace(height, ra, sa, xa),
        is_trace(height, rb, sb, xb),
        xa.len() == xb.len(),
        forall|k: int| 0 <= k < xa.len() ==> answers_alike(#[trigger] xa[k], xb[k]),
        0 <= n < ra.len(),
    ensures
        ra[n].same_course(rb[n]),
        steps_agree(sa[n], sb[n]),
    decreases n,
{
    if n == 0 {
        assert forall|i: int| #[trigger] ra[0].claim_at(i) == rb[0].claim_at(i) by {}
    } else {
        lemma_traces_keep_course(height, ra, sa, xa, rb, sb, xb, n - 1);
        let j = n - 1;
        assert(ra[j].step_post(ra[j + 1], sa[j + 1], xa[j]));
        assert(rb[j].step_post(rb[j + 1], sb[j + 1], xb[j]));
        assert(answers_alike(xa[j], xb[j]));
        lemma_step_keeps_course(
            ra[n - 1],
            rb[n - 1],
            ra[n],
            rb[n],
            sa[n],
            sb[n],
            xa[n - 1],
            xb[n - 1],
        );
    }
}

/// Law: processing a block is deterministic whatever order the fetches of
/// the contents finish in: two runs of the same block that get the same
/// answers, except for fetched contents that come in another order (each
/// inscription having one content), ask for the same things and report the
/// same things at every step.
pub proof fn lemma_run_ignores_fetch_order(
    height: u64,
    ra: Seq<BlockRun>,
    sa: Seq<Step>,
    xa: Seq<Answer>,
    rb: Seq<BlockRun>,
    sb: Seq<Step>,
    xb: Seq<Answer>,
)
    requires
        is_trace(height, ra, sa, xa),
        is_trace(height, rb, sb, xb),
        xa.len() == xb.len(),
        forall|k: int| 0 <= k < xa.len() ==> answers_alike(#[trigger] xa[k], xb[k]),
    ensures
        forall|k: int| 0 <= k < sa.len() ==> steps_agree(#[trigger] sa[k], sb[k]),
{
    assert forall|k: int| 0 <= k < sa.len() implies steps_agree(#[trigger] sa[k], sb[k]) by {
        lemma_traces_keep_course(height, ra, sa, xa, rb, sb, xb, k);
    }
}

/// Along a trace the cursor never moves back.
proof fn lemma_cursor_monotone(
    height: u64,
    runs: Seq<BlockRun>,
    steps: Seq<Step>,
    answers: Seq<Answer>,
    k: int,
    m: int,
)
    requires
        is_trace(height, runs, steps, answers),
        0 <= k <= m < runs.len(),
    ensures
        runs[k].cursor <= runs[m].cursor,
    decreases m - k,
{
    if k < m {
        lemma_cursor_monotone(height, runs, steps, answers, k, m - 1);
        let j = m - 1;
        assert(runs[j].step_post(runs[j + 1], steps[j + 1], answers[j]));
    }
}

/// Law: the inscriptions of a block are handled one after another in block
/// order: every step taken at an earlier inscription comes before every step
/// taken at a later one. So a parcel's parents are looked up before any
/// district of a later inscription is saved, and after every district of an
/// earlier inscription was saved.
pub proof fn lemma_block_order(
    height: u64,
    runs: Seq<BlockRun>,
    steps: Seq<Step>,
    answers: Seq<Answer>,
    k: int,
    m: int,
)
    requires
        is_trace(height, runs, steps, answers),
        0 <= k < runs.len(),
        0 <= m < runs.len(),
        runs[k].cursor < runs[m].cursor,
    ensures
        k < m,
{
    if m <= k {
        lemma_cursor_monotone(height, runs, steps, answers, m, k);
    }
}

/// Law: `lex_less` is a strict order, so a run, which moves down in it at
/// every step, never returns to a state it has left.
pub proof fn lemma_lex_less_strict(
    a: (nat, nat, nat, nat),
    b: (nat, nat, nat, nat),
    c: (nat, nat, nat, nat),
)
    ensures
        !lex_less(a, a),
        lex_less(a, b) && lex_less(b, c) ==> lex_less(a, c),
{
}

/// Law: a district is saved only for the inscription under the cursor, when
/// it claims that district and the district is not after the scan block.
pub proof fn lemma_district_saves_are_valid(run: BlockRun)
    requires
        run.wf(),
        run.stage is AwaitDistrictSave,
    ensures
        run.cursor < run.ids.len(),
        run.claim_at(run.cursor as int) == (BitmapClaim::District {
            number: run.stage->AwaitDistrictSave_number,
        }),
        run.stage->AwaitDistrictSave_number <= run.scan_block,
        run.scan_block == run.height,
{
}

/// Law: a parcel is saved only for the inscription under the cursor, when it
/// claims that parcel, the parcel's block is not after the block being
/// processed, the claimed block lists the transaction, and the district is
/// one inscribed by one of the parcel's parents.
pub proof fn lemma_parcel_saves_are_valid(run: BlockRun)
    requires
        run.wf(),
        run.stage is AwaitParcelSave,
    ensures
        run.parcel_in_scope(
            run.stage->AwaitParcelSave_tx_index,
            run.stage->AwaitParcelSave_block_number,
            run.stage->AwaitParcelSave_transaction_count,
        ),
        run.stage->AwaitParcelSave_parent < run.stage->AwaitParcelSave_parents.len(),
        run.stage->AwaitParcelSave_block_number <= run.height,
{
}

/// Law: a block is recorded as processed only once every one of its
/// inscriptions has been looked at.
pub proof fn lemma_finish_after_all_inscriptions(run: BlockRun)
    requires
        run.wf(),
        run.stage is AwaitFinish || run.stage is Done,
    ensures
        run.cursor == run.ids.len(),
{
}

} // verus!
