//! A record store held in memory: at most one record for each slot, that
//! is for each user, challenge and language. Submissions are decided
//! against it, and leaderboards are made from it.

use vstd::prelude::*;
use crate::decision::{created_record, decide, spec_outcome, spec_stored, updated_record};
use crate::error::Error;
use crate::ranking::{
    board_entries, is_ranking_of, lemma_filter_push, lemma_ranking_unique, on_board, rank,
};
use crate::record::{
    in_slot, views, LeaderboardEntry, Outcome, RecordView, Submission, SubmissionRecord,
    SubmissionView, Timestamp, Verdict,
};
use crate::score::spec_score;
use crate::text::same_text;

verus! {

/// A stored solution as its author sees it: the code, and whether it still
/// passes.
#[derive(Debug, PartialEq, Eq)]
pub struct Code {
    pub code: String,
    pub valid: bool,
}

/// Whether `a` and `b` belong to the same user, challenge and language.
pub open spec fn same_slot(a: RecordView, b: RecordView) -> bool {
    in_slot(a, b.user, b.challenge, b.language)
}

/// No two records of `store` share a slot.
pub open spec fn slots_distinct(store: Seq<RecordView>) -> bool {
    forall|i: int, j: int|
        0 <= i < j < store.len() ==> !same_slot(#[trigger] store[i], #[trigger] store[j])
}

/// Whether position `i` of `store` holds the record of the given slot.
pub open spec fn occupies(
    store: Seq<RecordView>,
    i: int,
    user: int,
    challenge: int,
    language: Seq<char>,
) -> bool {
    0 <= i < store.len() && in_slot(store[i], user, challenge, language)
}

/// The position of the record of the given slot, if the slot holds one.
pub open spec fn slot_index(
    store: Seq<RecordView>,
    user: int,
    challenge: int,
    language: Seq<char>,
) -> Option<int> {
    if exists|i: int| #[trigger] occupies(store, i, user, challenge, language) {
        Some(choose|i: int| #[trigger] occupies(store, i, user, challenge, language))
    } else {
        None
    }
}

/// The record of the given slot, if the slot holds one.
pub open spec fn spec_best_for(
    store: Seq<RecordView>,
    user: int,
    challenge: int,
    language: Seq<char>,
) -> Option<RecordView> {
    match slot_index(store, user, challenge, language) {
        Some(i) => Some(store[i]),
        None => None,
    }
}

/// The outcome of a judged submission and the store after it: a created
/// record is added at the end, an updated one takes the place of the
/// record it replaces, and otherwise the store stays as it is.
pub open spec fn spec_submit(
    store: Seq<RecordView>,
    pass: bool,
    submission: SubmissionView,
    new_id: int,
    submitted_at: int,
) -> (Outcome, Seq<RecordView>) {
    let slot = slot_index(store, submission.user, submission.challenge, submission.language);
    let existing = spec_best_for(store, submission.user, submission.challenge, submission.language);
    let outcome = spec_outcome(existing, pass, spec_score(submission.code) as int);
    let after = match outcome {
        Outcome::Created => store.push(created_record(submission, new_id, submitted_at)),
        Outcome::Updated => store.update(
            slot->0,
            updated_record(existing->0, submission.code, submitted_at),
        ),
        Outcome::Unchanged => store,
        Outcome::Rejected => store,
    };
    (outcome, after)
}

/// In a store without shared slots, a position that holds the record of a
/// slot is the position of that slot.
pub proof fn lemma_slot_index_unique(
    store: Seq<RecordView>,
    i: int,
    user: int,
    challenge: int,
    language: Seq<char>,
)
    requires
        slots_distinct(store),
        occupies(store, i, user, challenge, language),
    ensures
        slot_index(store, user, challenge, language) == Some(i),
{
    // Whatever position is chosen for the slot shares the slot with `i`.
    let j = choose|j: int| #[trigger] occupies(store, j, user, challenge, language);
    assert(same_slot(store[i], store[j]));
}

/// A record added to a free slot shares its slot with no other record.
pub proof fn lemma_push_keeps_distinct(store: Seq<RecordView>, record: RecordView)
    requires
        slots_distinct(store),
        slot_index(store, record.user, record.challenge, record.language) is None,
    ensures
        slots_distinct(store.push(record)),
{
    let after = store.push(record);
    assert forall|i: int, j: int| 0 <= i < j < after.len() implies !same_slot(
        #[trigger] after[i],
        #[trigger] after[j],
    ) by {
        if j == store.len() {
            assert(!occupies(store, i, record.user, record.challenge, record.language));
        }
    }
}

/// A record put in the place of the record of its own slot shares its slot
/// with no other record.
pub proof fn lemma_update_keeps_distinct(store: Seq<RecordView>, i: int, record: RecordView)
    requires
        slots_distinct(store),
        0 <= i < store.len(),
        same_slot(store[i], record),
    ensures
        slots_distinct(store.update(i, record)),
{
    let after = store.update(i, record);
    assert forall|a: int, b: int| 0 <= a < b < after.len() implies !same_slot(
        #[trigger] after[a],
        #[trigger] after[b],
    ) by {
        assert(!same_slot(store[a], store[b]));
    }
}

/// A submission keeps the store in order: no two records share a slot
/// afterwards, and the number of records grows by one where a record was
/// created and stays in every other case.
pub proof fn lemma_submit_keeps_slots_distinct(
    store: Seq<RecordView>,
    pass: bool,
    submission: SubmissionView,
    new_id: int,
    submitted_at: int,
)
    requires
        slots_distinct(store),
    ensures
        ({
            let (outcome, after) = spec_submit(store, pass, submission, new_id, submitted_at);
            &&& slots_distinct(after)
            &&& outcome == Outcome::Created ==> after.len() == store.len() + 1
            &&& outcome != Outcome::Created ==> after.len() == store.len()
        }),
{
    let (outcome, after) = spec_submit(store, pass, submission, new_id, submitted_at);
    let slot = slot_index(store, submission.user, submission.challenge, submission.language);
    if outcome == Outcome::Created {
        lemma_push_keeps_distinct(store, created_record(submission, new_id, submitted_at));
    } else if outcome == Outcome::Updated {
        let i = slot->0;
        assert(occupies(store, i, submission.user, submission.challenge, submission.language));
        lemma_update_keeps_distinct(
            store,
            i,
            updated_record(store[i], submission.code, submitted_at),
        );
    }
}

/// After a submission the slot holds what the decision engine decided for
/// it.
pub proof fn lemma_submit_stores_decision(
    store: Seq<RecordView>,
    pass: bool,
    submission: SubmissionView,
    new_id: int,
    submitted_at: int,
)
    requires
        slots_distinct(store),
    ensures
        spec_best_for(
            spec_submit(store, pass, submission, new_id, submitted_at).1,
            submission.user,
            submission.challenge,
            submission.language,
        ) == spec_stored(
            spec_best_for(store, submission.user, submission.challenge, submission.language),
            pass,
            submission,
            new_id,
            submitted_at,
        ),
{
    let (outcome, after) = spec_submit(store, pass, submission, new_id, submitted_at);
    let slot = slot_index(store, submission.user, submission.challenge, submission.language);
    lemma_submit_keeps_slots_distinct(store, pass, submission, new_id, submitted_at);
    if outcome == Outcome::Created {
        assert(occupies(
            after,
            store.len() as int,
            submission.user,
            submission.challenge,
            submission.language,
        ));
        lemma_slot_index_unique(
            after,
            store.len() as int,
            submission.user,
            submission.challenge,
            submission.language,
        );
    } else if outcome == Outcome::Updated {
        lemma_slot_index_unique(
            after,
            slot->0,
            submission.user,
            submission.challenge,
            submission.language,
        );
    }
}

/// A submission touches its own slot only: what any other slot holds is the
/// same before and after.
pub proof fn lemma_submit_leaves_other_slots(
    store: Seq<RecordView>,
    pass: bool,
    submission: SubmissionView,
    new_id: int,
    submitted_at: int,
    user: int,
    challenge: int,
    language: Seq<char>,
)
    requires
        slots_distinct(store),
        !(user == submission.user && challenge == submission.challenge && language
            == submission.language),
    ensures
        spec_best_for(
            spec_submit(store, pass, submission, new_id, submitted_at).1,
            user,
            challenge,
            language,
        ) == spec_best_for(store, user, challenge, language),
{
    let (outcome, after) = spec_submit(store, pass, submission, new_id, submitted_at);
    let slot = slot_index(store, submission.user, submission.challenge, submission.language);
    lemma_submit_keeps_slots_distinct(store, pass, submission, new_id, submitted_at);
    if outcome == Outcome::Created || outcome == Outcome::Updated {
        if outcome == Outcome::Updated {
            assert(occupies(
                store,
                slot->0,
                submission.user,
                submission.challenge,
                submission.language,
            ));
        }
        match slot_index(store, user, challenge, language) {
            Some(j) => {
                lemma_slot_index_unique(after, j, user, challenge, language);
            },
            None => {
                assert forall|k: int| !occupies(after, k, user, challenge, language) by {
                    if 0 <= k < store.len() {
                        assert(!occupies(store, k, user, challenge, language));
                    }
                }
            },
        }
    }
}

/// The time of a submission has no say in its outcome.
pub proof fn lemma_outcome_ignores_time(
    store: Seq<RecordView>,
    pass: bool,
    submission: SubmissionView,
    new_id: int,
    first_at: int,
    second_at: int,
)
    ensures
        spec_submit(store, pass, submission, new_id, first_at).0 == spec_submit(
            store,
            pass,
            submission,
            new_id,
            second_at,
        ).0,
{
}

/// A submission that is rejected, or passes behind a better stored
/// solution, leaves the store as it is, and with it every leaderboard.
pub proof fn lemma_unchanged_store_unchanged_boards(
    store: Seq<RecordView>,
    pass: bool,
    submission: SubmissionView,
    new_id: int,
    submitted_at: int,
    challenge: int,
    language: Seq<char>,
    before: Seq<LeaderboardEntry>,
    after: Seq<LeaderboardEntry>,
)
    requires
        spec_submit(store, pass, submission, new_id, submitted_at).0 == Outcome::Rejected
            || spec_submit(store, pass, submission, new_id, submitted_at).0 == Outcome::Unchanged,
        is_ranking_of(board_entries(store, challenge, language), before),
        is_ranking_of(
            board_entries(
                spec_submit(store, pass, submission, new_id, submitted_at).1,
                challenge,
                language,
            ),
            after,
        ),
    ensures
        spec_submit(store, pass, submission, new_id, submitted_at).1 == store,
        after == before,
{
    lemma_ranking_unique(board_entries(store, challenge, language), before, after);
}

/// The stored solutions, at most one for each slot.
pub struct RecordStore {
    records: Vec<SubmissionRecord>,
}

impl View for RecordStore {
    type V = Seq<RecordView>;

    closed spec fn view(&self) -> Seq<RecordView> {
        views(self.records@)
    }
}

impl RecordStore {
    #[verifier::type_invariant]
    spec fn slots_are_distinct(&self) -> bool {
        slots_distinct(views(self.records@))
    }

    /// A store without records.
    pub fn new() -> (store: Self)
        ensures
            store@ == Seq::<RecordView>::empty(),
            slots_distinct(store@),
    {
        RecordStore { records: Vec::new() }
    }

    /// The number of records.
    pub fn len(&self) -> (n: usize)
        ensures
            n == self@.len(),
    {
        self.records.len()
    }

    /// Adds `record` at the end, where its slot is free.
    fn push_record(&mut self, record: SubmissionRecord)
        requires
            slot_index(
                old(self)@,
                record.user as int,
                record.challenge as int,
                record.language@,
            ) is None,
        ensures
            final(self)@ == old(self)@.push(record@),
            slots_distinct(final(self)@),
    {
        proof {
            use_type_invariant(&*self);
            lemma_push_keeps_distinct(self@, record@);
            assert(views(self.records@.push(record)) =~= views(self.records@).push(record@));
        }
        let mut records: Vec<SubmissionRecord> = Vec::new();
        core::mem::swap(&mut self.records, &mut records);
        records.push(record);
        core::mem::swap(&mut self.records, &mut records);
    }

    /// Puts `record` at position `i`, where that position holds the record
    /// of the same slot.
    fn set_record(&mut self, i: usize, record: SubmissionRecord)
        requires
            i < old(self)@.len(),
            same_slot(old(self)@[i as int], record@),
        ensures
            final(self)@ == old(self)@.update(i as int, record@),
            slots_distinct(final(self)@),
    {
        proof {
            use_type_invariant(&*self);
            lemma_update_keeps_distinct(self@, i as int, record@);
            assert(views(self.records@.update(i as int, record)) =~= views(self.records@).update(
                i as int,
                record@,
            ));
        }
        let mut records: Vec<SubmissionRecord> = Vec::new();
        core::mem::swap(&mut self.records, &mut records);
        records.set(i, record);
        core::mem::swap(&mut self.records, &mut records);
    }

    /// Where the record of the given slot stands, if the slot holds one.
    fn find_slot(&self, user: i32, challenge: i32, language: &str) -> (slot: Option<usize>)
        ensures
            match slot {
                Some(i) => slot_index(self@, user as int, challenge as int, language@) == Some(
                    i as int,
                ),
                None => slot_index(self@, user as int, challenge as int, language@) is None,
            },
    {
        proof {
            use_type_invariant(self);
        }
        let mut i: usize = 0;
        while i < self.records.len()
            invariant
                i <= self.records.len(),
                slots_distinct(self@),
                self@ == views(self.records@),
                forall|k: int|
                    0 <= k < i ==> !occupies(self@, k, user as int, challenge as int, language@),
            decreases self.records.len() - i,
        {
            if self.records[i].is_in_slot(user, challenge, language) {
                proof {
                    lemma_slot_index_unique(
                        self@,
                        i as int,
                        user as int,
                        challenge as int,
                        language@,
                    );
                }
                return Some(i);
            }
            i += 1;
        }
        None
    }

    /// The record stored for `user`, `challenge` and `language`, whether its
    /// code still passes or not.
    pub fn best_for(&self, user: i32, challenge: i32, language: &str) -> (found: Option<
        &SubmissionRecord,
    >)
        ensures
            slots_distinct(self@),
            match found {
                Some(r) => spec_best_for(self@, user as int, challenge as int, language@) == Some(
                    r@,
                ),
                None => spec_best_for(self@, user as int, challenge as int, language@) is None,
            },
    {
        proof {
            use_type_invariant(self);
        }
        match self.find_slot(user, challenge, language) {
            Some(i) => Some(&self.records[i]),
            None => None,
        }
    }

    /// Adds `record`, unless its slot holds a record already.
    pub fn insert(&mut self, record: SubmissionRecord) -> (done: Result<(), Error>)
        ensures
            slots_distinct(old(self)@),
            slots_distinct(final(self)@),
            match done {
                Ok(_) => slot_index(
                    old(self)@,
                    record.user as int,
                    record.challenge as int,
                    record.language@,
                ) is None && final(self)@ == old(self)@.push(record@),
                Err(e) => e == Error::StoreConflict && slot_index(
                    old(self)@,
                    record.user as int,
                    record.challenge as int,
                    record.language@,
                ) is Some && final(self)@ == old(self)@,
            },
    {
        proof {
            use_type_invariant(&*self);
        }
        match self.find_slot(record.user, record.challenge, record.language.as_str()) {
            Some(_) => Err(Error::StoreConflict),
            None => {
                self.push_record(record);
                Ok(())
            },
        }
    }

    /// Puts `record` in the place of the record that its slot holds.
    pub fn update_by_key(&mut self, record: SubmissionRecord) -> (done: Result<(), Error>)
        ensures
            slots_distinct(old(self)@),
            slots_distinct(final(self)@),
            match done {
                Ok(_) => slot_index(
                    old(self)@,
                    record.user as int,
                    record.challenge as int,
                    record.language@,
                ) is Some && final(self)@ == old(self)@.update(
                    slot_index(
                        old(self)@,
                        record.user as int,
                        record.challenge as int,
                        record.language@,
                    )->0,
                    record@,
                ),
                Err(e) => e == Error::NotFound && slot_index(
                    old(self)@,
                    record.user as int,
                    record.challenge as int,
                    record.language@,
                ) is None && final(self)@ == old(self)@,
            },
    {
        proof {
            use_type_invariant(&*self);
        }
        match self.find_slot(record.user, record.challenge, record.language.as_str()) {
            Some(i) => {
                self.set_record(i, record);
                Ok(())
            },
            None => Err(Error::NotFound),
        }
    }

    /// A store that holds `records`, in their order. Fails with
    /// `StoreConflict` where two of them share a slot.
    pub fn from_records(records: Vec<SubmissionRecord>) -> (made: Result<RecordStore, Error>)
        ensures
            match made {
                Ok(store) => slots_distinct(views(records@)) && store@ == views(records@),
                Err(e) => e == Error::StoreConflict && !slots_distinct(views(records@)),
            },
    {
        let ghost all = views(records@);
        let mut j: usize = 0;
        while j < records.len()
            invariant
                j <= records.len(),
                all == views(records@),
                forall|a: int, b: int|
                    0 <= a < b < j ==> !same_slot(#[trigger] all[a], #[trigger] all[b]),
            decreases records.len() - j,
        {
            let mut i: usize = 0;
            while i < j
                invariant
                    i <= j < records.len(),
                    all == views(records@),
                    forall|a: int| 0 <= a < i ==> !same_slot(#[trigger] all[a], all[j as int]),
                decreases j - i,
            {
                let other = &records[j];
                if records[i].is_in_slot(other.user, other.challenge, other.language.as_str()) {
                    assert(same_slot(all[i as int], all[j as int]));
                    return Err(Error::StoreConflict);
                }
                i += 1;
            }
            j += 1;
        }
        Ok(RecordStore { records })
    }

    /// Decides a judged submission against the record of its slot and
    /// stores what was decided: the new record after `Created`, the
    /// replaced one after `Updated`, nothing after `Unchanged` and
    /// `Rejected`. `new_id` is the identifier of the record if one is
    /// created.
    pub fn submit(
        &mut self,
        submission: Submission,
        verdict: &Verdict,
        new_id: i32,
        submitted_at: Timestamp,
    ) -> (outcome: Outcome)
        ensures
            slots_distinct(old(self)@),
            slots_distinct(final(self)@),
            (outcome, final(self)@) == spec_submit(
                old(self)@,
                verdict.pass,
                submission@,
                new_id as int,
                submitted_at.nanos as int,
            ),
    {
        proof {
            use_type_invariant(&*self);
        }
        let slot = self.find_slot(
            submission.user,
            submission.challenge,
            submission.language.as_str(),
        );
        let existing = match slot {
            Some(i) => Some(self.records[i].clone()),
            None => None,
        };
        let (outcome, stored) = decide(existing, verdict, submission, new_id, submitted_at);
        match outcome {
            Outcome::Created => {
                self.push_record(stored.unwrap());
            },
            Outcome::Updated => {
                self.set_record(slot.unwrap(), stored.unwrap());
            },
            Outcome::Unchanged => {},
            Outcome::Rejected => {},
        }
        outcome
    }

    /// The records of `challenge` and `language` whose code still passes,
    /// in the order in which they are stored.
    pub fn list_valid(&self, challenge: i32, language: &str) -> (listed: Vec<SubmissionRecord>)
        ensures
            views(listed@) == self@.filter(on_board(challenge as int, language@)),
    {
        let ghost pred = on_board(challenge as int, language@);
        let mut listed: Vec<SubmissionRecord> = Vec::new();
        let mut i: usize = 0;
        proof {
            reveal(Seq::filter);
            assert(self@.take(0).filter(pred) =~= views(listed@));
        }
        while i < self.records.len()
            invariant
                i <= self.records.len(),
                self@ == views(self.records@),
                pred == on_board(challenge as int, language@),
                views(listed@) == self@.take(i as int).filter(pred),
            decreases self.records.len() - i,
        {
            let record = &self.records[i];
            proof {
                assert(self@.take(i + 1) =~= self@.take(i as int).push(record@));
                lemma_filter_push(self@.take(i as int), record@, pred);
            }
            if record.valid && record.challenge == challenge && same_text(
                record.language.as_str(),
                language,
            ) {
                let copy = record.clone();
                proof {
                    assert(views(listed@.push(copy)) =~= views(listed@).push(record@));
                }
                listed.push(copy);
            }
            i += 1;
        }
        proof {
            assert(self@.take(self.records.len() as int) =~= self@);
        }
        listed
    }

    /// The leaderboard of `challenge` and `language`.
    pub fn get_leaderboard(&self, challenge: i32, language: &str) -> (ranking: Vec<
        LeaderboardEntry,
    >)
        ensures
            is_ranking_of(board_entries(self@, challenge as int, language@), ranking@),
    {
        rank(&self.records, challenge, language)
    }

    /// The code stored for `user`, `challenge` and `language`, and whether
    /// it still passes. `None` means that the user has no history there;
    /// code that no longer passes means a history that is broken.
    pub fn get_best(&self, user: i32, challenge: i32, language: &str) -> (best: Option<Code>)
        ensures
            match best {
                Some(c) => spec_best_for(
                    self@,
                    user as int,
                    challenge as int,
                    language@,
                ) matches Some(r) && c.code@ == r.code && c.valid == r.valid,
                None => spec_best_for(self@, user as int, challenge as int, language@) is None,
            },
    {
        match self.best_for(user, challenge, language) {
            Some(r) => Some(Code { code: r.code.clone(), valid: r.valid }),
            None => None,
        }
    }
}

} // verus!
