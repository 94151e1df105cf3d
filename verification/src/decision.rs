//! The decision engine: given what is stored for a slot and a judged
//! submission, what is stored next.
//!
//! A failing submission never touches what is stored. A passing one creates
//! the record if there is none, replaces a record that no longer passes
//! whatever its score, and replaces a passing record when the new score is
//! better or equal. On a tie the newer code wins, but the time of the last
//! improvement stays.

use vstd::prelude::*;
use crate::record::{
    in_slot, view_of, Outcome, RecordView, Submission, SubmissionRecord, SubmissionView,
    Timestamp, Verdict,
};
use crate::score::{is_better, score, spec_is_better, spec_score};

verus! {

/// Whether a passing submission with `candidate_score` takes the place of
/// `existing`: always when `existing` no longer passes, else when the score
/// is better or equal.
pub open spec fn replaces(existing: RecordView, candidate_score: int) -> bool {
    !existing.valid || spec_is_better(candidate_score, existing.score) || candidate_score
        == existing.score
}

/// The outcome of a submission that scored `candidate_score`.
pub open spec fn spec_outcome(
    existing: Option<RecordView>,
    pass: bool,
    candidate_score: int,
) -> Outcome {
    if !pass {
        Outcome::Rejected
    } else {
        match existing {
            None => Outcome::Created,
            Some(e) => if replaces(e, candidate_score) {
                Outcome::Updated
            } else {
                Outcome::Unchanged
            },
        }
    }
}

/// The record that a first passing submission creates.
pub open spec fn created_record(
    submission: SubmissionView,
    new_id: int,
    submitted_at: int,
) -> RecordView {
    RecordView {
        id: new_id,
        user: submission.user,
        challenge: submission.challenge,
        language: submission.language,
        language_version: submission.language_version,
        code: submission.code,
        score: spec_score(submission.code) as int,
        valid: true,
        last_improved_at: submitted_at,
        validated_at: submitted_at,
    }
}

/// The record that takes the place of `existing` when `code` replaces its
/// code. The time of the last improvement moves only if the score became
/// strictly better.
pub open spec fn updated_record(
    existing: RecordView,
    code: Seq<char>,
    submitted_at: int,
) -> RecordView {
    RecordView {
        code: code,
        score: spec_score(code) as int,
        valid: true,
        last_improved_at: if spec_is_better(spec_score(code) as int, existing.score) {
            submitted_at
        } else {
            existing.last_improved_at
        },
        validated_at: submitted_at,
        ..existing
    }
}

/// What is stored for the slot once the submission has been decided.
pub open spec fn spec_stored(
    existing: Option<RecordView>,
    pass: bool,
    submission: SubmissionView,
    new_id: int,
    submitted_at: int,
) -> Option<RecordView> {
    match spec_outcome(existing, pass, spec_score(submission.code) as int) {
        Outcome::Created => Some(created_record(submission, new_id, submitted_at)),
        Outcome::Updated => Some(updated_record(existing->0, submission.code, submitted_at)),
        Outcome::Unchanged => existing,
        Outcome::Rejected => existing,
    }
}

/// Decides a judged submission against `existing`, the record stored for
/// the submission's own slot, if the slot has one.
///
/// Returns the outcome and the record as it is to be stored from now on
/// (`None` while the slot has no record). `new_id` is the identifier that
/// the record gets if one is created; a record that is replaced keeps its
/// identifier, its slot and its language version. After `Created` and
/// `Updated` the caller has one write to make; after `Unchanged` and
/// `Rejected` none.
pub fn decide(
    existing: Option<SubmissionRecord>,
    verdict: &Verdict,
    submission: Submission,
    new_id: i32,
    submitted_at: Timestamp,
) -> (decision: (Outcome, Option<SubmissionRecord>))
    requires
        existing matches Some(e) ==> in_slot(
            e@,
            submission.user as int,
            submission.challenge as int,
            submission.language@,
        ),
    ensures
        decision.0 == spec_outcome(
            view_of(existing),
            verdict.pass,
            spec_score(submission.code@) as int,
        ),
        view_of(decision.1) == spec_stored(
            view_of(existing),
            verdict.pass,
            submission@,
            new_id as int,
            submitted_at.nanos as int,
        ),
        // A failing submission changes nothing, whatever is stored.
        !verdict.pass ==> decision.0 == Outcome::Rejected && decision.1 == existing,
        // The first passing submission creates the record.
        verdict.pass && existing is None ==> decision.0 == Outcome::Created && decision.1 is Some
            && decision.1->0.last_improved_at == submitted_at && decision.1->0.validated_at
            == submitted_at,
        // A record that no longer passes is replaced, whatever the scores.
        verdict.pass && existing is Some && !existing->0.valid ==> decision.0 == Outcome::Updated,
        // A strictly better score replaces the record and counts as an improvement.
        verdict.pass && existing is Some && existing->0.valid && spec_score(submission.code@)
            < existing->0.score ==> decision.0 == Outcome::Updated && decision.1 is Some
            && decision.1->0.last_improved_at == submitted_at,
        // An equal score replaces the record, but is no improvement.
        verdict.pass && existing is Some && existing->0.valid && spec_score(submission.code@)
            == existing->0.score ==> decision.0 == Outcome::Updated && decision.1 is Some
            && decision.1->0.last_improved_at == existing->0.last_improved_at,
        // A strictly worse score leaves a passing record as it is.
        verdict.pass && existing is Some && existing->0.valid && spec_score(submission.code@)
            > existing->0.score ==> decision.0 == Outcome::Unchanged && decision.1 == existing,
{
    if !verdict.pass {
        return (Outcome::Rejected, existing);
    }
    let candidate_score = score(submission.code.as_str());
    match existing {
        None => {
            let record = SubmissionRecord {
                id: new_id,
                user: submission.user,
                challenge: submission.challenge,
                language: submission.language,
                language_version: submission.language_version,
                code: submission.code,
                score: candidate_score,
                valid: true,
                last_improved_at: submitted_at,
                validated_at: submitted_at,
            };
            (Outcome::Created, Some(record))
        },
        Some(e) => {
            let improves = is_better(candidate_score, e.score);
            if !e.valid || improves || candidate_score == e.score {
                let record = SubmissionRecord {
                    id: e.id,
                    user: e.user,
                    challenge: e.challenge,
                    language: e.language,
                    language_version: e.language_version,
                    code: submission.code,
                    score: candidate_score,
                    valid: true,
                    last_improved_at: if improves {
                        submitted_at
                    } else {
                        e.last_improved_at
                    },
                    validated_at: submitted_at,
                };
                (Outcome::Updated, Some(record))
            } else {
                (Outcome::Unchanged, Some(e))
            }
        },
    }
}

/// Whatever is decided, a record stays the record of its slot and keeps its
/// identifier: only a first passing submission gives the slot a record, and
/// that record is the submitter's, with the identifier handed in.
pub proof fn lemma_decision_keeps_slot(
    existing: Option<RecordView>,
    pass: bool,
    submission: SubmissionView,
    new_id: int,
    submitted_at: int,
)
    requires
        existing matches Some(e) ==> in_slot(
            e,
            submission.user,
            submission.challenge,
            submission.language,
        ),
    ensures
        spec_stored(existing, pass, submission, new_id, submitted_at) matches Some(r) ==> in_slot(
            r,
            submission.user,
            submission.challenge,
            submission.language,
        ) && r.id == (match existing {
            Some(e) => e.id,
            None => new_id,
        }),
        spec_stored(existing, pass, submission, new_id, submitted_at) is None <==> existing is None
            && !pass,
{
}

/// The time of the last improvement never goes back, as long as the clock
/// does not: where a submission comes no earlier than the last improvement
/// of the stored record, the record that is stored next has improved no
/// earlier than the stored one. It moves only where the score became
/// strictly better.
pub proof fn lemma_last_improved_never_regresses(
    existing: RecordView,
    pass: bool,
    submission: SubmissionView,
    new_id: int,
    submitted_at: int,
)
    requires
        existing.last_improved_at <= submitted_at,
    ensures
        spec_stored(Some(existing), pass, submission, new_id, submitted_at) matches Some(r)
            && existing.last_improved_at <= r.last_improved_at && (r.last_improved_at
            != existing.last_improved_at ==> pass && spec_score(submission.code) < existing.score
            && r.score < existing.score),
{
}

/// What is stored after a passing submission passes, and among passing
/// records the stored score never gets worse.
pub proof fn lemma_score_never_worsens(
    existing: Option<RecordView>,
    submission: SubmissionView,
    new_id: int,
    submitted_at: int,
)
    ensures
        spec_stored(existing, true, submission, new_id, submitted_at) matches Some(r) && (
        existing matches Some(e) ==> (e.valid ==> r.valid && r.score <= e.score)) && (
        spec_outcome(existing, true, spec_score(submission.code) as int) != Outcome::Unchanged
            ==> r.valid && r.score == spec_score(submission.code) && r.code == submission.code),
{
}

/// Posting the same passing code again is safe. Once a submission was
/// stored, the same code submitted again is stored again as a tie: the
/// score and the time of the last improvement stay, only the time of the
/// validation moves. Where the stored solution was better and stayed, it
/// stays again.
pub proof fn lemma_resubmission_settles(
    existing: Option<RecordView>,
    submission: SubmissionView,
    first_id: int,
    first_at: int,
    second_id: int,
    second_at: int,
)
    ensures
        ({
            let score = spec_score(submission.code) as int;
            let first = spec_outcome(existing, true, score);
            let stored = spec_stored(existing, true, submission, first_id, first_at);
            let again = spec_outcome(stored, true, score);
            let settled = spec_stored(stored, true, submission, second_id, second_at);
            &&& stored is Some && settled is Some
            &&& first == Outcome::Unchanged ==> again == Outcome::Unchanged && settled == stored
            &&& first != Outcome::Unchanged ==> again == Outcome::Updated && settled->0
                == RecordView { validated_at: second_at, ..stored->0 }
        }),
{
}

/// A failing submission is rejected and leaves what is stored as it is,
/// however often it is made.
pub proof fn lemma_rejection_changes_nothing(
    existing: Option<RecordView>,
    submission: SubmissionView,
    new_id: int,
    submitted_at: int,
)
    ensures
        spec_outcome(existing, false, spec_score(submission.code) as int) == Outcome::Rejected,
        spec_stored(existing, false, submission, new_id, submitted_at) == existing,
{
}

} // verus!
