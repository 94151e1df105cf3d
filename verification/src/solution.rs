//! What the pages of a challenge show and do: the page of a challenge in a
//! language, and the posting of a new solution to it.

use vstd::prelude::*;
use crate::clock::now_utc;
use crate::decision::spec_outcome;
use crate::error::{Error, JudgeFailure};
use crate::ranking::{board_entries, is_ranking_of};
use crate::record::{LeaderboardEntry, Outcome, RecordView, Submission, Timestamp, Verdict};
use crate::score::spec_score;
use crate::store::{spec_best_for, spec_submit, RecordStore};

verus! {

/// What the page of a challenge in a language shows.
#[derive(Debug, PartialEq, Eq)]
pub struct AllSolutionsOutput {
    /// The leaderboard of the challenge and language.
    pub leaderboard: Vec<LeaderboardEntry>,
    /// The judge's verdict on the code just posted, if any was.
    pub tests: Option<Verdict>,
    /// The code shown to the visitor: what was just posted, else the stored
    /// solution of the visitor.
    pub code: Option<String>,
    /// Whether the visitor had a stored solution that no longer passes.
    pub previous_solution_invalid: bool,
}

/// Whether `best` is a stored solution that no longer passes.
pub open spec fn is_broken(best: Option<RecordView>) -> bool {
    best matches Some(r) && !r.valid
}

/// What `all_solutions` shows to `account` on the page of `challenge` and
/// `language`.
pub open spec fn page_shown(
    store: Seq<RecordView>,
    challenge: int,
    language: Seq<char>,
    account: Option<int>,
    page: AllSolutionsOutput,
) -> bool {
    let best = match account {
        Some(user) => spec_best_for(store, user, challenge, language),
        None => None,
    };
    &&& is_ranking_of(board_entries(store, challenge, language), page.leaderboard@)
    &&& page.tests is None
    &&& page.previous_solution_invalid == is_broken(best)
    &&& match best {
        Some(r) => page.code matches Some(c) && c@ == r.code,
        None => page.code is None,
    }
}

/// The page of `challenge_id` in `language_name` as `account` sees it: the
/// leaderboard, and the visitor's own stored code with the note whether it
/// still passes. A visitor who is not signed in sees the leaderboard only.
pub fn all_solutions(
    store: &RecordStore,
    challenge_id: i32,
    language_name: &str,
    account: Option<i32>,
) -> (page: AllSolutionsOutput)
    ensures
        page_shown(
            store@,
            challenge_id as int,
            language_name@,
            match account {
                Some(user) => Some(user as int),
                None => None,
            },
            page,
        ),
{
    let leaderboard = store.get_leaderboard(challenge_id, language_name);
    let code = match account {
        Some(user) => store.get_best(user, challenge_id, language_name),
        None => None,
    };
    match code {
        Some(best) => AllSolutionsOutput {
            leaderboard,
            tests: None,
            code: Some(best.code),
            previous_solution_invalid: !best.valid,
        },
        None => AllSolutionsOutput {
            leaderboard,
            tests: None,
            code: None,
            previous_solution_invalid: false,
        },
    }
}

/// What posting `submission` at the time `at` does, once the judge has
/// answered with `judged`: `before` and `after` are the store before and
/// after, `done` is what the caller gets.
///
/// Where the judge gave no verdict, the caller gets `JudgeFailure` and the
/// store stays as it was. Else the submission is decided and stored, and
/// the page shows the leaderboard as it then stands, the verdict, the code
/// that was posted, and whether the stored solution had been broken.
pub open spec fn solution_posted(
    before: Seq<RecordView>,
    after: Seq<RecordView>,
    submission: Submission,
    judged: Result<Verdict, JudgeFailure>,
    new_id: int,
    at: int,
    done: Result<(Outcome, AllSolutionsOutput), Error>,
) -> bool {
    match judged {
        Err(_) => done == Err::<(Outcome, AllSolutionsOutput), Error>(Error::JudgeFailure) && after
            == before,
        Ok(verdict) => {
            &&& done matches Ok((outcome, page))
            &&& (outcome, after) == spec_submit(before, verdict.pass, submission@, new_id, at)
            &&& is_ranking_of(
                board_entries(after, submission.challenge as int, submission.language@),
                page.leaderboard@,
            )
            &&& page.tests == Some(verdict)
            &&& page.code matches Some(c) && c@ == submission.code@
            &&& page.previous_solution_invalid == is_broken(
                spec_best_for(
                    before,
                    submission.user as int,
                    submission.challenge as int,
                    submission.language@,
                ),
            )
        },
    }
}

/// Posts `submission`, judged with `judged`, at the time `submitted_at`.
/// `new_id` is the identifier of the record if one is created.
pub fn new_solution_at(
    store: &mut RecordStore,
    submission: Submission,
    judged: Result<Verdict, JudgeFailure>,
    new_id: i32,
    submitted_at: Timestamp,
) -> (done: Result<(Outcome, AllSolutionsOutput), Error>)
    ensures
        solution_posted(
            old(store)@,
            final(store)@,
            submission,
            judged,
            new_id as int,
            submitted_at.nanos as int,
            done,
        ),
{
    let verdict = match judged {
        Ok(verdict) => verdict,
        Err(_) => {
            return Err(Error::JudgeFailure);
        },
    };
    let challenge = submission.challenge;
    let language = submission.language.clone();
    let code = submission.code.clone();
    let previous_solution_invalid = match store.best_for(
        submission.user,
        challenge,
        language.as_str(),
    ) {
        Some(previous) => !previous.valid,
        None => false,
    };
    let outcome = store.submit(submission, &verdict, new_id, submitted_at);
    let leaderboard = store.get_leaderboard(challenge, language.as_str());
    Ok(
        (
            outcome,
            AllSolutionsOutput {
                leaderboard,
                tests: Some(verdict),
                code: Some(code),
                previous_solution_invalid,
            },
        ),
    )
}

/// Posts `submission`, judged with `judged`, at the time that the system
/// clock shows. `new_id` is the identifier of the record if one is created.
///
/// The time is whatever the clock gave. The outcome does not depend on it.
pub fn new_solution(
    store: &mut RecordStore,
    submission: Submission,
    judged: Result<Verdict, JudgeFailure>,
    new_id: i32,
) -> (done: Result<(Outcome, AllSolutionsOutput), Error>)
    ensures
        exists|at: int| #[trigger]
            solution_posted(
                old(store)@,
                final(store)@,
                submission,
                judged,
                new_id as int,
                at,
                done,
            ),
        done matches Ok((outcome, _)) ==> judged matches Ok(verdict) && outcome == spec_outcome(
            spec_best_for(
                old(store)@,
                submission.user as int,
                submission.challenge as int,
                submission.language@,
            ),
            verdict.pass,
            spec_score(submission.code@) as int,
        ),
{
    let now = now_utc();
    let ghost before = store@;
    let done = new_solution_at(store, submission, judged, new_id, now);
    assert(solution_posted(
        before,
        store@,
        submission,
        judged,
        new_id as int,
        now.nanos as int,
        done,
    ));
    done
}

} // verus!
