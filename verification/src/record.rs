//! The data the engine works on: stored solutions, incoming submissions, the
//! judge's verdict, and the rows of a leaderboard.

use vstd::prelude::*;
use crate::text::same_text;

verus! {

/// A point in time, as nanoseconds since the Unix epoch.
#[derive(Clone, Copy, Debug, PartialEq, Eq, Structural)]
pub struct Timestamp {
    pub nanos: i128,
}

impl Timestamp {
    /// Whether this point in time lies strictly before `other`.
    pub fn is_before(&self, other: &Timestamp) -> (before: bool)
        ensures
            before == (self.nanos < other.nanos),
    {
        self.nanos < other.nanos
    }
}

/// What became of a submission.
#[derive(Clone, Copy, Debug, PartialEq, Eq, Structural)]
pub enum Outcome {
    /// The first passing solution for its slot: a record was created.
    Created,
    /// The stored record was replaced by the submitted code.
    Updated,
    /// The code passed, but the stored solution is better and stays.
    Unchanged,
    /// The code did not pass the judge.
    Rejected,
}

impl Outcome {
    /// The HTTP status that tells the caller of this outcome: 201 where the
    /// submitted code was stored, 200 where it passed but the stored code
    /// stays, 400 where it did not pass.
    pub open spec fn spec_status_code(self) -> u16 {
        match self {
            Outcome::Created => 201,
            Outcome::Updated => 201,
            Outcome::Unchanged => 200,
            Outcome::Rejected => 400,
        }
    }

    /// The HTTP status that tells the caller of this outcome.
    pub fn status_code(&self) -> (status: u16)
        ensures
            status == self.spec_status_code(),
    {
        match self {
            Outcome::Created => 201,
            Outcome::Updated => 201,
            Outcome::Unchanged => 200,
            Outcome::Rejected => 400,
        }
    }
}

/// The judge's result for one submission. The engine reads `pass` only; the
/// diagnostics are handed through to the caller as they came.
#[derive(Debug, PartialEq, Eq)]
pub struct Verdict {
    pub pass: bool,
    pub diagnostics: String,
}

/// A solution as it arrives: who submits it, for which challenge and
/// language, and the code.
#[derive(Debug, PartialEq, Eq)]
pub struct Submission {
    pub user: i32,
    pub challenge: i32,
    pub language: String,
    pub language_version: String,
    pub code: String,
}

/// The mathematical value of a [`Submission`].
pub struct SubmissionView {
    pub user: int,
    pub challenge: int,
    pub language: Seq<char>,
    pub language_version: Seq<char>,
    pub code: Seq<char>,
}

impl View for Submission {
    type V = SubmissionView;

    open spec fn view(&self) -> SubmissionView {
        SubmissionView {
            user: self.user as int,
            challenge: self.challenge as int,
            language: self.language@,
            language_version: self.language_version@,
            code: self.code@,
        }
    }
}

/// The stored solution of one user for one challenge in one language. There
/// is at most one per such slot; it holds the code that was last accepted.
#[derive(Debug, PartialEq, Eq)]
pub struct SubmissionRecord {
    pub id: i32,
    pub user: i32,
    pub challenge: i32,
    pub language: String,
    pub language_version: String,
    pub code: String,
    /// Lower is better.
    pub score: u64,
    /// Whether `code` still passes the judge.
    pub valid: bool,
    /// When the score last became strictly better.
    pub last_improved_at: Timestamp,
    /// When `code` last passed the judge.
    pub validated_at: Timestamp,
}

/// The mathematical value of a [`SubmissionRecord`].
pub struct RecordView {
    pub id: int,
    pub user: int,
    pub challenge: int,
    pub language: Seq<char>,
    pub language_version: Seq<char>,
    pub code: Seq<char>,
    pub score: int,
    pub valid: bool,
    pub last_improved_at: int,
    pub validated_at: int,
}

impl View for SubmissionRecord {
    type V = RecordView;

    open spec fn view(&self) -> RecordView {
        RecordView {
            id: self.id as int,
            user: self.user as int,
            challenge: self.challenge as int,
            language: self.language@,
            language_version: self.language_version@,
            code: self.code@,
            score: self.score as int,
            valid: self.valid,
            last_improved_at: self.last_improved_at.nanos as int,
            validated_at: self.validated_at.nanos as int,
        }
    }
}

impl Clone for SubmissionRecord {
    fn clone(&self) -> (copy: Self)
        ensures
            copy == *self,
    {
        SubmissionRecord {
            id: self.id,
            user: self.user,
            challenge: self.challenge,
            language: self.language.clone(),
            language_version: self.language_version.clone(),
            code: self.code.clone(),
            score: self.score,
            valid: self.valid,
            last_improved_at: self.last_improved_at,
            validated_at: self.validated_at,
        }
    }
}

/// The value of a record that may be absent.
pub open spec fn view_of(record: Option<SubmissionRecord>) -> Option<RecordView> {
    match record {
        Some(r) => Some(r@),
        None => None,
    }
}

/// The values of a sequence of records.
pub open spec fn views(records: Seq<SubmissionRecord>) -> Seq<RecordView> {
    records.map_values(|r: SubmissionRecord| r@)
}

/// Whether a record occupies the slot of `user`, `challenge` and `language`.
pub open spec fn in_slot(
    record: RecordView,
    user: int,
    challenge: int,
    language: Seq<char>,
) -> bool {
    record.user == user && record.challenge == challenge && record.language == language
}

/// One row of a leaderboard.
#[derive(Clone, Copy, Debug, PartialEq, Eq, Structural)]
pub struct LeaderboardEntry {
    pub user: i32,
    pub score: u64,
    pub last_improved_at: Timestamp,
}

/// The leaderboard row that a record stands for.
pub open spec fn entry_of(record: RecordView) -> LeaderboardEntry {
    LeaderboardEntry {
        user: record.user as i32,
        score: record.score as u64,
        last_improved_at: Timestamp { nanos: record.last_improved_at as i128 },
    }
}

impl SubmissionRecord {
    /// Whether this record occupies the slot of `user`, `challenge` and
    /// `language`.
    pub fn is_in_slot(&self, user: i32, challenge: i32, language: &str) -> (inside: bool)
        ensures
            inside == in_slot(self@, user as int, challenge as int, language@),
    {
        self.user == user && self.challenge == challenge && same_text(
            self.language.as_str(),
            language,
        )
    }

    /// The leaderboard row that this record stands for.
    pub fn entry(&self) -> (row: LeaderboardEntry)
        ensures
            row == entry_of(self@),
    {
        LeaderboardEntry {
            user: self.user,
            score: self.score,
            last_improved_at: self.last_improved_at,
        }
    }
}

} // verus!
