use golf_submissions::decision::decide;
use golf_submissions::record::{Outcome, Submission, SubmissionRecord, Timestamp, Verdict};
use golf_submissions::score::{is_better, score};
use golf_submissions::text::same_text;

fn code_of_len(n: usize) -> String {
    "x".repeat(n)
}

fn passing() -> Verdict {
    Verdict { pass: true, diagnostics: String::from("all tests passed") }
}

fn failing() -> Verdict {
    Verdict { pass: false, diagnostics: String::from("test 2: wrong output") }
}

fn submission_of_len(n: usize) -> Submission {
    Submission {
        user: 7,
        challenge: 3,
        language: String::from("python"),
        language_version: String::from("3.12"),
        code: code_of_len(n),
    }
}

fn prior(score: u64, valid: bool) -> SubmissionRecord {
    SubmissionRecord {
        id: 11,
        user: 7,
        challenge: 3,
        language: String::from("python"),
        language_version: String::from("3.11"),
        code: String::from("the stored code"),
        score,
        valid,
        last_improved_at: Timestamp { nanos: 1_000 },
        validated_at: Timestamp { nanos: 2_000 },
    }
}

#[test]
fn score_is_the_length_in_bytes() {
    assert_eq!(score(""), 0);
    assert_eq!(score("print(1)"), 8);
    assert_eq!(score(&code_of_len(40)), 40);
    // Two bytes for the accented letter, three for each of the two signs.
    assert_eq!(score("é"), 2);
    assert_eq!(score("日本"), 6);
    assert_eq!(score("a\nb"), 3);
}

#[test]
fn the_lower_score_is_better() {
    assert!(is_better(30, 40));
    assert!(!is_better(40, 30));
    assert!(!is_better(30, 30));
    assert!(is_better(0, 1));
    assert!(!is_better(u64::MAX, u64::MAX));
    assert!(is_better(u64::MAX - 1, u64::MAX));
}

#[test]
fn same_text_compares_contents() {
    assert!(same_text("python", "python"));
    assert!(same_text("", ""));
    assert!(!same_text("python", "python3"));
    assert!(!same_text("python", "pythoN"));
    assert!(!same_text("", "c"));
    assert!(same_text("日本", "日本"));
    assert!(!same_text("日本", "日本語"));
}

#[test]
fn first_passing_code_creates_the_record() {
    let (outcome, stored) =
        decide(None, &passing(), submission_of_len(40), 21, Timestamp { nanos: 5_000 });
    assert_eq!(outcome, Outcome::Created);
    let expected = SubmissionRecord {
        id: 21,
        user: 7,
        challenge: 3,
        language: String::from("python"),
        language_version: String::from("3.12"),
        code: code_of_len(40),
        score: 40,
        valid: true,
        last_improved_at: Timestamp { nanos: 5_000 },
        validated_at: Timestamp { nanos: 5_000 },
    };
    assert_eq!(stored, Some(expected));
}

#[test]
fn better_code_updates_and_improves() {
    let (outcome, stored) = decide(
        Some(prior(40, true)),
        &passing(),
        submission_of_len(30),
        21,
        Timestamp { nanos: 5_000 },
    );
    assert_eq!(outcome, Outcome::Updated);
    let expected = SubmissionRecord {
        id: 11,
        user: 7,
        challenge: 3,
        language: String::from("python"),
        language_version: String::from("3.11"),
        code: code_of_len(30),
        score: 30,
        valid: true,
        last_improved_at: Timestamp { nanos: 5_000 },
        validated_at: Timestamp { nanos: 5_000 },
    };
    assert_eq!(stored, Some(expected));
}

#[test]
fn worse_code_leaves_the_record() {
    let (outcome, stored) = decide(
        Some(prior(30, true)),
        &passing(),
        submission_of_len(45),
        21,
        Timestamp { nanos: 5_000 },
    );
    assert_eq!(outcome, Outcome::Unchanged);
    assert_eq!(stored, Some(prior(30, true)));
    assert_eq!(stored.unwrap().score, 30);
}

#[test]
fn tie_updates_but_is_no_improvement() {
    let (outcome, stored) = decide(
        Some(prior(30, true)),
        &passing(),
        submission_of_len(30),
        21,
        Timestamp { nanos: 5_000 },
    );
    assert_eq!(outcome, Outcome::Updated);
    let stored = stored.unwrap();
    assert_eq!(stored.score, 30);
    assert_eq!(stored.code, code_of_len(30));
    assert_eq!(stored.last_improved_at, Timestamp { nanos: 1_000 });
    assert_eq!(stored.validated_at, Timestamp { nanos: 5_000 });
    assert!(stored.valid);
}

#[test]
fn broken_record_is_replaced_by_worse_code() {
    let (outcome, stored) = decide(
        Some(prior(50, false)),
        &passing(),
        submission_of_len(60),
        21,
        Timestamp { nanos: 5_000 },
    );
    assert_eq!(outcome, Outcome::Updated);
    let stored = stored.unwrap();
    assert_eq!(stored.score, 60);
    assert!(stored.valid);
    assert_eq!(stored.code, code_of_len(60));
    // Worse than the stale score: no improvement.
    assert_eq!(stored.last_improved_at, Timestamp { nanos: 1_000 });
    assert_eq!(stored.validated_at, Timestamp { nanos: 5_000 });
    assert_eq!(stored.id, 11);
}

#[test]
fn broken_record_replaced_by_better_code_improves() {
    let (outcome, stored) = decide(
        Some(prior(50, false)),
        &passing(),
        submission_of_len(10),
        21,
        Timestamp { nanos: 5_000 },
    );
    assert_eq!(outcome, Outcome::Updated);
    let stored = stored.unwrap();
    assert_eq!(stored.score, 10);
    assert_eq!(stored.last_improved_at, Timestamp { nanos: 5_000 });
}

#[test]
fn broken_record_replaced_on_equal_score() {
    let (outcome, stored) = decide(
        Some(prior(50, false)),
        &passing(),
        submission_of_len(50),
        21,
        Timestamp { nanos: 5_000 },
    );
    assert_eq!(outcome, Outcome::Updated);
    let stored = stored.unwrap();
    assert!(stored.valid);
    assert_eq!(stored.last_improved_at, Timestamp { nanos: 1_000 });
}

#[test]
fn failing_code_is_rejected_and_nothing_changes() {
    let (outcome, stored) = decide(
        Some(prior(30, true)),
        &failing(),
        submission_of_len(5),
        21,
        Timestamp { nanos: 5_000 },
    );
    assert_eq!(outcome, Outcome::Rejected);
    assert_eq!(stored, Some(prior(30, true)));
}

#[test]
fn failing_code_is_rejected_whatever_is_stored() {
    let (outcome, stored) =
        decide(None, &failing(), submission_of_len(5), 21, Timestamp { nanos: 5_000 });
    assert_eq!(outcome, Outcome::Rejected);
    assert_eq!(stored, None);

    let (outcome, stored) = decide(
        Some(prior(50, false)),
        &failing(),
        submission_of_len(5),
        21,
        Timestamp { nanos: 5_000 },
    );
    assert_eq!(outcome, Outcome::Rejected);
    assert_eq!(stored, Some(prior(50, false)));
}

#[test]
fn rejection_is_idempotent() {
    let (_, once) = decide(
        Some(prior(30, true)),
        &failing(),
        submission_of_len(5),
        21,
        Timestamp { nanos: 5_000 },
    );
    let (outcome, twice) =
        decide(once, &failing(), submission_of_len(5), 22, Timestamp { nanos: 6_000 });
    assert_eq!(outcome, Outcome::Rejected);
    assert_eq!(twice, Some(prior(30, true)));
}

#[test]
fn update_keeps_the_identity_of_the_record() {
    let (_, stored) = decide(
        Some(prior(40, true)),
        &passing(),
        submission_of_len(30),
        99,
        Timestamp { nanos: 5_000 },
    );
    let stored = stored.unwrap();
    assert_eq!(stored.id, 11);
    assert_eq!(stored.user, 7);
    assert_eq!(stored.challenge, 3);
    assert_eq!(stored.language, "python");
    assert_eq!(stored.language_version, "3.11");
}

#[test]
fn empty_code_that_passes_is_stored_with_score_zero() {
    let (outcome, stored) =
        decide(None, &passing(), submission_of_len(0), 21, Timestamp { nanos: 5_000 });
    assert_eq!(outcome, Outcome::Created);
    let stored = stored.unwrap();
    assert_eq!(stored.score, 0);
    assert_eq!(stored.code, "");
}

#[test]
fn resubmitting_the_same_code_settles() {
    let (first, stored) =
        decide(None, &passing(), submission_of_len(12), 21, Timestamp { nanos: 5_000 });
    assert_eq!(first, Outcome::Created);
    let (again, settled) =
        decide(stored, &passing(), submission_of_len(12), 22, Timestamp { nanos: 6_000 });
    assert_eq!(again, Outcome::Updated);
    let settled = settled.unwrap();
    assert_eq!(settled.id, 21);
    assert_eq!(settled.score, 12);
    assert_eq!(settled.last_improved_at, Timestamp { nanos: 5_000 });
    assert_eq!(settled.validated_at, Timestamp { nanos: 6_000 });
}

#[test]
fn last_improvement_moves_only_on_a_strictly_better_score() {
    let mut stored = Some(prior(40, true));
    let lengths: [usize; 5] = [40, 45, 39, 39, 38];
    let expected: [i128; 5] = [1_000, 1_000, 12_000, 12_000, 14_000];
    for k in 0..5 {
        let at = Timestamp { nanos: 10_000 + 1_000 * (k as i128) };
        let (_, next) = decide(stored, &passing(), submission_of_len(lengths[k]), 21, at);
        assert_eq!(next.as_ref().unwrap().last_improved_at, Timestamp { nanos: expected[k] });
        stored = next;
    }
    assert_eq!(stored.unwrap().score, 38);
}

#[test]
fn outcome_status_codes() {
    assert_eq!(Outcome::Created.status_code(), 201);
    assert_eq!(Outcome::Updated.status_code(), 201);
    assert_eq!(Outcome::Unchanged.status_code(), 200);
    assert_eq!(Outcome::Rejected.status_code(), 400);
}

#[test]
fn timestamps_are_ordered_by_their_nanoseconds() {
    let early = Timestamp { nanos: -5 };
    let late = Timestamp { nanos: 3 };
    assert!(early.is_before(&late));
    assert!(!late.is_before(&early));
    assert!(!late.is_before(&late));
}
