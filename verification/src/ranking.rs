//! The leaderboard of a challenge and language: the stored solutions that
//! still pass, best score first. Among equal scores the one that reached its
//! score earlier comes first, and entries that tie on both keep the order in
//! which their records are stored.

use vstd::prelude::*;
use crate::record::{entry_of, views, LeaderboardEntry, RecordView, SubmissionRecord, Timestamp};
use crate::text::same_text;

verus! {

/// The records that appear on the board of `challenge` and `language`: those
/// of that challenge and language whose code still passes.
pub open spec fn on_board(challenge: int, language: Seq<char>) -> spec_fn(RecordView) -> bool {
    |r: RecordView| r.valid && r.challenge == challenge && r.language == language
}

/// The rows of the board of `challenge` and `language`, in the order in
/// which their records are stored.
pub open spec fn board_entries(
    records: Seq<RecordView>,
    challenge: int,
    language: Seq<char>,
) -> Seq<LeaderboardEntry> {
    records.filter(on_board(challenge, language)).map_values(|r: RecordView| entry_of(r))
}

/// `a` ranks strictly before `b`: a lower score, or the same score reached
/// earlier.
pub open spec fn ranks_before(a: LeaderboardEntry, b: LeaderboardEntry) -> bool {
    a.score < b.score || (a.score == b.score && a.last_improved_at.nanos
        < b.last_improved_at.nanos)
}

/// `a` and `b` have the same score, reached at the same time.
pub open spec fn tied(a: LeaderboardEntry, b: LeaderboardEntry) -> bool {
    a.score == b.score && a.last_improved_at == b.last_improved_at
}

/// The entries with the given score, reached at the given time.
pub open spec fn tied_at(score: u64, at: Timestamp) -> spec_fn(LeaderboardEntry) -> bool {
    |e: LeaderboardEntry| e.score == score && e.last_improved_at == at
}

/// No entry of `s` stands behind one that it ranks strictly before.
pub open spec fn is_ranked(s: Seq<LeaderboardEntry>) -> bool {
    forall|i: int, j: int| 0 <= i < j < s.len() ==> !ranks_before(#[trigger] s[j], #[trigger] s[i])
}

/// `ranking` is the leaderboard made of `entries`: the same rows, in ranked
/// order, where rows that tie stand in the order they have in `entries`.
pub open spec fn is_ranking_of(
    entries: Seq<LeaderboardEntry>,
    ranking: Seq<LeaderboardEntry>,
) -> bool {
    &&& is_ranked(ranking)
    &&& ranking.to_multiset() == entries.to_multiset()
    &&& forall|score: u64, at: Timestamp| #[trigger]
        ranking.filter(tied_at(score, at)) == entries.filter(tied_at(score, at))
}

/// Whether `row` is the row of a record of `records` that is on the board of
/// `challenge` and `language`.
pub open spec fn shown_by(
    records: Seq<RecordView>,
    challenge: int,
    language: Seq<char>,
    row: LeaderboardEntry,
) -> bool {
    exists|k: int|
        0 <= k < records.len() && on_board(challenge, language)(#[trigger] records[k])
            && entry_of(records[k]) == row
}

/// Filtering a sequence with one more item at its end.
pub proof fn lemma_filter_push<A>(s: Seq<A>, x: A, pred: spec_fn(A) -> bool)
    ensures
        s.push(x).filter(pred) == if pred(x) {
            s.filter(pred).push(x)
        } else {
            s.filter(pred)
        },
{
    reveal(Seq::filter);
    assert(s.push(x).drop_last() =~= s);
}

/// Filtering a sequence of which no item is kept.
proof fn lemma_filter_none<A>(s: Seq<A>, pred: spec_fn(A) -> bool)
    requires
        forall|i: int| 0 <= i < s.len() ==> !pred(#[trigger] s[i]),
    ensures
        s.filter(pred) == Seq::<A>::empty(),
    decreases s.len(),
{
    reveal(Seq::filter);
    if s.len() > 0 {
        lemma_filter_none(s.drop_last(), pred);
    }
}

/// The rows of a board grow by the row of the next record, if that record
/// is on the board.
proof fn lemma_board_entries_step(
    records: Seq<RecordView>,
    i: int,
    challenge: int,
    language: Seq<char>,
)
    requires
        0 <= i < records.len(),
    ensures
        board_entries(records.take(i + 1), challenge, language) == if on_board(challenge, language)(
            records[i],
        ) {
            board_entries(records.take(i), challenge, language).push(entry_of(records[i]))
        } else {
            board_entries(records.take(i), challenge, language)
        },
{
    let pred = on_board(challenge, language);
    assert(records.take(i + 1) =~= records.take(i).push(records[i]));
    lemma_filter_push(records.take(i), records[i], pred);
    let kept = records.take(i).filter(pred);
    let row = |r: RecordView| entry_of(r);
    if pred(records[i]) {
        assert(kept.push(records[i]).map_values(row) =~= kept.map_values(row).push(
            entry_of(records[i]),
        ));
    }
}

/// Whether `a` ranks strictly before `b`.
pub fn outranks(a: &LeaderboardEntry, b: &LeaderboardEntry) -> (before: bool)
    ensures
        before == ranks_before(*a, *b),
{
    a.score < b.score || (a.score == b.score && a.last_improved_at.is_before(&b.last_improved_at))
}

/// Puts `entry` into a ranked board, behind every row that it does not
/// rank strictly before.
fn insert_ranked(ranking: &mut Vec<LeaderboardEntry>, entry: LeaderboardEntry)
    requires
        is_ranked(old(ranking)@),
    ensures
        is_ranking_of(old(ranking)@.push(entry), final(ranking)@),
{
    let mut pos: usize = 0;
    while pos < ranking.len() && !outranks(&entry, &ranking[pos])
        invariant
            pos <= ranking.len(),
            *ranking == *old(ranking),
            forall|k: int| 0 <= k < pos ==> !ranks_before(entry, #[trigger] ranking@[k]),
        decreases ranking.len() - pos,
    {
        pos += 1;
    }
    let ghost before = ranking@;
    ranking.insert(pos, entry);
    proof {
        let after = ranking@;
        let head = before.subrange(0, pos as int);
        let tail = before.subrange(pos as int, before.len() as int);
        assert(before =~= head + tail);
        assert(after =~= head.push(entry) + tail);
        // The new row ranks strictly before every row behind it.
        assert forall|k: int| 0 <= k < tail.len() implies ranks_before(
            entry,
            #[trigger] tail[k],
        ) by {}
        assert(is_ranked(after));
        assert(after.to_multiset() == before.push(entry).to_multiset()) by {
            broadcast use vstd::seq_lib::group_to_multiset_ensures;

        }
        assert forall|score: u64, at: Timestamp| #[trigger]
            after.filter(tied_at(score, at)) == before.push(entry).filter(tied_at(score, at)) by {
            let pred = tied_at(score, at);
            Seq::filter_distributes_over_add(head, tail, pred);
            Seq::filter_distributes_over_add(head.push(entry), tail, pred);
            lemma_filter_push(head, entry, pred);
            lemma_filter_push(before, entry, pred);
            if pred(entry) {
                // No row behind the new one ties with it.
                lemma_filter_none(tail, pred);
                assert(head.filter(pred).push(entry) + Seq::<LeaderboardEntry>::empty()
                    =~= head.filter(pred).push(entry));
            }
        }
    }
}

/// The leaderboard of `challenge` and `language`, made from `records`.
///
/// Records of other challenges or languages, and records whose code no
/// longer passes, do not appear.
pub fn rank(records: &Vec<SubmissionRecord>, challenge: i32, language: &str) -> (ranking: Vec<
    LeaderboardEntry,
>)
    ensures
        is_ranking_of(board_entries(views(records@), challenge as int, language@), ranking@),
{
    let mut ranking: Vec<LeaderboardEntry> = Vec::new();
    let mut i: usize = 0;
    let ghost all = views(records@);
    proof {
        reveal(Seq::filter);
        assert(board_entries(all.take(0), challenge as int, language@) =~= Seq::<
            LeaderboardEntry,
        >::empty());
    }
    while i < records.len()
        invariant
            i <= records.len(),
            all == views(records@),
            is_ranking_of(board_entries(all.take(i as int), challenge as int, language@), ranking@),
        decreases records.len() - i,
    {
        let record = &records[i];
        proof {
            lemma_board_entries_step(all, i as int, challenge as int, language@);
        }
        if record.valid && record.challenge == challenge && same_text(
            record.language.as_str(),
            language,
        ) {
            let ghost so_far = board_entries(all.take(i as int), challenge as int, language@);
            let ghost before = ranking@;
            let row = record.entry();
            insert_ranked(&mut ranking, row);
            proof {
                broadcast use vstd::seq_lib::group_to_multiset_ensures;
                assert forall|score: u64, at: Timestamp| #[trigger]
                    ranking@.filter(tied_at(score, at)) == so_far.push(row).filter(
                        tied_at(score, at),
                    ) by {
                    let pred = tied_at(score, at);
                    lemma_filter_push(before, row, pred);
                    lemma_filter_push(so_far, row, pred);
                }
            }
        }
        i += 1;
    }
    proof {
        assert(all.take(records.len() as int) =~= all);
    }
    ranking
}

/// Of two rows one ranks strictly before the other, or they tie, and no two
/// of these hold at once.
pub proof fn lemma_rank_order_total(a: LeaderboardEntry, b: LeaderboardEntry)
    ensures
        ranks_before(a, b) || ranks_before(b, a) || tied(a, b),
        !(ranks_before(a, b) && ranks_before(b, a)),
        tied(a, b) ==> !ranks_before(a, b) && !ranks_before(b, a),
{
}

/// On a leaderboard the lower score stands first, and of two rows with the
/// same score the one that reached it earlier.
pub proof fn lemma_ranking_order(
    entries: Seq<LeaderboardEntry>,
    ranking: Seq<LeaderboardEntry>,
    i: int,
    j: int,
)
    requires
        is_ranking_of(entries, ranking),
        0 <= i < ranking.len(),
        0 <= j < ranking.len(),
    ensures
        ranking[i].score < ranking[j].score ==> i < j,
        ranking[i].score == ranking[j].score && ranking[i].last_improved_at.nanos
            < ranking[j].last_improved_at.nanos ==> i < j,
{
}

/// A leaderboard shows the passing records of its challenge and language,
/// each once, and nothing else: a record whose code no longer passes is
/// never on it.
pub proof fn lemma_ranking_members(
    records: Seq<RecordView>,
    challenge: int,
    language: Seq<char>,
    ranking: Seq<LeaderboardEntry>,
)
    requires
        is_ranking_of(board_entries(records, challenge, language), ranking),
    ensures
        ranking.len() == records.filter(on_board(challenge, language)).len(),
        forall|i: int|
            0 <= i < ranking.len() ==> shown_by(
                records,
                challenge,
                language,
                #[trigger] ranking[i],
            ),
        forall|k: int|
            0 <= k < records.len() && on_board(challenge, language)(#[trigger] records[k])
                ==> ranking.contains(entry_of(records[k])),
{
    let pred = on_board(challenge, language);
    let kept = records.filter(pred);
    let entries = board_entries(records, challenge, language);
    ranking.to_multiset_ensures();
    entries.to_multiset_ensures();
    assert forall|i: int| 0 <= i < ranking.len() implies shown_by(
        records,
        challenge,
        language,
        #[trigger] ranking[i],
    ) by {
        // The row is on the board, so it is the row of a record that was kept,
        // and what was kept is a record on the board.
        assert(ranking.to_multiset().count(ranking[i]) > 0);
        let m = choose|m: int| 0 <= m < entries.len() && entries[m] == ranking[i];
        records.lemma_filter_pred(pred, m);
        records.lemma_filter_contains_rev(pred, kept[m]);
    }
    assert forall|k: int|
        0 <= k < records.len() && pred(#[trigger] records[k]) implies ranking.contains(
        entry_of(records[k]),
    ) by {
        records.lemma_filter_contains(pred, k);
        let m = choose|m: int| 0 <= m < kept.len() && kept[m] == records[k];
        assert(entries[m] == entry_of(records[k]));
        assert(entries.to_multiset().count(entry_of(records[k])) > 0);
    }
}

/// Two ranked sequences that agree on the rows of every tie are the same
/// sequence.
proof fn lemma_ranked_equal(a: Seq<LeaderboardEntry>, b: Seq<LeaderboardEntry>)
    requires
        is_ranked(a),
        is_ranked(b),
        a.len() == b.len(),
        forall|score: u64, at: Timestamp| #[trigger]
            a.filter(tied_at(score, at)) == b.filter(tied_at(score, at)),
    ensures
        a == b,
    decreases a.len(),
{
    if a.len() > 0 {
        let x = a.last();
        let y = b.last();
        let a0 = a.drop_last();
        let b0 = b.drop_last();
        assert(a =~= a0.push(x));
        assert(b =~= b0.push(y));
        // The last rows tie: neither ranks strictly before the other.
        lemma_last_ties(a, b);
        lemma_last_ties(b, a);
        // So they are the last rows of the same tie, and equal.
        let here = tied_at(x.score, x.last_improved_at);
        lemma_filter_push(a0, x, here);
        lemma_filter_push(b0, y, here);
        assert(b0.filter(here).push(y).last() == y);
        assert(x == y);
        // Without them the sequences still agree on every tie.
        assert forall|score: u64, at: Timestamp| #[trigger]
            a0.filter(tied_at(score, at)) == b0.filter(tied_at(score, at)) by {
            let pred = tied_at(score, at);
            lemma_filter_push(a0, x, pred);
            lemma_filter_push(b0, y, pred);
            if pred(x) {
                assert(a0.filter(pred).push(x).drop_last() =~= a0.filter(pred));
                assert(b0.filter(pred).push(y).drop_last() =~= b0.filter(pred));
            }
        }
        lemma_ranked_equal(a0, b0);
    } else {
        assert(a =~= b);
    }
}

/// The last row of `a` does not rank strictly before the last row of `b`,
/// where both are ranked and agree on the rows of every tie.
proof fn lemma_last_ties(a: Seq<LeaderboardEntry>, b: Seq<LeaderboardEntry>)
    requires
        is_ranked(a),
        is_ranked(b),
        a.len() == b.len(),
        a.len() > 0,
        forall|score: u64, at: Timestamp| #[trigger]
            a.filter(tied_at(score, at)) == b.filter(tied_at(score, at)),
    ensures
        !ranks_before(a.last(), b.last()),
{
    // The last row of `b` stands somewhere in `a`, at or before the last row.
    let y = b.last();
    let here = tied_at(y.score, y.last_improved_at);
    b.lemma_filter_contains(here, b.len() - 1);
    assert(a.filter(here).contains(y));
    a.lemma_filter_contains_rev(here, y);
}

/// The leaderboard made of given rows is determined: any two rankings of
/// the same rows are equal.
pub proof fn lemma_ranking_unique(
    entries: Seq<LeaderboardEntry>,
    a: Seq<LeaderboardEntry>,
    b: Seq<LeaderboardEntry>,
)
    requires
        is_ranking_of(entries, a),
        is_ranking_of(entries, b),
    ensures
        a == b,
{
    a.to_multiset_ensures();
    b.to_multiset_ensures();
    assert forall|score: u64, at: Timestamp| #[trigger]
        a.filter(tied_at(score, at)) == b.filter(tied_at(score, at)) by {
        assert(a.filter(tied_at(score, at)) == entries.filter(tied_at(score, at)));
    }
    lemma_ranked_equal(a, b);
}

/// Listing the records of a board first and ranking the list gives the
/// board: the records on the board of `challenge` and `language` have the
/// same rows as all the records.
pub proof fn lemma_board_of_listed(records: Seq<RecordView>, challenge: int, language: Seq<char>)
    ensures
        board_entries(records.filter(on_board(challenge, language)), challenge, language)
            == board_entries(records, challenge, language),
{
    lemma_filter_twice(records, on_board(challenge, language));
}

/// Filtering what was filtered keeps all of it.
proof fn lemma_filter_twice<A>(s: Seq<A>, pred: spec_fn(A) -> bool)
    ensures
        s.filter(pred).filter(pred) == s.filter(pred),
    decreases s.len(),
{
    reveal(Seq::filter);
    if s.len() > 0 {
        lemma_filter_twice(s.drop_last(), pred);
        lemma_filter_push(s.drop_last().filter(pred), s.last(), pred);
    }
}

} // verus!
