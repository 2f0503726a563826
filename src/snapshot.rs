use vstd::prelude::*;
use crate::model::{AwardRecord, LeaderboardEntry, MedalCount};
use crate::ranking::{entries_view, rank, ranked, lemma_ranked_deterministic};
use crate::tally::{build_tally, is_tally_of};

verus! {

/// The names held by a vector of strings.
pub open spec fn names_view(v: Seq<String>) -> Seq<Seq<char>> {
    v.map_values(|s: String| s@)
}

/// The names held by an optional snapshot.
pub open spec fn snapshot_view(o: Option<Vec<String>>) -> Option<Seq<Seq<char>>> {
    match o {
        Some(v) => Some(names_view(v@)),
        None => None,
    }
}

/// The full leaderboard that `records` give: their tally, ranked.
pub open spec fn leaderboard_of(records: Seq<AwardRecord>) -> Seq<(Seq<char>, MedalCount)> {
    entries_view(ranked(choose|t: Seq<LeaderboardEntry>| is_tally_of(t, records)))
}

/// The names of the first `n` entries of `board` (all of them if it is shorter).
pub open spec fn top_names(board: Seq<(Seq<char>, MedalCount)>, n: nat) -> Seq<Seq<char>> {
    let m = if n < board.len() { n } else { board.len() };
    board.take(m as int).map_values(|e: (Seq<char>, MedalCount)| e.0)
}

/// The snapshot that `records` give: the names of the top `n` entrants.
pub open spec fn snapshot_of(records: Seq<AwardRecord>, n: nat) -> Seq<Seq<char>> {
    top_names(leaderboard_of(records), n)
}

/// A snapshot is reported when there is no earlier one, or when it differs
/// from the earlier one in length, membership or order.
pub open spec fn snapshot_changed(previous: Option<Seq<Seq<char>>>, current: Seq<Seq<char>>) -> bool {
    match previous {
        None => true,
        Some(p) => p != current,
    }
}

/// Any two tallies of the same records agree on every name and count.
pub proof fn lemma_tally_unique(t1: Seq<LeaderboardEntry>, t2: Seq<LeaderboardEntry>, records: Seq<AwardRecord>)
    requires
        is_tally_of(t1, records),
        is_tally_of(t2, records),
    ensures
        entries_view(t1) == entries_view(t2),
{
    assert forall|k: int| 0 <= k < t1.len() implies entries_view(t1)[k] == entries_view(t2)[k] by {
        assert(t1[k].entrant@ == t2[k].entrant@);
    }
    assert(entries_view(t1) =~= entries_view(t2));
}

/// Ranking any tally of `records` gives their leaderboard.
pub proof fn lemma_leaderboard_of_tally(t: Seq<LeaderboardEntry>, records: Seq<AwardRecord>)
    requires
        is_tally_of(t, records),
    ensures
        entries_view(ranked(t)) == leaderboard_of(records),
{
    let c = choose|c: Seq<LeaderboardEntry>| is_tally_of(c, records);
    lemma_tally_unique(t, c, records);
    lemma_ranked_deterministic(t, c);
}

/// The names of the first `n` entries of a ranked leaderboard.
pub fn top_entrants(board: &Vec<LeaderboardEntry>, n: usize) -> (r: Vec<String>)
    ensures
        names_view(r@) == top_names(entries_view(board@), n as nat),
{
    let m: usize = if n < board.len() { n } else { board.len() };
    let mut r: Vec<String> = Vec::new();
    let mut i: usize = 0;
    while i < m
        invariant
            i <= m <= board@.len(),
            r@.len() == i,
            forall|k: int| 0 <= k < i ==> (#[trigger] r@[k])@ == board@[k].entrant@,
        decreases m - i,
    {
        r.push(board[i].entrant.clone());
        i = i + 1;
    }
    assert(names_view(r@) =~= top_names(entries_view(board@), n as nat));
    r
}

/// Tally, rank and cut: the snapshot of the top `n` entrants that `records`
/// give.
pub fn snapshot(records: &Vec<AwardRecord>, n: usize) -> (r: Vec<String>)
    ensures
        names_view(r@) == snapshot_of(records@, n as nat),
{
    let t = build_tally(records);
    let board = rank(&t);
    proof {
        lemma_leaderboard_of_tally(t@, records@);
    }
    top_entrants(&board, n)
}

/// The names and counts held by medal-table rows.
pub open spec fn table_view(rows: Seq<(String, usize, usize, usize)>) -> Seq<(Seq<char>, MedalCount)> {
    rows.map_values(
        |row: (String, usize, usize, usize)|
            (row.0@, MedalCount { gold: row.1, silver: row.2, bronze: row.3 }),
    )
}

/// The full medal table of `medals`: one `(entrant, gold, silver, bronze)`
/// row per entrant, ranked as by [`rank`].
pub fn create_table(medals: &Vec<AwardRecord>) -> (r: Vec<(String, usize, usize, usize)>)
    ensures
        table_view(r@) == leaderboard_of(medals@),
{
    let t = build_tally(medals);
    let board = rank(&t);
    proof {
        lemma_leaderboard_of_tally(t@, medals@);
    }
    let mut r: Vec<(String, usize, usize, usize)> = Vec::new();
    let mut i: usize = 0;
    while i < board.len()
        invariant
            i <= board@.len(),
            r@.len() == i,
            forall|k: int| 0 <= k < i ==> (#[trigger] table_view(r@)[k]) == entries_view(board@)[k],
        decreases board@.len() - i,
    {
        let c = board[i].counts;
        let ghost before = r@;
        r.push((board[i].entrant.clone(), c.gold, c.silver, c.bronze));
        proof {
            assert forall|k: int| 0 <= k < i + 1 implies (#[trigger] table_view(r@)[k]) == entries_view(board@)[k] by {
                if k < i {
                    assert(table_view(r@)[k] == table_view(before)[k]);
                }
            }
        }
        i = i + 1;
    }
    assert(table_view(r@) =~= entries_view(board@));
    r
}

/// Decides whether `current` is to be reported: always when there is no
/// previous snapshot, otherwise exactly when the two differ as sequences.
pub fn has_changed(previous: &Option<Vec<String>>, current: &Vec<String>) -> (r: bool)
    ensures
        r == snapshot_changed(snapshot_view(*previous), names_view(current@)),
{
    match previous {
        None => true,
        Some(p) => {
            if p.len() != current.len() {
                assert(names_view(p@).len() != names_view(current@).len());
                return true;
            }
            let mut i: usize = 0;
            while i < p.len()
                invariant
                    i <= p@.len() == current@.len(),
                    snapshot_view(*previous) == Some(names_view(p@)),
                    forall|k: int| 0 <= k < i ==> (#[trigger] p@[k])@ == current@[k]@,
                decreases p@.len() - i,
            {
                if !(p[i] == current[i]) {
                    assert(names_view(p@)[i as int] == p@[i as int]@);
                    assert(names_view(current@)[i as int] == current@[i as int]@);
                    assert(names_view(p@) != names_view(current@));
                    return true;
                }
                i = i + 1;
            }
            assert(names_view(p@) =~= names_view(current@));
            false
        },
    }
}

/// Change detection reports exactly what differs: no previous snapshot is
/// always a change; otherwise equal sequences are unchanged, and a different
/// length or a different name at any position is a change.
pub proof fn lemma_change_detection(previous: Option<Seq<Seq<char>>>, current: Seq<Seq<char>>)
    ensures
        previous is None ==> snapshot_changed(previous, current),
        previous == Some(current) ==> !snapshot_changed(previous, current),
        previous matches Some(p) ==> (snapshot_changed(previous, current) <==> (p.len()
            != current.len() || exists|i: int| 0 <= i < p.len() && p[i] != current[i])),
{
    if let Some(p) = previous {
        if p.len() == current.len() && !(exists|i: int| 0 <= i < p.len() && p[i] != current[i]) {
            assert(p =~= current);
        }
    }
}

} // verus!
