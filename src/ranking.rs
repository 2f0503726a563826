use vstd::prelude::*;
use crate::model::{LeaderboardEntry, MedalCount};

verus! {

/// Where `e` goes in an already ranked `s`: after every entry that ranks at
/// least as high as `e`, so that among equal counts the earlier entry stays
/// in front.
pub open spec fn insert_point(s: Seq<LeaderboardEntry>, e: LeaderboardEntry) -> nat
    decreases s.len(),
{
    if s.len() == 0 || !s[0].counts.ranks_at_least(e.counts) {
        0
    } else {
        1 + insert_point(s.drop_first(), e)
    }
}

/// The full ranking of `s`: each entry of `s`, in turn, inserted at its
/// [`insert_point`].  Gold, then silver, then bronze decide, each descending;
/// entries with equal counts keep their order in `s`.
pub open spec fn ranked(s: Seq<LeaderboardEntry>) -> Seq<LeaderboardEntry>
    decreases s.len(),
{
    if s.len() == 0 {
        Seq::empty()
    } else {
        let r = ranked(s.drop_last());
        r.insert(insert_point(r, s.last()) as int, s.last())
    }
}

/// Every entry ranks at least as high as the one after it.
pub open spec fn is_ordered(s: Seq<LeaderboardEntry>) -> bool {
    forall|i: int| 0 <= i < s.len() - 1 ==> (#[trigger] s[i]).counts.ranks_at_least(s[i + 1].counts)
}

/// The entrant names and counts of `s`, the part of an entry that contracts speak of.
pub open spec fn entries_view(s: Seq<LeaderboardEntry>) -> Seq<(Seq<char>, MedalCount)> {
    s.map_values(|e: LeaderboardEntry| (e.entrant@, e.counts))
}

proof fn lemma_insert_point_bounds(s: Seq<LeaderboardEntry>, e: LeaderboardEntry)
    ensures
        insert_point(s, e) <= s.len(),
        forall|k: int| 0 <= k < insert_point(s, e) ==> (#[trigger] s[k]).counts.ranks_at_least(e.counts),
        insert_point(s, e) < s.len() ==> !s[insert_point(s, e) as int].counts.ranks_at_least(e.counts),
    decreases s.len(),
{
    if s.len() > 0 && s[0].counts.ranks_at_least(e.counts) {
        lemma_insert_point_bounds(s.drop_first(), e);
        assert forall|k: int| 0 <= k < insert_point(s, e) implies (#[trigger] s[k]).counts.ranks_at_least(e.counts) by {
            if k > 0 {
                assert(s[k] == s.drop_first()[k - 1]);
            }
        }
    }
}

proof fn lemma_insert_point_found(s: Seq<LeaderboardEntry>, e: LeaderboardEntry, j: int)
    requires
        0 <= j <= s.len(),
        forall|k: int| 0 <= k < j ==> (#[trigger] s[k]).counts.ranks_at_least(e.counts),
        j < s.len() ==> !s[j].counts.ranks_at_least(e.counts),
    ensures
        insert_point(s, e) == j,
    decreases s.len(),
{
    if s.len() > 0 && j > 0 {
        assert(s[0].counts.ranks_at_least(e.counts));
        assert forall|k: int| 0 <= k < j - 1 implies (#[trigger] s.drop_first()[k]).counts.ranks_at_least(e.counts) by {
            assert(s.drop_first()[k] == s[k + 1]);
        }
        lemma_insert_point_found(s.drop_first(), e, j - 1);
    }
}

proof fn lemma_insert_keeps_order(s: Seq<LeaderboardEntry>, e: LeaderboardEntry)
    requires
        is_ordered(s),
    ensures
        is_ordered(s.insert(insert_point(s, e) as int, e)),
{
    lemma_insert_point_bounds(s, e);
    let p = insert_point(s, e) as int;
    let t = s.insert(p, e);
    assert forall|i: int| 0 <= i < t.len() - 1 implies (#[trigger] t[i]).counts.ranks_at_least(t[i + 1].counts) by {
        if i + 1 < p {
            assert(t[i] == s[i] && t[i + 1] == s[i + 1]);
        } else if i + 1 == p {
            assert(t[i] == s[i] && t[i + 1] == e);
        } else if i == p {
            assert(t[i] == e && t[i + 1] == s[i]);
        } else {
            assert(t[i] == s[i - 1] && t[i + 1] == s[i]);
        }
    }
}

/// Ranking output is ordered: each entry's (gold, silver, bronze) ranks at
/// least as high as that of the entry after it.
pub proof fn lemma_ranked_is_ordered(s: Seq<LeaderboardEntry>)
    ensures
        is_ordered(ranked(s)),
    decreases s.len(),
{
    if s.len() > 0 {
        lemma_ranked_is_ordered(s.drop_last());
        lemma_insert_keeps_order(ranked(s.drop_last()), s.last());
    }
}

/// Ranking only reorders: it keeps every entry, as often as it occurs.
pub proof fn lemma_ranked_is_permutation(s: Seq<LeaderboardEntry>)
    ensures
        ranked(s).to_multiset() == s.to_multiset(),
        ranked(s).len() == s.len(),
    decreases s.len(),
{
    broadcast use vstd::seq_lib::to_multiset_insert, vstd::seq_lib::to_multiset_build;

    if s.len() == 0 {
        assert(ranked(s) =~= s);
    } else {
        let r = ranked(s.drop_last());
        lemma_ranked_is_permutation(s.drop_last());
        lemma_insert_point_bounds(r, s.last());
        assert(s.drop_last().push(s.last()) == s);
        assert(ranked(s).len() == s.len());
        assert(ranked(s).to_multiset() == s.to_multiset()) by {
            broadcast use vstd::seq_lib::group_to_multiset_ensures;
        }
    }
}

proof fn lemma_insert_point_by_view(
    s1: Seq<LeaderboardEntry>,
    s2: Seq<LeaderboardEntry>,
    e1: LeaderboardEntry,
    e2: LeaderboardEntry,
)
    requires
        entries_view(s1) == entries_view(s2),
        e1.counts == e2.counts,
    ensures
        insert_point(s1, e1) == insert_point(s2, e2),
    decreases s1.len(),
{
    assert(s1.len() == entries_view(s1).len() && s2.len() == entries_view(s2).len());
    if s1.len() > 0 {
        assert(entries_view(s1)[0] == entries_view(s2)[0]);
        assert(entries_view(s1.drop_first()) =~= entries_view(s1).drop_first());
        assert(entries_view(s2.drop_first()) =~= entries_view(s2).drop_first());
        lemma_insert_point_by_view(s1.drop_first(), s2.drop_first(), e1, e2);
    }
}

/// Ranking is deterministic: entry sequences that agree on every entrant name
/// and count, in the same order, rank to the same names and counts in the
/// same order.  Ranking one tally twice therefore gives the same output.
pub proof fn lemma_ranked_deterministic(s1: Seq<LeaderboardEntry>, s2: Seq<LeaderboardEntry>)
    requires
        entries_view(s1) == entries_view(s2),
    ensures
        entries_view(ranked(s1)) == entries_view(ranked(s2)),
    decreases s1.len(),
{
    assert(s1.len() == entries_view(s1).len() && s2.len() == entries_view(s2).len());
    if s1.len() > 0 {
        let (d1, d2) = (s1.drop_last(), s2.drop_last());
        assert(entries_view(d1) =~= entries_view(d2)) by {
            assert forall|k: int| 0 <= k < d1.len() implies entries_view(d1)[k] == entries_view(d2)[k] by {
                assert(entries_view(s1)[k] == entries_view(s2)[k]);
            }
        }
        assert(entries_view(s1)[s1.len() - 1] == entries_view(s2)[s2.len() - 1]);
        lemma_ranked_deterministic(d1, d2);
        let (r1, r2) = (ranked(d1), ranked(d2));
        assert(r1.len() == entries_view(r1).len() && r2.len() == entries_view(r2).len());
        lemma_insert_point_by_view(r1, r2, s1.last(), s2.last());
        lemma_insert_point_bounds(r1, s1.last());
        let p = insert_point(r1, s1.last()) as int;
        let (t1, t2) = (r1.insert(p, s1.last()), r2.insert(p, s2.last()));
        assert(entries_view(t1) =~= entries_view(t2)) by {
            assert forall|k: int| 0 <= k < t1.len() implies entries_view(t1)[k] == entries_view(t2)[k] by {
                if k < p {
                    assert(entries_view(r1)[k] == entries_view(r2)[k]);
                } else if k > p {
                    assert(entries_view(r1)[k - 1] == entries_view(r2)[k - 1]);
                }
            }
        }
    }
}

/// Orders a tally into the full leaderboard (no truncation).  Gold count
/// decides first, then silver, then bronze, each descending; entrants with
/// identical counts keep their order in `tally`.
pub fn rank(tally: &Vec<LeaderboardEntry>) -> (r: Vec<LeaderboardEntry>)
    ensures
        r@ == ranked(tally@),
        is_ordered(r@),
        r@.to_multiset() == tally@.to_multiset(),
{
    let mut r: Vec<LeaderboardEntry> = Vec::new();
    let mut i: usize = 0;
    while i < tally.len()
        invariant
            i <= tally@.len(),
            r@ == ranked(tally@.take(i as int)),
        decreases tally@.len() - i,
    {
        let e = LeaderboardEntry { entrant: tally[i].entrant.clone(), counts: tally[i].counts };
        assert(e == tally@[i as int]);
        let mut j: usize = 0;
        while j < r.len() && r[j].counts.at_least(&e.counts)
            invariant
                j <= r@.len(),
                forall|k: int| 0 <= k < j ==> (#[trigger] r@[k]).counts.ranks_at_least(e.counts),
            decreases r@.len() - j,
        {
            j = j + 1;
        }
        proof {
            lemma_insert_point_found(r@, e, j as int);
            assert(tally@.take(i as int + 1).drop_last() =~= tally@.take(i as int));
        }
        r.insert(j, e);
        i = i + 1;
    }
    proof {
        assert(tally@.take(tally@.len() as int) =~= tally@);
        lemma_ranked_is_ordered(tally@);
        lemma_ranked_is_permutation(tally@);
    }
    r
}

} // verus!
