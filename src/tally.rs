use vstd::prelude::*;
use crate::model::{AwardRecord, LeaderboardEntry, MedalClass, MedalCount};

verus! {

/// Number of records in `records` that credit `who` with a medal of `class`.
pub open spec fn count_class(records: Seq<AwardRecord>, who: Seq<char>, class: MedalClass) -> nat
    decreases records.len(),
{
    if records.len() == 0 {
        0
    } else {
        count_class(records.drop_last(), who, class) + if records.last().entrant@ == who
            && records.last().medal_class == class {
            1nat
        } else {
            0nat
        }
    }
}

/// The distinct entrants of `records`, in the order of their first record.
pub open spec fn first_seen(records: Seq<AwardRecord>) -> Seq<Seq<char>>
    decreases records.len(),
{
    if records.len() == 0 {
        Seq::empty()
    } else {
        let earlier = first_seen(records.drop_last());
        if earlier.contains(records.last().entrant@) {
            earlier
        } else {
            earlier.push(records.last().entrant@)
        }
    }
}

proof fn lemma_count_step(records: Seq<AwardRecord>, who: Seq<char>)
    requires
        records.len() > 0,
    ensures
        forall|class: MedalClass|
            #[trigger] count_class(records, who, class) == count_class(records.drop_last(), who, class)
                + if records.last().entrant@ == who && records.last().medal_class == class {
                1nat
            } else {
                0nat
            },
{
}

/// `t` is the tally of `records`: one entry per distinct entrant, in order of
/// first appearance, each holding exactly that entrant's counts per class.
pub open spec fn is_tally_of(t: Seq<LeaderboardEntry>, records: Seq<AwardRecord>) -> bool {
    &&& t.len() == first_seen(records).len()
    &&& forall|k: int|
        0 <= k < t.len() ==> {
            &&& (#[trigger] t[k]).entrant@ == first_seen(records)[k]
            &&& t[k].counts.gold == count_class(records, t[k].entrant@, MedalClass::Gold)
            &&& t[k].counts.silver == count_class(records, t[k].entrant@, MedalClass::Silver)
            &&& t[k].counts.bronze == count_class(records, t[k].entrant@, MedalClass::Bronze)
        }
}

/// Number of records in `records` that credit `who`, whatever the class.
pub open spec fn medals_of(records: Seq<AwardRecord>, who: Seq<char>) -> nat {
    count_class(records, who, MedalClass::Gold) + count_class(records, who, MedalClass::Silver)
        + count_class(records, who, MedalClass::Bronze)
}

/// Sum of `medals_of` over the entrants in `names`.
pub open spec fn medals_of_all(records: Seq<AwardRecord>, names: Seq<Seq<char>>) -> nat
    decreases names.len(),
{
    if names.len() == 0 {
        0
    } else {
        medals_of_all(records, names.drop_last()) + medals_of(records, names.last())
    }
}

/// Sum of every count field over the entries of `t`.
pub open spec fn medals_in(t: Seq<LeaderboardEntry>) -> nat
    decreases t.len(),
{
    if t.len() == 0 {
        0
    } else {
        medals_in(t.drop_last()) + t.last().counts.total()
    }
}

proof fn lemma_one_more_record(records: Seq<AwardRecord>, names: Seq<Seq<char>>)
    requires
        records.len() > 0,
        names.no_duplicates(),
    ensures
        medals_of_all(records, names) == medals_of_all(records.drop_last(), names) + if names.contains(
            records.last().entrant@,
        ) {
            1nat
        } else {
            0nat
        },
    decreases names.len(),
{
    if names.len() > 0 {
        let rest = names.drop_last();
        assert(rest.no_duplicates());
        lemma_one_more_record(records, rest);
        let x = records.last().entrant@;
        if names.last() == x {
            assert(names[names.len() - 1] == x);
            assert(!rest.contains(x));
        } else if rest.contains(x) {
            let k = choose|k: int| 0 <= k < rest.len() && rest[k] == x;
            assert(names[k] == x);
        } else if names.contains(x) {
            let k = choose|k: int| 0 <= k < names.len() && names[k] == x;
            assert(rest[k] == x);
        }
    }
}

proof fn lemma_first_seen_accounts(records: Seq<AwardRecord>)
    ensures
        medals_of_all(records, first_seen(records)) == records.len(),
    decreases records.len(),
{
    if records.len() > 0 {
        let before = records.drop_last();
        let x = records.last().entrant@;
        lemma_first_seen_accounts(before);
        lemma_first_seen_distinct(before);
        lemma_one_more_record(records, first_seen(before));
        if !first_seen(before).contains(x) {
            lemma_absent_has_no_medals(before, x, MedalClass::Gold);
            lemma_absent_has_no_medals(before, x, MedalClass::Silver);
            lemma_absent_has_no_medals(before, x, MedalClass::Bronze);
            assert(first_seen(records).drop_last() =~= first_seen(before));
        }
    }
}

proof fn lemma_medals_in_prefix(t: Seq<LeaderboardEntry>, records: Seq<AwardRecord>, k: int)
    requires
        is_tally_of(t, records),
        0 <= k <= t.len(),
    ensures
        medals_in(t.take(k)) == medals_of_all(records, first_seen(records).take(k)),
    decreases k,
{
    if k > 0 {
        lemma_medals_in_prefix(t, records, k - 1);
        assert(t.take(k).drop_last() =~= t.take(k - 1));
        assert(first_seen(records).take(k).drop_last() =~= first_seen(records).take(k - 1));
        assert(t[k - 1].entrant@ == first_seen(records)[k - 1]);
    }
}

/// Aggregation loses and invents nothing: the counts of a tally of
/// `records`, summed over all entrants and classes, equal the number of
/// records.  (Each single count is exact by `is_tally_of`.)
pub proof fn lemma_tally_accounts_for_every_record(t: Seq<LeaderboardEntry>, records: Seq<AwardRecord>)
    requires
        is_tally_of(t, records),
    ensures
        medals_in(t) == records.len(),
        forall|who: Seq<char>|
            #![trigger medals_of(records, who)]
            medals_of(records, who) > 0 ==> exists|k: int| 0 <= k < t.len() && t[k].entrant@ == who,
{
    lemma_medals_in_prefix(t, records, t.len() as int);
    assert(t.take(t.len() as int) =~= t);
    assert(first_seen(records).take(t.len() as int) =~= first_seen(records));
    lemma_first_seen_accounts(records);
    assert forall|who: Seq<char>| #![trigger medals_of(records, who)]
        medals_of(records, who) > 0 implies exists|k: int| 0 <= k < t.len() && t[k].entrant@ == who by {
        if !first_seen(records).contains(who) {
            lemma_absent_has_no_medals(records, who, MedalClass::Gold);
            lemma_absent_has_no_medals(records, who, MedalClass::Silver);
            lemma_absent_has_no_medals(records, who, MedalClass::Bronze);
        } else {
            let k = choose|k: int| 0 <= k < first_seen(records).len() && first_seen(records)[k] == who;
            assert(t[k].entrant@ == who);
        }
    }
}

proof fn lemma_first_seen_grows(records: Seq<AwardRecord>, who: Seq<char>)
    requires
        records.len() > 0,
        first_seen(records.drop_last()).contains(who),
    ensures
        first_seen(records).contains(who),
{
    let earlier = first_seen(records.drop_last());
    let k = choose|k: int| 0 <= k < earlier.len() && earlier[k] == who;
    if !earlier.contains(records.last().entrant@) {
        assert(earlier.push(records.last().entrant@)[k] == who);
    }
}

/// No entrant occurs twice in `first_seen(records)`.
pub proof fn lemma_first_seen_distinct(records: Seq<AwardRecord>)
    ensures
        first_seen(records).no_duplicates(),
    decreases records.len(),
{
    if records.len() > 0 {
        lemma_first_seen_distinct(records.drop_last());
        let earlier = first_seen(records.drop_last());
        let x = records.last().entrant@;
        if !earlier.contains(x) {
            let s = earlier.push(x);
            assert forall|a: int, b: int| 0 <= a < s.len() && 0 <= b < s.len() && a != b implies s[a] != s[b] by {
                if a < earlier.len() && b < earlier.len() {
                    assert(s[a] == earlier[a] && s[b] == earlier[b]);
                } else if a < earlier.len() {
                    assert(s[a] == earlier[a]);
                } else {
                    assert(s[b] == earlier[b]);
                }
            }
        }
    }
}

proof fn lemma_absent_has_no_medals(records: Seq<AwardRecord>, who: Seq<char>, class: MedalClass)
    requires
        !first_seen(records).contains(who),
    ensures
        count_class(records, who, class) == 0,
    decreases records.len(),
{
    if records.len() > 0 {
        let earlier = first_seen(records.drop_last());
        if earlier.contains(who) {
            lemma_first_seen_grows(records, who);
        }
        if records.last().entrant@ == who {
            if !earlier.contains(who) {
                assert(first_seen(records)[earlier.len() as int] == who);
            }
        }
        lemma_absent_has_no_medals(records.drop_last(), who, class);
    }
}

fn position_of(t: &Vec<LeaderboardEntry>, who: &String) -> (p: Option<usize>)
    ensures
        match p {
            Some(k) => k < t@.len() && t@[k as int].entrant@ == who@,
            None => forall|k: int| 0 <= k < t@.len() ==> t@[k].entrant@ != who@,
        },
{
    let mut j: usize = 0;
    while j < t.len()
        invariant
            j <= t@.len(),
            forall|k: int| 0 <= k < j ==> t@[k].entrant@ != who@,
        decreases t@.len() - j,
    {
        if t[j].entrant == *who {
            return Some(j);
        }
        j = j + 1;
    }
    None
}

/// Groups award records by entrant and counts each medal class.  Entrants
/// appear in the order of their first record; every record counts once.
pub fn build_tally(records: &Vec<AwardRecord>) -> (t: Vec<LeaderboardEntry>)
    ensures
        is_tally_of(t@, records@),
{
    let mut t: Vec<LeaderboardEntry> = Vec::new();
    let mut i: usize = 0;
    while i < records.len()
        invariant
            i <= records@.len(),
            is_tally_of(t@, records@.take(i as int)),
            forall|k: int|
                0 <= k < t@.len() ==> (#[trigger] t@[k]).counts.gold <= i && t@[k].counts.silver
                    <= i && t@[k].counts.bronze <= i,
        decreases records@.len() - i,
    {
        let ghost before = records@.take(i as int);
        let ghost after = records@.take(i as int + 1);
        assert(after.drop_last() =~= before);
        let r = &records[i];
        assert(after.last() == *r);
        match position_of(&t, &r.entrant) {
            Some(k) => {
                let c = t[k].counts;
                let bumped = match r.medal_class {
                    MedalClass::Gold => MedalCount { gold: c.gold + 1, ..c },
                    MedalClass::Silver => MedalCount { silver: c.silver + 1, ..c },
                    MedalClass::Bronze => MedalCount { bronze: c.bronze + 1, ..c },
                };
                let ghost prev = t@;
                t[k].counts = bumped;
                proof {
                    assert(first_seen(before)[k as int] == r.entrant@);
                    assert(first_seen(after) == first_seen(before));
                    lemma_first_seen_distinct(before);
                    assert forall|j: int| 0 <= j < t@.len() implies {
                        &&& (#[trigger] t@[j]).entrant@ == first_seen(after)[j]
                        &&& t@[j].counts.gold == count_class(after, t@[j].entrant@, MedalClass::Gold)
                        &&& t@[j].counts.silver == count_class(after, t@[j].entrant@, MedalClass::Silver)
                        &&& t@[j].counts.bronze == count_class(after, t@[j].entrant@, MedalClass::Bronze)
                    } by {
                        let w = t@[j].entrant@;
                        lemma_count_step(after, w);
                        assert(prev[j].entrant@ == first_seen(before)[j]);
                        if j != k {
                            assert(t@[j] == prev[j]);
                        } else {
                            assert(t@[j].entrant == prev[j].entrant);
                        }
                    }
                }
            },
            None => {
                proof {
                    if first_seen(before).contains(r.entrant@) {
                        let k = choose|k: int|
                            0 <= k < first_seen(before).len() && first_seen(before)[k]
                                == r.entrant@;
                        assert(t@[k].entrant@ == first_seen(before)[k]);
                    }
                    assert forall|c: MedalClass| count_class(before, r.entrant@, c) == 0 by {
                        lemma_absent_has_no_medals(before, r.entrant@, c);
                    }
                }
                let mut fresh = MedalCount::zero();
                match r.medal_class {
                    MedalClass::Gold => fresh.gold = 1,
                    MedalClass::Silver => fresh.silver = 1,
                    MedalClass::Bronze => fresh.bronze = 1,
                }
                let ghost prev = t@;
                t.push(LeaderboardEntry { entrant: r.entrant.clone(), counts: fresh });
                proof {
                    assert(first_seen(after) == first_seen(before).push(r.entrant@));
                    assert forall|j: int| 0 <= j < t@.len() implies {
                        &&& (#[trigger] t@[j]).entrant@ == first_seen(after)[j]
                        &&& t@[j].counts.gold == count_class(after, t@[j].entrant@, MedalClass::Gold)
                        &&& t@[j].counts.silver == count_class(after, t@[j].entrant@, MedalClass::Silver)
                        &&& t@[j].counts.bronze == count_class(after, t@[j].entrant@, MedalClass::Bronze)
                    } by {
                        let w = t@[j].entrant@;
                        lemma_count_step(after, w);
                        if j < prev.len() {
                            assert(t@[j] == prev[j]);
                        }
                    }
                }
            },
        }
        i = i + 1;
    }
    assert(records@.take(records@.len() as int) =~= records@);
    t
}

} // verus!
