use vstd::prelude::*;

verus! {

/// The tier of an award.
#[derive(Clone, Copy, Debug, PartialEq, Eq, Structural)]
pub enum MedalClass {
    Gold,
    Silver,
    Bronze,
}

/// One award as reported by the feed: a medal class credited to an entrant.
#[derive(Clone, Debug)]
pub struct AwardRecord {
    pub medal_class: MedalClass,
    pub entrant: String,
}

/// Why a cycle got no usable award list.
#[derive(Clone, Copy, Debug, PartialEq, Eq, Structural)]
pub enum FeedError {
    /// The feed could not be reached or read.
    SourceUnavailable,
    /// An award in the feed has an unknown medal class or no entrant.
    MalformedRecord,
}

/// Per-entrant medal counts.
#[derive(Clone, Copy, Debug, PartialEq, Eq, Structural)]
pub struct MedalCount {
    pub gold: usize,
    pub silver: usize,
    pub bronze: usize,
}

/// An entrant together with its medal counts.
#[derive(Clone, Debug)]
pub struct LeaderboardEntry {
    pub entrant: String,
    pub counts: MedalCount,
}

impl AwardRecord {
    pub fn new(medal_class: MedalClass, entrant: String) -> (r: AwardRecord)
        ensures
            r.medal_class == medal_class,
            r.entrant@ == entrant@,
    {
        AwardRecord { medal_class, entrant }
    }
}

impl MedalCount {
    /// The all-zero count an entrant starts each pass with.
    pub fn zero() -> (r: MedalCount)
        ensures
            r.gold == 0,
            r.silver == 0,
            r.bronze == 0,
    {
        MedalCount { gold: 0, silver: 0, bronze: 0 }
    }

    /// The count of the given class.
    pub fn get(&self, class: MedalClass) -> (r: usize)
        ensures
            r == self.of_class(class),
    {
        match class {
            MedalClass::Gold => self.gold,
            MedalClass::Silver => self.silver,
            MedalClass::Bronze => self.bronze,
        }
    }

    pub open spec fn of_class(self, class: MedalClass) -> usize {
        match class {
            MedalClass::Gold => self.gold,
            MedalClass::Silver => self.silver,
            MedalClass::Bronze => self.bronze,
        }
    }

    pub open spec fn total(self) -> nat {
        (self.gold + self.silver + self.bronze) as nat
    }

    /// Leaderboard precedence: more gold first, then more silver, then more
    /// bronze.  True when `self` ranks at least as high as `other`.
    pub open spec fn ranks_at_least(self, other: MedalCount) -> bool {
        ||| self.gold > other.gold
        ||| self.gold == other.gold && self.silver > other.silver
        ||| self.gold == other.gold && self.silver == other.silver && self.bronze >= other.bronze
    }

    /// Executable form of [`MedalCount::ranks_at_least`].
    pub fn at_least(&self, other: &MedalCount) -> (r: bool)
        ensures
            r == self.ranks_at_least(*other),
    {
        if self.gold != other.gold {
            self.gold > other.gold
        } else if self.silver != other.silver {
            self.silver > other.silver
        } else {
            self.bronze >= other.bronze
        }
    }
}

} // verus!
