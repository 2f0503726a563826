use vstd::prelude::*;
use crate::model::{AwardRecord, FeedError};
use crate::snapshot::{has_changed, names_view, snapshot, snapshot_changed, snapshot_of, snapshot_view};

verus! {

/// Leaderboard length used when none is configured.
pub const DEFAULT_TOP_N: usize = 5;

/// Seconds between cycles when no interval is configured.
pub const DEFAULT_POLL_INTERVAL_SECS: u64 = 2;

/// Why a configuration was refused.
#[derive(Clone, Copy, Debug, PartialEq, Eq, Structural)]
pub enum ConfigError {
    /// The leaderboard length must be positive.
    InvalidTopN,
    /// The interval between cycles must be positive.
    InvalidPollInterval,
}

/// How many entrants a snapshot holds and how long to wait between cycles.
#[derive(Clone, Copy, Debug, PartialEq, Eq, Structural)]
pub struct PollerConfig {
    pub top_n: usize,
    pub poll_interval_secs: u64,
}

impl PollerConfig {
    pub open spec fn is_valid(self) -> bool {
        self.top_n > 0 && self.poll_interval_secs > 0
    }

    /// Checks a configuration: both values must be positive.
    pub fn new(top_n: usize, poll_interval_secs: u64) -> (r: Result<PollerConfig, ConfigError>)
        ensures
            top_n == 0 ==> r == Err::<PollerConfig, ConfigError>(ConfigError::InvalidTopN),
            top_n > 0 && poll_interval_secs == 0 ==> r == Err::<PollerConfig, ConfigError>(
                ConfigError::InvalidPollInterval,
            ),
            top_n > 0 && poll_interval_secs > 0 ==> r == Ok::<PollerConfig, ConfigError>(
                (PollerConfig { top_n, poll_interval_secs }),
            ),
    {
        if top_n == 0 {
            Err(ConfigError::InvalidTopN)
        } else if poll_interval_secs == 0 {
            Err(ConfigError::InvalidPollInterval)
        } else {
            Ok(PollerConfig { top_n, poll_interval_secs })
        }
    }

    /// Five entrants, two seconds.
    pub fn standard() -> (r: PollerConfig)
        ensures
            r.top_n == DEFAULT_TOP_N,
            r.poll_interval_secs == DEFAULT_POLL_INTERVAL_SECS,
            r.is_valid(),
    {
        PollerConfig { top_n: DEFAULT_TOP_N, poll_interval_secs: DEFAULT_POLL_INTERVAL_SECS }
    }
}

/// The records a fetch produced, or `None` when it failed.
pub open spec fn fetched_records(fetched: Result<Vec<AwardRecord>, FeedError>) -> Option<Seq<AwardRecord>> {
    match fetched {
        Ok(v) => Some(v@),
        Err(_) => None,
    }
}

/// The baseline after one cycle: the new snapshot when the fetch succeeded,
/// otherwise the old baseline untouched.
pub open spec fn next_baseline(
    previous: Option<Seq<Seq<char>>>,
    fetched: Option<Seq<AwardRecord>>,
    n: nat,
) -> Option<Seq<Seq<char>>> {
    match fetched {
        Some(records) => Some(snapshot_of(records, n)),
        None => previous,
    }
}

/// What one cycle reports: the new snapshot when the fetch succeeded and the
/// snapshot differs from the baseline, otherwise nothing.
pub open spec fn emission(
    previous: Option<Seq<Seq<char>>>,
    fetched: Option<Seq<AwardRecord>>,
    n: nat,
) -> Option<Seq<Seq<char>>> {
    match fetched {
        Some(records) => if snapshot_changed(previous, snapshot_of(records, n)) {
            Some(snapshot_of(records, n))
        } else {
            None
        },
        None => None,
    }
}

/// The baseline after a run of cycles with the given fetch outcomes.
pub open spec fn baseline_after(
    previous: Option<Seq<Seq<char>>>,
    outcomes: Seq<Option<Seq<AwardRecord>>>,
    n: nat,
) -> Option<Seq<Seq<char>>>
    decreases outcomes.len(),
{
    if outcomes.len() == 0 {
        previous
    } else {
        next_baseline(baseline_after(previous, outcomes.drop_last(), n), outcomes.last(), n)
    }
}

/// The records of the last successful fetch among `outcomes`, if any.
pub open spec fn last_completed(outcomes: Seq<Option<Seq<AwardRecord>>>) -> Option<Seq<AwardRecord>>
    decreases outcomes.len(),
{
    if outcomes.len() == 0 {
        None
    } else if outcomes.last() is Some {
        outcomes.last()
    } else {
        last_completed(outcomes.drop_last())
    }
}

/// After any run of cycles the baseline is exactly the snapshot of the most
/// recent cycle that completed; failed cycles leave no trace.  With no
/// completed cycle it is still the starting baseline.
pub proof fn lemma_baseline_is_last_completed(
    previous: Option<Seq<Seq<char>>>,
    outcomes: Seq<Option<Seq<AwardRecord>>>,
    n: nat,
)
    ensures
        baseline_after(previous, outcomes, n) == match last_completed(outcomes) {
            Some(records) => Some(snapshot_of(records, n)),
            None => previous,
        },
    decreases outcomes.len(),
{
    if outcomes.len() > 0 {
        lemma_baseline_is_last_completed(previous, outcomes.drop_last(), n);
    }
}

fn copy_names(v: &Vec<String>) -> (r: Vec<String>)
    ensures
        names_view(r@) == names_view(v@),
{
    let mut r: Vec<String> = Vec::new();
    let mut i: usize = 0;
    while i < v.len()
        invariant
            i <= v@.len(),
            r@.len() == i,
            forall|k: int| 0 <= k < i ==> (#[trigger] r@[k])@ == v@[k]@,
        decreases v@.len() - i,
    {
        r.push(v[i].clone());
        i = i + 1;
    }
    assert(names_view(r@) =~= names_view(v@));
    r
}

/// The polling state machine: its configuration and the snapshot of the
/// last completed cycle, which is the baseline for change detection.
pub struct Poller {
    config: PollerConfig,
    previous: Option<Vec<String>>,
}

impl Poller {
    pub closed spec fn config_view(&self) -> PollerConfig {
        self.config
    }

    pub closed spec fn baseline(&self) -> Option<Seq<Seq<char>>> {
        snapshot_view(self.previous)
    }

    /// A poller that has not completed a cycle yet.
    pub fn new(config: PollerConfig) -> (r: Poller)
        ensures
            r.config_view() == config,
            r.baseline() is None,
    {
        Poller { config, previous: None }
    }

    pub fn config(&self) -> (r: PollerConfig)
        ensures
            r == self.config_view(),
    {
        self.config
    }

    /// The snapshot of the last completed cycle.
    pub fn previous(&self) -> (r: &Option<Vec<String>>)
        ensures
            snapshot_view(*r) == self.baseline(),
    {
        &self.previous
    }

    /// One cycle, given what the fetch produced.  On a failed fetch nothing
    /// is reported and the baseline stays.  Otherwise the records are
    /// tallied, ranked and cut to the configured length; the result is
    /// reported when it differs from the baseline, and becomes the baseline
    /// either way.
    pub fn run_cycle(&mut self, fetched: Result<Vec<AwardRecord>, FeedError>) -> (emit: Option<Vec<String>>)
        ensures
            final(self).config_view() == old(self).config_view(),
            final(self).baseline() == next_baseline(
                old(self).baseline(),
                fetched_records(fetched),
                old(self).config_view().top_n as nat,
            ),
            snapshot_view(emit) == emission(
                old(self).baseline(),
                fetched_records(fetched),
                old(self).config_view().top_n as nat,
            ),
    {
        match fetched {
            Err(_) => None,
            Ok(records) => {
                let current = snapshot(&records, self.config.top_n);
                let changed = has_changed(&self.previous, &current);
                let emit = if changed {
                    Some(copy_names(&current))
                } else {
                    None
                };
                self.previous = Some(current);
                emit
            },
        }
    }
}

} // verus!
