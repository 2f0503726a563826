//! Medal-table watcher: turns a results feed into award records, tallies
//! them per entrant, ranks the entrants by medals, and decides when the
//! leading cohort has changed and is to be reported.

pub mod feed;
pub mod model;
pub mod poller;
pub mod ranking;
pub mod snapshot;
pub mod tally;

pub use feed::{extract_awards, parse_medal_class, read_award, JsonValue};
pub use model::{AwardRecord, FeedError, LeaderboardEntry, MedalClass, MedalCount};
pub use poller::{ConfigError, Poller, PollerConfig, DEFAULT_POLL_INTERVAL_SECS, DEFAULT_TOP_N};
pub use ranking::rank;
pub use snapshot::{create_table, has_changed, snapshot, top_entrants};
pub use tally::build_tally;
