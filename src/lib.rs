//! Attack coordination for attack/defense capture-the-flag games: the round clock,
//! target discovery and de-duplication, target eligibility, execution records, flag
//! extraction, and the batching of flags towards a scoring server.

// The round clock and the configuration.
pub mod clock;
pub mod config;

// Records, orderings and string helpers.
pub mod natural;
pub mod text;
pub mod types;
pub mod views;

// Fetcher: game-server flag ids to targets.
pub mod address;
pub mod fetcher;
pub mod json;
pub mod seen;

// Runner: eligible targets, container pools, execution records and flags.
pub mod archive;
pub mod execution;
pub mod pool;
pub mod targets;

// Handler and scoring-server adapters.
pub mod adapters;
pub mod faust;
pub mod handler;
pub mod submitter;

// Change notifications.
pub mod bus;
