//! A registry of single-question polls: option parsing, vote ledgers,
//! tallies and time-based eviction.

pub mod clock;
pub mod decimal;
pub mod error;
pub mod options;
pub mod order;
pub mod poll;
pub mod record;
pub mod store;
pub mod tally;
pub mod text;
