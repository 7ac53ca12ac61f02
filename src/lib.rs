//! Detection of round-trip price discrepancies between two exchange venues:
//! exact conversion between native and decimal units, the two legs of a round
//! trip, profit classification, and the poller's transitions.

pub mod units;
pub mod dex;
pub mod arb;
pub mod poller;
pub mod text;
