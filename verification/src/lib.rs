//! A record engine for a ledger: introductions, their reply counters and
//! replies, each stored at an address derived from the identities involved.

pub mod account;
pub mod address;
pub mod error;
pub mod instruction;
pub mod processor;
pub mod reward;
pub mod state;
pub mod wire;
