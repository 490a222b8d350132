//! A small persistent voting ledger: proposals with yes/no tallies and
//! duplicate-vote prevention, user profiles, deterministic identifier
//! derivation, and a lossless snapshot codec for restart persistence.

pub mod api;
pub mod codec;
pub mod ident;
pub mod state;
pub mod types;
