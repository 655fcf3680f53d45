//! A multiplexed blobstore core: the decision logic that fans one logical
//! `get` / `put` / `is_present` / scrub operation out to several underlying
//! blob stores and reconciles their divergent, partially failing responses
//! into one answer.
//!
//! The store calls themselves are asynchronous and live outside this crate;
//! here each path is a state machine over per-store completion events, plus
//! a resolver that folds a whole completion sequence into the final answer.

pub mod config;
pub mod errors;
pub mod get;
pub mod outcome;
pub mod presence;
pub mod put;
pub mod registry;
pub mod scrub;
