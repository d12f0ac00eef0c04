//! Tracker core for a game-progress notification bot: a single-writer
//! storage state machine, a time-bucketed deferred-event cache shared by two
//! schedulers, the schedulers' per-tick decision rules, and the pure parts of
//! the cooperative-contract progress engine.

pub mod cache;
pub mod config;
pub mod coop;
pub mod events;
pub mod migrate;
pub mod request;
pub mod records;
pub mod schedule;
pub mod store;
pub mod text;
pub mod types;

pub use text::{replace_all, return_tf_emoji};
