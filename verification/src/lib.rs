//! A chess-trivia library: players guess a top grandmaster from progressively
//! revealed biographical hints.
//!
//! The crate has two halves. The ingestion half (`catalog`) folds a dump of
//! subject/predicate/value statements into one normalized record per player.
//! The game half (`engine`, `session`) deterministically selects a target
//! player for a numeric game id, tracks how many fact categories each game has
//! revealed so far, and answers prediction and guess requests.

pub mod text;

pub mod dates;

pub mod catalog;

pub mod session;

pub mod engine;
