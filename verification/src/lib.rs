//! A small task tracker: tasks with priorities and tags, a store, an archive,
//! a change history, notifications, filters and several text renderings.
//! Every function here is verified against its contract, apart from three
//! small wrappers around std (appending a character, Unicode lower-casing,
//! reading the clock) whose contracts are trusted.

pub mod archive;
pub mod export;
pub mod filters;
pub mod formatter;
pub mod history;
pub mod notifications;
pub mod reporting;
pub mod reports;
pub mod seqs;
pub mod text;
pub mod urgency;
pub mod stats;
pub mod store;
pub mod task;
