//! Verified core of a pomodoro focus-timer's persistent store.
//!
//! The store keeps three tables — tasks, pomodoro sessions, and per-day
//! statistics — together with a schema version, and maintains the invariant
//! that every daily statistic equals the aggregation of the session and
//! task-completion log for its date. Schema migration, the repository
//! operations, the aggregate maintenance and the report readers are all
//! verified against that invariant; the surrounding application persists
//! the store to disk and draws timestamps and fresh identifiers from the
//! environment.

pub mod ambient;
pub mod counts;
pub mod laws;
pub mod model;
pub mod monk;
pub mod preservation;
pub mod reports;
pub mod settings;
pub mod sort;
pub mod sounds;
pub mod store;
pub mod text;
pub mod types;
