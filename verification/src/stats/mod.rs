//! Matchup statistics: where they come from, how they are read and where they
//! are kept.
pub mod answers;
pub mod cache;
pub mod course;
pub mod ingest;
pub mod purpose;
pub mod qwik;
pub mod rows;
pub mod source;
pub mod store;

pub use ingest::cache_is_fresh;
pub use store::StatsDb;
