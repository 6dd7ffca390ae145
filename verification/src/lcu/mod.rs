//! The League client that runs on the same machine.
pub mod client;
pub mod draft;
pub mod lockfile;
pub mod purpose;
pub mod types;

pub use client::{parse_ws_event, tier_for_queue, RANKED_FLEX_QUEUE, RANKED_SOLO_QUEUE};
pub use draft::draft_from_session;
