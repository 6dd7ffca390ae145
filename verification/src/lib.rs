//! Draft analysis for a League of Legends champion-select overlay.
pub mod catalog;
pub mod clock;
pub mod engine;
pub mod json;
pub mod lcu;
pub mod lists;
pub mod models;
pub mod number;
pub mod riot;
pub mod settings;
pub mod state;
pub mod stats;
pub mod text;
pub mod update;
