//! Verified runtime logic.

pub mod contract;
pub mod credentials;
pub mod deadlines;
pub mod digest;
pub mod engine;
pub mod error;
pub mod event_visit;
pub mod history;
pub mod json;
pub mod keyed;
pub mod lifecycle;
pub mod listing;
pub mod migration;
pub mod names;
pub mod order;
pub mod runs;
pub mod session_events;
pub mod status;
pub mod stream;
pub mod text;
pub mod wire;
