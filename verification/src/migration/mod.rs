//! Moving sessions of the former layout into conversations.

pub mod manifest;
pub mod observations;
pub mod plan;
pub mod stage;
pub mod staging;
pub mod target;
pub mod transfer;
