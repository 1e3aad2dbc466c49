//! The life of a conversation and its runs: how they are made, how they are taken
//! back, and how what was interrupted is finished.

pub mod recovery;
pub mod creation;
pub mod reclamation;
