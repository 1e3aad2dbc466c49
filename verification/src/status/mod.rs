//! The status of conversations: its summary, how it is kept in step with what it
//! sums up, and pages of it.

pub mod summary;
pub mod transaction;
pub mod appending;
pub mod run_mutation;
pub mod query;
