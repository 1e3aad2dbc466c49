//! The store of credentials: one small document that is replaced whole, under a lock,
//! and that no one else can read.

pub mod platform;
pub mod staging;
pub mod store;
