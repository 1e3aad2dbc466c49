//! Running flows: what is emitted, what is signed, and what each mode may do.

pub mod application;
pub mod course;
pub mod events;
pub mod mode;
pub mod preflight;
pub mod registry;
pub mod run;
pub mod signature;
