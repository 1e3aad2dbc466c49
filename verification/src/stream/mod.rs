//! JSON Lines streams that are kept in numbered segments.

pub mod framing;
pub mod layout;
pub mod prefix;
pub mod reader;
pub mod writer;
