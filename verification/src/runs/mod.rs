//! What a run keeps: its log of attempts, its objects and how it is recovered.

pub mod attempts;
pub mod page;
pub mod objects;
pub mod storage;
pub mod recovery;
pub mod selection;
pub mod replay;
pub mod ownership;
pub mod reservation;
pub mod continuation;
pub mod resumption;
pub mod writer;
pub mod serial;
