//! The validated index of a conversation's history.

pub mod construction;
pub mod external_sort;
pub mod fixed_record;
pub mod identifiers;
pub mod index;
pub mod model;
pub mod pointers;
pub mod records;
pub mod scratch;
pub mod search;
pub mod tokens;
pub mod validation;
pub mod work;
