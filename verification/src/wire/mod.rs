//! The wire format: one line of JSON per record, and the identity derived from
//! it.
//!
//! This is a contract with other people's tooling: the field names, the field
//! order and the rules about which fields are omitted are all load-bearing,
//! and the format carries a version for the day one of them has to change.

pub mod annotation;
pub mod event;
pub mod line;

pub use event::EventLine;
pub use line::{derive_id, Line};
