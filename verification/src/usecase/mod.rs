//! Use cases: the sequence of steps a command performs, with the reading and
//! writing of the repository left to the caller. One module per concern.

pub mod config;
pub mod error;
pub mod describe;
pub mod diff;
pub mod gate;
pub mod identity;
pub mod propose;
pub mod snapshot;
pub mod verbs;
