//! Code review and a gate for trunk: proposals, revisions, annotations, the
//! rules about them and the wire format they are stored in.

pub mod batch;
pub mod branch;
pub mod calendar;
pub mod check;
pub mod chunk;
pub mod comment;
pub mod digest;
pub mod errors;
pub mod format;
pub mod handover;
pub mod identity;
pub mod json;
pub mod lifecycle;
pub mod number;
pub mod patch;
pub mod proposal;
pub mod rationale;
pub mod record;
pub mod reply;
pub mod resolution;
pub mod span;
pub mod text;
pub mod timestamp;
pub mod usecase;
pub mod wire;
pub mod work;

pub use errors::Error;
pub use identity::{Author, FilePath, ProposalId, RecordId, Sha};
pub use timestamp::Timestamp;
pub use branch::Branch;
pub use span::{Anchor, Side, Span};
pub use check::{Check, CheckName, CheckStatus};
pub use chunk::{one_line, Chunk, Field};
pub use comment::Comment;
pub use rationale::Rationale;
pub use record::{Kind, Record};
pub use reply::Reply;
pub use resolution::Resolution;
pub use wire::derive_id;
pub use work::{activity, Activity, Dispatch, Phase, Task, Work};
pub use lifecycle::{Event, EventKind};
pub use proposal::views::CheckSummary;
pub use proposal::{Proposal, Revision, State};
