//! Every way the core refuses a value, in one enum.
//!
//! A refusal is a value, not a string: the caller matches the variant and the
//! message names the offending thing.

use vstd::prelude::*;

use crate::check::CheckName;
use crate::chunk::{field_word, Field};
use crate::identity::{RecordId, Sha};
use crate::number::{decimal, decimal_int, push_decimal, push_int};
use crate::proposal::{state_word, State};
use crate::text::copy_str;

verus! {

/// Why the core refused a value.
#[derive(Debug, Clone, PartialEq, Eq)]
pub enum Error {
    /// A sha field that is not forty lowercase hex characters.
    NoRevision(String),
    /// A blank file path.
    NoFile,
    /// A note or an answer that says nothing.
    NoBody,
    /// A record with no author.
    NoAuthor,
    /// A resolution or an answer that names no note.
    NoTarget,
    /// A side that is neither `old` nor `new`.
    UnknownSide(String),
    /// A span that covers no line, or ends before it starts.
    EmptySpan {
        /// The first line asked for.
        start: i64,
        /// The last line asked for.
        end: i64,
    },
    /// A line that is not a record: bad JSON, a bad timestamp, negative seconds.
    Malformed(String),
    /// A format version this build does not speak. Refused, never skipped.
    Version(i64),
    /// A kind of record this build does not know. The store skips these.
    UnknownKind(String),
    /// A proposal with no name.
    NoProposalId,
    /// A proposal name a ref cannot carry.
    BadProposalId(String),
    /// A proposal or a chunk with no title.
    NoTitle,
    /// A proposal whose head is its base.
    NothingProposed,
    /// A revision the proposal already carries.
    RevisionKnown(Sha),
    /// A record about a revision this proposal never saw.
    UnknownRevision(Sha),
    /// A resolution or an answer naming a note this proposal does not carry.
    UnknownComment(RecordId),
    /// Landing refused because the head still has notes nobody resolved.
    OpenComments {
        /// How many are open.
        count: usize,
        /// Which revision they are on.
        revision: u32,
    },
    /// A change asked of a proposal that has already landed or been given up on.
    NotOpen(State),
    /// A state this build does not know.
    UnknownState(String),
    /// A proposal with no target branch.
    NoBranch,
    /// A branch name git would not accept.
    BadBranch(String),
    /// A check with no name.
    NoCheckName,
    /// A check status that is neither `passed` nor `failed`.
    UnknownStatus(String),
    /// A required check that ran on the head and said no.
    CheckFailed(CheckName),
    /// A required check that never ran on the head.
    CheckMissing(CheckName),
    /// A capped field carrying more than one line.
    NotOneLine(Field),
    /// A capped field longer than its ceiling.
    TooLong {
        /// Which field.
        field: Field,
        /// How long it is, in characters.
        chars: usize,
        /// How long it may be.
        ceiling: usize,
    },
    /// A chunk that does not say how it was and how it is.
    NoBeforeAfter,
    /// A chunk that does not name the call that was made.
    NoDecision,
    /// A task this build does not run.
    UnknownTask(String),
    /// A phase this build does not know.
    UnknownPhase(String),
}

/// What a refusal says, every text as its characters.
pub enum ErrorView {
    NoRevision(Seq<char>),
    NoFile,
    NoBody,
    NoAuthor,
    NoTarget,
    UnknownSide(Seq<char>),
    EmptySpan { start: i64, end: i64 },
    Malformed(Seq<char>),
    Version(i64),
    UnknownKind(Seq<char>),
    NoProposalId,
    BadProposalId(Seq<char>),
    NoTitle,
    NothingProposed,
    RevisionKnown(Seq<char>),
    UnknownRevision(Seq<char>),
    UnknownComment(Seq<char>),
    OpenComments { count: usize, revision: u32 },
    NotOpen(State),
    UnknownState(Seq<char>),
    NoBranch,
    BadBranch(Seq<char>),
    NoCheckName,
    UnknownStatus(Seq<char>),
    CheckFailed(Seq<char>),
    CheckMissing(Seq<char>),
    NotOneLine(Field),
    TooLong { field: Field, chars: usize, ceiling: usize },
    NoBeforeAfter,
    NoDecision,
    UnknownTask(Seq<char>),
    UnknownPhase(Seq<char>),
}

impl View for Error {
    type V = ErrorView;

    open spec fn view(&self) -> ErrorView {
        match self {
            Error::NoRevision(s) => ErrorView::NoRevision(s@),
            Error::NoFile => ErrorView::NoFile,
            Error::NoBody => ErrorView::NoBody,
            Error::NoAuthor => ErrorView::NoAuthor,
            Error::NoTarget => ErrorView::NoTarget,
            Error::UnknownSide(s) => ErrorView::UnknownSide(s@),
            Error::EmptySpan { start, end } => ErrorView::EmptySpan { start: *start, end: *end },
            Error::Malformed(s) => ErrorView::Malformed(s@),
            Error::Version(v) => ErrorView::Version(*v),
            Error::UnknownKind(s) => ErrorView::UnknownKind(s@),
            Error::NoProposalId => ErrorView::NoProposalId,
            Error::BadProposalId(s) => ErrorView::BadProposalId(s@),
            Error::NoTitle => ErrorView::NoTitle,
            Error::NothingProposed => ErrorView::NothingProposed,
            Error::RevisionKnown(s) => ErrorView::RevisionKnown(s@),
            Error::UnknownRevision(s) => ErrorView::UnknownRevision(s@),
            Error::UnknownComment(s) => ErrorView::UnknownComment(s@),
            Error::OpenComments { count, revision } => ErrorView::OpenComments {
                count: *count,
                revision: *revision,
            },
            Error::NotOpen(s) => ErrorView::NotOpen(*s),
            Error::UnknownState(s) => ErrorView::UnknownState(s@),
            Error::NoBranch => ErrorView::NoBranch,
            Error::BadBranch(s) => ErrorView::BadBranch(s@),
            Error::NoCheckName => ErrorView::NoCheckName,
            Error::UnknownStatus(s) => ErrorView::UnknownStatus(s@),
            Error::CheckFailed(s) => ErrorView::CheckFailed(s@),
            Error::CheckMissing(s) => ErrorView::CheckMissing(s@),
            Error::NotOneLine(f) => ErrorView::NotOneLine(*f),
            Error::TooLong { field, chars, ceiling } => ErrorView::TooLong {
                field: *field,
                chars: *chars,
                ceiling: *ceiling,
            },
            Error::NoBeforeAfter => ErrorView::NoBeforeAfter,
            Error::NoDecision => ErrorView::NoDecision,
            Error::UnknownTask(s) => ErrorView::UnknownTask(s@),
            Error::UnknownPhase(s) => ErrorView::UnknownPhase(s@),
        }
    }
}

/// What a refusal says to a person: what was refused, then the value.
pub open spec fn error_message(e: ErrorView) -> Seq<char> {
    match e {
        ErrorView::NoRevision(raw) => "a comment must name the revision it applies to: "@ + raw,
        ErrorView::NoFile => "a comment must name a file"@,
        ErrorView::NoBody => "a comment must say something"@,
        ErrorView::NoAuthor => "a record must name its author"@,
        ErrorView::NoTarget => "a resolution must name the comment it resolves"@,
        ErrorView::UnknownSide(raw) => "a span is on the old side or the new side: "@ + raw,
        ErrorView::EmptySpan { start, end } =>
            "a span covers at least one line, ending at or after it starts: lines "@
                + decimal_int(start as int) + " to "@ + decimal_int(end as int),
        ErrorView::Malformed(what) => "not a record: "@ + what,
        ErrorView::Version(v) => "a version of the format this build does not speak: "@
            + decimal_int(v as int),
        ErrorView::UnknownKind(kind) => "a kind of record this build does not know: "@ + kind,
        ErrorView::NoProposalId => "a proposal must be named"@,
        ErrorView::BadProposalId(raw) => "not a name a proposal ref can carry: "@ + raw,
        ErrorView::NoTitle => "a proposal must have a title"@,
        ErrorView::NothingProposed => "a proposal must move past its base"@,
        ErrorView::RevisionKnown(sha) => "that revision is already on the proposal: "@ + sha,
        ErrorView::UnknownRevision(sha) => "that revision is not on this proposal: "@ + sha,
        ErrorView::UnknownComment(id) => "that comment is not on this proposal: "@ + id,
        ErrorView::OpenComments { count, revision } =>
            "the head revision still has open comments: "@ + decimal(count as nat)
                + " on revision "@ + decimal(revision as nat),
        ErrorView::NotOpen(state) => "the proposal is no longer open: it is "@ + state_word(state),
        ErrorView::UnknownState(raw) => "a state this build does not know: "@ + raw,
        ErrorView::NoBranch => "a proposal must name the branch it lands on"@,
        ErrorView::BadBranch(raw) => "not a branch name git would accept: "@ + raw,
        ErrorView::NoCheckName => "a check must be named"@,
        ErrorView::UnknownStatus(raw) => "a check either passed or failed: "@ + raw,
        ErrorView::CheckFailed(name) => "a check failed on the head revision: "@ + name,
        ErrorView::CheckMissing(name) => "a required check has not run on the head revision: "@
            + name,
        ErrorView::NotOneLine(field) => "this is one line, and one line only: "@ + field_word(field),
        ErrorView::TooLong { field, chars, ceiling } =>
            "longer than the ceiling, say it shorter: "@ + field_word(field) + " is "@
                + decimal(chars as nat) + " characters, the ceiling is "@ + decimal(ceiling as nat),
        ErrorView::NoBeforeAfter => "a chunk says how it was and how it is"@,
        ErrorView::NoDecision => "a chunk names the call that was made"@,
        ErrorView::UnknownTask(raw) => "a task this build does not run: "@ + raw,
        ErrorView::UnknownPhase(raw) => "a task starts, finishes or fails: "@ + raw,
    }
}

fn said(prefix: &str, tail: &str) -> (s: String)
    ensures
        s@ == prefix@ + tail@,
{
    let mut s = copy_str(prefix);
    s.append(tail);
    s
}

impl Error {
    /// The refusal as a person reads it, naming the value refused.
    pub fn to_string(&self) -> (s: String)
        ensures
            s@ == error_message(self@),
    {
        let s = match self {
            Error::NoRevision(raw) => said("a comment must name the revision it applies to: ", raw.as_str()),
            Error::NoFile => copy_str("a comment must name a file"),
            Error::NoBody => copy_str("a comment must say something"),
            Error::NoAuthor => copy_str("a record must name its author"),
            Error::NoTarget => copy_str("a resolution must name the comment it resolves"),
            Error::UnknownSide(raw) => said("a span is on the old side or the new side: ", raw.as_str()),
            Error::EmptySpan { start, end } => {
                let mut s = copy_str(
                    "a span covers at least one line, ending at or after it starts: lines ",
                );
                push_int(&mut s, *start);
                s.append(" to ");
                push_int(&mut s, *end);
                s
            },
            Error::Malformed(what) => said("not a record: ", what.as_str()),
            Error::Version(v) => {
                let mut s = copy_str("a version of the format this build does not speak: ");
                push_int(&mut s, *v);
                s
            },
            Error::UnknownKind(kind) => said("a kind of record this build does not know: ", kind.as_str()),
            Error::NoProposalId => copy_str("a proposal must be named"),
            Error::BadProposalId(raw) => said("not a name a proposal ref can carry: ", raw.as_str()),
            Error::NoTitle => copy_str("a proposal must have a title"),
            Error::NothingProposed => copy_str("a proposal must move past its base"),
            Error::RevisionKnown(sha) => said("that revision is already on the proposal: ", sha.as_str()),
            Error::UnknownRevision(sha) => said("that revision is not on this proposal: ", sha.as_str()),
            Error::UnknownComment(id) => said("that comment is not on this proposal: ", id.as_str()),
            Error::OpenComments { count, revision } => {
                let mut s = copy_str("the head revision still has open comments: ");
                push_decimal(&mut s, *count as u64);
                s.append(" on revision ");
                push_decimal(&mut s, *revision as u64);
                s
            },
            Error::NotOpen(state) => said("the proposal is no longer open: it is ", state.as_str()),
            Error::UnknownState(raw) => said("a state this build does not know: ", raw.as_str()),
            Error::NoBranch => copy_str("a proposal must name the branch it lands on"),
            Error::BadBranch(raw) => said("not a branch name git would accept: ", raw.as_str()),
            Error::NoCheckName => copy_str("a check must be named"),
            Error::UnknownStatus(raw) => said("a check either passed or failed: ", raw.as_str()),
            Error::CheckFailed(name) => said("a check failed on the head revision: ", name.as_str()),
            Error::CheckMissing(name) => said(
                "a required check has not run on the head revision: ",
                name.as_str(),
            ),
            Error::NotOneLine(field) => said("this is one line, and one line only: ", field.as_str()),
            Error::TooLong { field, chars, ceiling } => {
                let mut s = said("longer than the ceiling, say it shorter: ", field.as_str());
                s.append(" is ");
                push_decimal(&mut s, *chars as u64);
                s.append(" characters, the ceiling is ");
                push_decimal(&mut s, *ceiling as u64);
                s
            },
            Error::NoBeforeAfter => copy_str("a chunk says how it was and how it is"),
            Error::NoDecision => copy_str("a chunk names the call that was made"),
            Error::UnknownTask(raw) => said("a task this build does not run: ", raw.as_str()),
            Error::UnknownPhase(raw) => said("a task starts, finishes or fails: ", raw.as_str()),
        };
        s
    }
}

} // verus!
