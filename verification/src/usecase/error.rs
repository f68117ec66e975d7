//! Every way a use case refuses.
//!
//! The core refuses values, git refuses commands, and this enum is where the
//! values meet the person who typed something. A refusal carries the
//! offending thing so the sentence can name it.

use vstd::prelude::*;

use crate::branch::Branch;
use crate::check::CheckName;
use crate::errors::{error_message, Error as CoreError, ErrorView as CoreErrorView};
use crate::identity::{ProposalId, Sha};
use crate::number::{decimal, push_decimal};
use crate::patch::{parse_error_text, ParseError, ParseErrorView};
use crate::text::copy_str;
use crate::usecase::config::{config_error_text, ConfigError, ConfigErrorView};

verus! {

/// Why a use case refused.
#[derive(Debug)]
pub enum Error {
    /// The core refused a value.
    Review(CoreError),
    /// A diff that is not a diff.
    Patch(ParseError),
    /// The repository declares something this build cannot read.
    Config(ConfigError),
    /// A description that is not the JSON this build expects.
    Description(String),
    /// A proposal nobody opened, or nobody opened by that name.
    NotFound(ProposalId),
    /// A ref under the proposal namespace whose basename is not a number.
    NotARevision(String),
    /// A revision number this proposal does not carry.
    NoSuchRevision(u32),
    /// A log line this build refuses to read past.
    Log {
        /// Which log: the proposal log or the annotation log.
        log: &'static str,
        /// The object the note is attached to.
        object: Sha,
        /// What the core said about the line.
        source: CoreError,
    },
    /// The target branch moved on, so landing would not be a fast-forward.
    NotFastForward(Branch),
    /// The target is the branch checked out here and the working tree has
    /// something in the way of moving with it.
    WorkingTreeInTheWay {
        /// The branch that is checked out.
        target: Branch,
        /// What git refused to overwrite, first line.
        detail: String,
    },
    /// A check command that died on a signal, which is not a verdict on it.
    CheckKilled(CheckName),
    /// Landing refused: checks ran on the head revision and some said no.
    CheckFailed {
        /// How many said no.
        failed: usize,
        /// How many ran.
        total: usize,
    },
}

/// What a use case's refusal says, every text as its characters.
pub enum ErrorView {
    Review(CoreErrorView),
    Patch(ParseErrorView),
    Config(ConfigErrorView),
    Description(Seq<char>),
    NotFound(Seq<char>),
    NotARevision(Seq<char>),
    NoSuchRevision(u32),
    Log { log: Seq<char>, object: Seq<char>, source: CoreErrorView },
    NotFastForward(Seq<char>),
    WorkingTreeInTheWay { target: Seq<char>, detail: Seq<char> },
    CheckKilled(Seq<char>),
    CheckFailed { failed: usize, total: usize },
}

impl View for Error {
    type V = ErrorView;

    open spec fn view(&self) -> ErrorView {
        match self {
            Error::Review(e) => ErrorView::Review(e@),
            Error::Patch(e) => ErrorView::Patch(e@),
            Error::Config(e) => ErrorView::Config(e@),
            Error::Description(s) => ErrorView::Description(s@),
            Error::NotFound(id) => ErrorView::NotFound(id@),
            Error::NotARevision(s) => ErrorView::NotARevision(s@),
            Error::NoSuchRevision(n) => ErrorView::NoSuchRevision(*n),
            Error::Log { log, object, source } => ErrorView::Log {
                log: log@,
                object: object@,
                source: source@,
            },
            Error::NotFastForward(b) => ErrorView::NotFastForward(b@),
            Error::WorkingTreeInTheWay { target, detail } => ErrorView::WorkingTreeInTheWay {
                target: target@,
                detail: detail@,
            },
            Error::CheckKilled(n) => ErrorView::CheckKilled(n@),
            Error::CheckFailed { failed, total } => ErrorView::CheckFailed {
                failed: *failed,
                total: *total,
            },
        }
    }
}

/// What a refusal says to the person who typed something.
pub open spec fn refusal_text(e: ErrorView) -> Seq<char> {
    match e {
        ErrorView::Review(x) => error_message(x),
        ErrorView::Patch(x) => parse_error_text(x),
        ErrorView::Config(x) => config_error_text(x),
        ErrorView::Description(what) => "reading the description: "@ + what,
        ErrorView::NotFound(id) => "proposal "@ + id + ": not found"@,
        ErrorView::NotARevision(name) => "ref "@ + name + " is not a revision"@,
        ErrorView::NoSuchRevision(n) => "that revision is not on this proposal: r"@ + decimal(
            n as nat,
        ),
        ErrorView::Log { log, object, source } => log + " on "@ + object + ": "@ + error_message(
            source,
        ),
        ErrorView::NotFastForward(target) => target + " moved since the proposal was cut"@,
        ErrorView::WorkingTreeInTheWay { target, detail } => target
            + " is checked out here and the working tree is in the way: "@ + detail
            + "; commit or stash, then land"@,
        ErrorView::CheckKilled(name) => "a check that was killed is not a check that failed: "@
            + name,
        ErrorView::CheckFailed { failed, total } => "a check said no: "@ + decimal(failed as nat)
            + " of "@ + decimal(total as nat) + " failed on the head revision"@,
    }
}

impl Error {
    /// The refusal as a person reads it, naming the thing refused.
    pub fn to_string(&self) -> (s: String)
        ensures
            s@ == refusal_text(self@),
    {
        match self {
            Error::Review(e) => e.to_string(),
            Error::Patch(e) => e.to_string(),
            Error::Config(e) => e.to_string(),
            Error::Description(what) => {
                let mut s = copy_str("reading the description: ");
                s.append(what.as_str());
                s
            },
            Error::NotFound(id) => {
                let mut s = copy_str("proposal ");
                s.append(id.as_str());
                s.append(": not found");
                s
            },
            Error::NotARevision(name) => {
                let mut s = copy_str("ref ");
                s.append(name.as_str());
                s.append(" is not a revision");
                s
            },
            Error::NoSuchRevision(n) => {
                let mut s = copy_str("that revision is not on this proposal: r");
                push_decimal(&mut s, *n as u64);
                s
            },
            Error::Log { log, object, source } => {
                let mut s = copy_str(log);
                s.append(" on ");
                s.append(object.as_str());
                s.append(": ");
                let said = source.to_string();
                s.append(said.as_str());
                s
            },
            Error::NotFastForward(target) => {
                let mut s = copy_str(target.as_str());
                s.append(" moved since the proposal was cut");
                s
            },
            Error::WorkingTreeInTheWay { target, detail } => {
                let mut s = copy_str(target.as_str());
                s.append(" is checked out here and the working tree is in the way: ");
                s.append(detail.as_str());
                s.append("; commit or stash, then land");
                s
            },
            Error::CheckKilled(name) => {
                let mut s = copy_str("a check that was killed is not a check that failed: ");
                s.append(name.as_str());
                s
            },
            Error::CheckFailed { failed, total } => {
                let mut s = copy_str("a check said no: ");
                push_decimal(&mut s, *failed as u64);
                s.append(" of ");
                push_decimal(&mut s, *total as u64);
                s.append(" failed on the head revision");
                s
            },
        }
    }
}

} // verus!
