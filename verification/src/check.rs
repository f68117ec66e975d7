//! What a command said about one revision.
//!
//! Who ran it is a field, not an architecture: the same record comes from a
//! laptop, from a loop on a spare machine, or from whatever CI the project
//! already pays for.

use vstd::prelude::*;

use crate::errors::Error;
use crate::identity::{Author, Sha};
use crate::text::{copy_str, same_text, trim, trimmed};
use crate::record::RecordView;
use crate::timestamp::Timestamp;
use crate::wire::annotation::{record_writable, writable_moment};

verus! {

/// What a check is called in the repository's configuration.
#[derive(Debug, PartialEq, Eq, PartialOrd, Ord, Hash)]
pub struct CheckName(String);

impl Clone for CheckName {
    fn clone(&self) -> (r: CheckName)
        ensures
            r@ == self@,
    {
        self.duplicate()
    }
}

impl View for CheckName {
    type V = Seq<char>;

    closed spec fn view(&self) -> Seq<char> {
        self.0@
    }
}

impl CheckName {
    /// Every value is built by the readers here, which trim and refuse.
    #[verifier::type_invariant]
    pub(crate) closed spec fn is_valid(self) -> bool {
        self.0@.len() > 0 && crate::text::trimmed(self.0@) == self.0@
    }

    /// What the invariant says of the text.
    pub(crate) proof fn lemma_valid(x: CheckName)
        requires
            x.is_valid(),
        ensures
            ({ let v = x@; v.len() > 0 && crate::text::trimmed(v) == v }),
    {
    }

    /// Read a check name: trimmed, and refused when blank.
    pub fn parse(raw: &str) -> (r: Result<CheckName, Error>)
        ensures
            trimmed(raw@).len() > 0 ==> (r matches Ok(n) && n@ == trimmed(raw@)),
            trimmed(raw@).len() == 0 ==> r matches Err(Error::NoCheckName),
            crate::identity::text_result(r) == crate::identity::nonblank_result(raw@, crate::errors::ErrorView::NoCheckName),
    {
        let t = trim(raw);
        if t.as_str().is_empty() {
            return Err(Error::NoCheckName);
        }
        proof {
            crate::text::lemma_trimmed_twice(raw@);
        }
        Ok(CheckName(t))
    }

    /// The name.
    pub fn as_str(&self) -> (s: &str)
        ensures
            s@ == self@,
    {
        self.0.as_str()
    }

    /// Whether two names are the same check.
    pub fn same(&self, other: &CheckName) -> (b: bool)
        ensures
            b == (self@ == other@),
    {
        self.0 == other.0
    }

    /// A copy of the name.
    pub fn duplicate(&self) -> (n: CheckName)
        ensures
            n@ == self@,
    {
        proof {
            use_type_invariant(self);
        }
        CheckName(self.0.clone())
    }
}

/// How a check ended. There is no third answer worth recording, because a
/// check that did not finish tells landing nothing.
#[derive(Debug, Clone, Copy, PartialEq, Eq, Hash)]
pub enum CheckStatus {
    /// It said yes.
    Passed,
    /// It said no.
    Failed,
}

/// The word the wire format uses for a status.
pub open spec fn status_word(status: CheckStatus) -> Seq<char> {
    match status {
        CheckStatus::Passed => "passed"@,
        CheckStatus::Failed => "failed"@,
    }
}

proof fn lemma_status_words_differ()
    ensures
        status_word(CheckStatus::Passed) != status_word(CheckStatus::Failed),
{
    reveal_strlit("passed");
    reveal_strlit("failed");
    assert("passed"@[0] != "failed"@[0]);
}

impl CheckStatus {
    /// Read a status off the wire: `passed` or `failed`, exactly.
    pub fn parse(raw: &str) -> (r: Result<CheckStatus, Error>)
        ensures
            raw@ == status_word(CheckStatus::Passed) ==> r == Ok::<CheckStatus, Error>(
                CheckStatus::Passed,
            ),
            raw@ == status_word(CheckStatus::Failed) ==> r == Ok::<CheckStatus, Error>(
                CheckStatus::Failed,
            ),
            raw@ != status_word(CheckStatus::Passed) && raw@ != status_word(CheckStatus::Failed)
                ==> (r matches Err(Error::UnknownStatus(t)) && t@ == raw@),
    {
        proof {
            lemma_status_words_differ();
        }
        if same_text(raw, "passed") {
            Ok(CheckStatus::Passed)
        } else if same_text(raw, "failed") {
            Ok(CheckStatus::Failed)
        } else {
            Err(Error::UnknownStatus(copy_str(raw)))
        }
    }

    /// The word the wire format uses.
    pub fn as_str(self) -> (s: &'static str)
        ensures
            s@ == status_word(self),
    {
        match self {
            CheckStatus::Passed => "passed",
            CheckStatus::Failed => "failed",
        }
    }
}

/// Reading a status's word gives the status back.
pub proof fn law_status_word_round_trip(status: CheckStatus)
    ensures
        status_word(status) == status_word(CheckStatus::Passed) <==> status
            == CheckStatus::Passed,
        status_word(status) == status_word(CheckStatus::Failed) <==> status
            == CheckStatus::Failed,
{
    lemma_status_words_differ();
}

/// One result, against one revision.
#[derive(Debug, PartialEq, Eq)]
pub struct Check {
    name: CheckName,
    status: CheckStatus,
    revision: Sha,
    seconds: u32,
    author: Author,
    at: Timestamp,
}

/// What a check says.
pub struct CheckView {
    pub name: Seq<char>,
    pub status: CheckStatus,
    pub revision: Seq<char>,
    pub seconds: u32,
    pub author: Seq<char>,
    pub at: i64,
}

impl View for Check {
    type V = CheckView;

    closed spec fn view(&self) -> CheckView {
        CheckView {
            name: self.name@,
            status: self.status,
            revision: self.revision@,
            seconds: self.seconds,
            author: self.author@,
            at: self.at@,
        }
    }
}

impl Clone for Check {
    fn clone(&self) -> (r: Check)
        ensures
            r@ == self@,
    {
        self.duplicate()
    }
}

impl Check {
    /// Every value is built by the constructors here, which validate it.
    #[verifier::type_invariant]
    pub(crate) closed spec fn is_sound(self) -> bool {
        crate::wire::annotation::record_sound(crate::record::RecordView::Check(self@))
    }

    /// What the invariant says of the record.
    pub(crate) proof fn lemma_sound(x: Check)
        requires
            x.is_sound(),
        ensures
            crate::wire::annotation::record_sound(crate::record::RecordView::Check(x@)),
    {
    }

    /// The only way to build one. Nothing here can be refused: every field
    /// arrives already validated.
    pub fn new(
        name: CheckName,
        status: CheckStatus,
        revision: Sha,
        seconds: u32,
        author: Author,
        at: Timestamp,
    ) -> (c: Check)
        ensures
            c@ == (CheckView {
                name: name@,
                status,
                revision: revision@,
                seconds,
                author: author@,
                at: at@,
            }),
            writable_moment(at@) ==> record_writable(RecordView::Check(c@)),
    {
        proof {
            use_type_invariant(&name);
            use_type_invariant(&revision);
            use_type_invariant(&author);
            CheckName::lemma_valid(name);
            Sha::lemma_commit_name(revision);
            Author::lemma_valid(author);
        }
        Check { name, status, revision, seconds, author, at }
    }

    /// What the check is called.
    pub fn name(&self) -> (n: &CheckName)
        ensures
            n@ == self@.name,
    {
        &self.name
    }

    /// How it ended.
    pub fn status(&self) -> (s: CheckStatus)
        ensures
            s == self@.status,
    {
        self.status
    }

    /// The commit it ran against.
    pub fn revision(&self) -> (s: &Sha)
        ensures
            s@ == self@.revision,
    {
        &self.revision
    }

    /// How long it took.
    pub fn seconds(&self) -> (s: u32)
        ensures
            s == self@.seconds,
    {
        self.seconds
    }

    /// Who or what ran it.
    pub fn author(&self) -> (a: &Author)
        ensures
            a@ == self@.author,
    {
        &self.author
    }

    /// When, to the second, in UTC.
    pub fn at(&self) -> (t: Timestamp)
        ensures
            t@ == self@.at,
    {
        self.at
    }

    /// Whether it said yes.
    pub fn passed(&self) -> (b: bool)
        ensures
            b == (self@.status == CheckStatus::Passed),
    {
        match self.status {
            CheckStatus::Passed => true,
            CheckStatus::Failed => false,
        }
    }

    /// A copy of the result.
    pub fn duplicate(&self) -> (c: Check)
        ensures
            c@ == self@,
    {
        proof {
            use_type_invariant(self);
        }
        Check {
            name: self.name.duplicate(),
            status: self.status,
            revision: self.revision.duplicate(),
            seconds: self.seconds,
            author: self.author.duplicate(),
            at: self.at,
        }
    }
}

} // verus!
