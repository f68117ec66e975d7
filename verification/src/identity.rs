//! The names things go by: a commit, a record, a proposal, a person, a file.
//!
//! Each is a string with a rule, and the rule lives in the only constructor.

use vstd::prelude::*;

use crate::errors::{Error, ErrorView};
use crate::text::{any_char, chars_of, contains_char, contains_space, copy_str, has_char, is_space, trim, trimmed};

verus! {

/// How many hex characters a commit name has.
pub const SHA_LENGTH: usize = 40;

/// How much of a sha is enough to recognise it.
pub const SHORT_LENGTH: usize = 7;

/// A digit or one of `a` to `f`.
pub open spec fn is_lower_hex(c: char) -> bool {
    ('0' <= c && c <= '9') || ('a' <= c && c <= 'f')
}

/// Forty lowercase hex characters.
pub open spec fn is_sha_text(s: Seq<char>) -> bool {
    &&& s.len() == SHA_LENGTH
    &&& forall|i: int| 0 <= i < s.len() ==> is_lower_hex(#[trigger] s[i])
}

/// A name a proposal ref can carry: not blank, one segment, no white space.
pub open spec fn is_proposal_name(s: Seq<char>) -> bool {
    &&& s.len() > 0
    &&& !has_char(s, '/')
    &&& !any_char(s, |c: char| is_space(c))
}

/// The first seven characters of a name, or all of it when it is shorter.
pub open spec fn short_of(s: Seq<char>) -> Seq<char> {
    if s.len() < SHORT_LENGTH {
        s
    } else {
        s.take(SHORT_LENGTH as int)
    }
}

/// What reading a commit name gives: the name, or the refusal carrying the text.
pub open spec fn sha_result(raw: Seq<char>) -> Result<Seq<char>, ErrorView> {
    if is_sha_text(raw) {
        Ok(raw)
    } else {
        Err(ErrorView::NoRevision(raw))
    }
}

/// What reading a text that must not be blank gives: the trimmed text, or
/// the refusal given.
pub open spec fn nonblank_result(raw: Seq<char>, refusal: ErrorView) -> Result<Seq<char>, ErrorView> {
    if trimmed(raw).len() > 0 {
        Ok(trimmed(raw))
    } else {
        Err(refusal)
    }
}

/// What reading a proposal name gives: the trimmed name, or why it is not one.
pub open spec fn proposal_id_result(raw: Seq<char>) -> Result<Seq<char>, ErrorView> {
    if trimmed(raw).len() == 0 {
        Err(ErrorView::NoProposalId)
    } else if !is_proposal_name(trimmed(raw)) {
        Err(ErrorView::BadProposalId(raw))
    } else {
        Ok(trimmed(raw))
    }
}

/// The view of a result whose success is a text.
pub open spec fn text_result<T: View<V = Seq<char>>>(r: Result<T, Error>) -> Result<Seq<char>, ErrorView> {
    match r {
        Ok(x) => Ok(x@),
        Err(e) => Err(e@),
    }
}

/// A full commit object name: forty lowercase hex characters.
#[derive(Debug, PartialEq, Eq, PartialOrd, Ord, Hash)]
pub struct Sha(String);

impl Clone for Sha {
    fn clone(&self) -> (r: Sha)
        ensures
            r@ == self@,
    {
        self.duplicate()
    }
}

impl View for Sha {
    type V = Seq<char>;

    closed spec fn view(&self) -> Seq<char> {
        self.0@
    }
}

impl Sha {
    /// A name is only ever built from forty lowercase hex characters.
    #[verifier::type_invariant]
    pub(crate) closed spec fn is_commit_name(self) -> bool {
        is_sha_text(self.0@)
    }

    /// What the invariant says of the name.
    pub(crate) proof fn lemma_commit_name(sha: Sha)
        requires
            sha.is_commit_name(),
        ensures
            is_sha_text(sha@),
    {
    }

    /// Read a commit name, and nothing looser. Anything that is not exactly
    /// forty lowercase hex characters is refused.
    pub fn parse(raw: &str) -> (r: Result<Sha, Error>)
        ensures
            is_sha_text(raw@) ==> (r matches Ok(sha) && sha@ == raw@),
            !is_sha_text(raw@) ==> (r matches Err(Error::NoRevision(t)) && t@ == raw@),
            text_result(r) == sha_result(raw@),
    {
        let v = chars_of(raw);
        let mut hex = v.len() == SHA_LENGTH;
        let mut i: usize = 0;
        while hex && i < v.len()
            invariant
                i <= v@.len(),
                v@ == raw@,
                hex ==> v@.len() == SHA_LENGTH,
                hex ==> forall|k: int| 0 <= k < i ==> is_lower_hex(#[trigger] v@[k]),
                !hex ==> !is_sha_text(raw@),
            decreases v.len() - i,
        {
            let c = v[i];
            if !(('0' <= c && c <= '9') || ('a' <= c && c <= 'f')) {
                hex = false;
            }
            i = i + 1;
        }
        if hex {
            Ok(Sha(copy_str(raw)))
        } else {
            Err(Error::NoRevision(copy_str(raw)))
        }
    }

    /// The forty characters.
    pub fn as_str(&self) -> (s: &str)
        ensures
            s@ == self@,
    {
        self.0.as_str()
    }

    /// Whether two names are the same commit.
    pub fn same(&self, other: &Sha) -> (b: bool)
        ensures
            b == (self@ == other@),
    {
        self.0 == other.0
    }

    /// A copy of the name.
    pub fn duplicate(&self) -> (r: Sha)
        ensures
            r@ == self@,
    {
        proof {
            use_type_invariant(self);
        }
        Sha(self.0.clone())
    }

    /// The first seven characters, which is what a person reads.
    pub fn short(&self) -> (s: String)
        ensures
            s@ == short_of(self@),
    {
        let v = chars_of(self.0.as_str());
        let end = if v.len() < SHORT_LENGTH {
            v.len()
        } else {
            SHORT_LENGTH
        };
        crate::text::string_of(v.as_slice(), 0, end)
    }
}

/// What a record is called: twelve hex characters derived from its content,
/// or the identity a line of the log carries.
#[derive(Debug, PartialEq, Eq, PartialOrd, Ord, Hash)]
pub struct RecordId(String);

impl Clone for RecordId {
    fn clone(&self) -> (r: RecordId)
        ensures
            r@ == self@,
    {
        self.duplicate()
    }
}

impl View for RecordId {
    type V = Seq<char>;

    closed spec fn view(&self) -> Seq<char> {
        self.0@
    }
}

impl RecordId {
    /// Every value is built by the readers here, which trim and refuse.
    #[verifier::type_invariant]
    pub(crate) closed spec fn is_valid(self) -> bool {
        self.0@.len() > 0 && crate::text::trimmed(self.0@) == self.0@
    }

    /// What the invariant says of the text.
    pub(crate) proof fn lemma_valid(x: RecordId)
        requires
            x.is_valid(),
        ensures
            ({ let v = x@; v.len() > 0 && crate::text::trimmed(v) == v }),
    {
    }

    /// Read the identity a record carries, or that a resolution points at.
    /// A blank id is refused.
    pub fn parse(raw: &str) -> (r: Result<RecordId, Error>)
        ensures
            trimmed(raw@).len() > 0 ==> (r matches Ok(id) && id@ == trimmed(raw@)),
            trimmed(raw@).len() == 0 ==> r matches Err(Error::NoTarget),
            text_result(r) == nonblank_result(raw@, ErrorView::NoTarget),
    {
        let t = trim(raw);
        if t.as_str().is_empty() {
            return Err(Error::NoTarget);
        }
        proof {
            crate::text::lemma_trimmed_twice(raw@);
        }
        Ok(RecordId(t))
    }

    /// The identity the wire layer derived from a record's own bytes.
    pub(crate) fn from_derived(hex: String) -> (r: RecordId)
        requires
            hex@.len() > 0,
            trimmed(hex@) == hex@,
        ensures
            r@ == hex@,
    {
        RecordId(hex)
    }

    /// The characters.
    pub fn as_str(&self) -> (s: &str)
        ensures
            s@ == self@,
    {
        self.0.as_str()
    }

    /// Whether two ids name the same record.
    pub fn same(&self, other: &RecordId) -> (b: bool)
        ensures
            b == (self@ == other@),
    {
        self.0 == other.0
    }

    /// A copy of the id.
    pub fn duplicate(&self) -> (r: RecordId)
        ensures
            r@ == self@,
    {
        proof {
            use_type_invariant(self);
        }
        RecordId(self.0.clone())
    }
}

/// What a proposal is called, and the last segment of the ref it lives in.
#[derive(Debug, PartialEq, Eq, PartialOrd, Ord, Hash)]
pub struct ProposalId(String);

impl Clone for ProposalId {
    fn clone(&self) -> (r: ProposalId)
        ensures
            r@ == self@,
    {
        self.duplicate()
    }
}

impl View for ProposalId {
    type V = Seq<char>;

    closed spec fn view(&self) -> Seq<char> {
        self.0@
    }
}

impl ProposalId {
    /// Every value is built by the readers here, which trim and refuse.
    #[verifier::type_invariant]
    pub(crate) closed spec fn is_valid(self) -> bool {
        is_proposal_name(self.0@) && crate::text::trimmed(self.0@) == self.0@
    }

    /// What the invariant says of the text.
    pub(crate) proof fn lemma_valid(x: ProposalId)
        requires
            x.is_valid(),
        ensures
            ({ let v = x@; is_proposal_name(v) && crate::text::trimmed(v) == v }),
    {
    }

    /// Read a proposal name: trimmed, not blank, with no slash and no white
    /// space, because the id is one ref segment.
    pub fn parse(raw: &str) -> (r: Result<ProposalId, Error>)
        ensures
            trimmed(raw@).len() == 0 ==> r matches Err(Error::NoProposalId),
            trimmed(raw@).len() > 0 && !is_proposal_name(trimmed(raw@)) ==> (r matches Err(
                Error::BadProposalId(t),
            ) && t@ == raw@),
            is_proposal_name(trimmed(raw@)) ==> (r matches Ok(id) && id@ == trimmed(raw@)),
    {
        let t = trim(raw);
        if t.as_str().is_empty() {
            return Err(Error::NoProposalId);
        }
        let v = chars_of(t.as_str());
        if contains_char(v.as_slice(), '/') || contains_space(v.as_slice()) {
            return Err(Error::BadProposalId(copy_str(raw)));
        }
        proof {
            crate::text::lemma_trimmed_twice(raw@);
        }
        Ok(ProposalId(t))
    }

    /// The name.
    pub fn as_str(&self) -> (s: &str)
        ensures
            s@ == self@,
    {
        self.0.as_str()
    }

    /// Whether two names are the same proposal.
    pub fn same(&self, other: &ProposalId) -> (b: bool)
        ensures
            b == (self@ == other@),
    {
        self.0 == other.0
    }

    /// A copy of the name.
    pub fn duplicate(&self) -> (r: ProposalId)
        ensures
            r@ == self@,
    {
        proof {
            use_type_invariant(self);
        }
        ProposalId(self.0.clone())
    }
}

/// Who left a record: a person, an agent, or whatever ran a check.
#[derive(Debug, PartialEq, Eq, PartialOrd, Ord, Hash)]
pub struct Author(String);

impl Clone for Author {
    fn clone(&self) -> (r: Author)
        ensures
            r@ == self@,
    {
        self.duplicate()
    }
}

impl View for Author {
    type V = Seq<char>;

    closed spec fn view(&self) -> Seq<char> {
        self.0@
    }
}

impl Author {
    /// Every value is built by the readers here, which trim and refuse.
    #[verifier::type_invariant]
    pub(crate) closed spec fn is_valid(self) -> bool {
        self.0@.len() > 0 && crate::text::trimmed(self.0@) == self.0@
    }

    /// What the invariant says of the text.
    pub(crate) proof fn lemma_valid(x: Author)
        requires
            x.is_valid(),
        ensures
            ({ let v = x@; v.len() > 0 && crate::text::trimmed(v) == v }),
    {
    }

    /// Read the name a record is signed with. A blank name is refused.
    pub fn parse(raw: &str) -> (r: Result<Author, Error>)
        ensures
            trimmed(raw@).len() > 0 ==> (r matches Ok(a) && a@ == trimmed(raw@)),
            trimmed(raw@).len() == 0 ==> r matches Err(Error::NoAuthor),
            text_result(r) == nonblank_result(raw@, ErrorView::NoAuthor),
    {
        let t = trim(raw);
        if t.as_str().is_empty() {
            return Err(Error::NoAuthor);
        }
        proof {
            crate::text::lemma_trimmed_twice(raw@);
        }
        Ok(Author(t))
    }

    /// The name.
    pub fn as_str(&self) -> (s: &str)
        ensures
            s@ == self@,
    {
        self.0.as_str()
    }

    /// A copy of the name.
    pub fn duplicate(&self) -> (r: Author)
        ensures
            r@ == self@,
    {
        proof {
            use_type_invariant(self);
        }
        Author(self.0.clone())
    }
}

/// A path inside the repository, as the diff spells it.
#[derive(Debug, PartialEq, Eq, PartialOrd, Ord, Hash)]
pub struct FilePath(String);

impl Clone for FilePath {
    fn clone(&self) -> (r: FilePath)
        ensures
            r@ == self@,
    {
        self.duplicate()
    }
}

impl View for FilePath {
    type V = Seq<char>;

    closed spec fn view(&self) -> Seq<char> {
        self.0@
    }
}

impl FilePath {
    /// Every value is built by the readers here, which trim and refuse.
    #[verifier::type_invariant]
    pub(crate) closed spec fn is_valid(self) -> bool {
        self.0@.len() > 0 && crate::text::trimmed(self.0@) == self.0@
    }

    /// What the invariant says of the text.
    pub(crate) proof fn lemma_valid(x: FilePath)
        requires
            x.is_valid(),
        ensures
            ({ let v = x@; v.len() > 0 && crate::text::trimmed(v) == v }),
    {
    }

    /// Read a path. A blank path is refused.
    pub fn parse(raw: &str) -> (r: Result<FilePath, Error>)
        ensures
            trimmed(raw@).len() > 0 ==> (r matches Ok(p) && p@ == trimmed(raw@)),
            trimmed(raw@).len() == 0 ==> r matches Err(Error::NoFile),
            text_result(r) == nonblank_result(raw@, ErrorView::NoFile),
    {
        let t = trim(raw);
        if t.as_str().is_empty() {
            return Err(Error::NoFile);
        }
        proof {
            crate::text::lemma_trimmed_twice(raw@);
        }
        Ok(FilePath(t))
    }

    /// The path.
    pub fn as_str(&self) -> (s: &str)
        ensures
            s@ == self@,
    {
        self.0.as_str()
    }

    /// A copy of the path.
    pub fn duplicate(&self) -> (r: FilePath)
        ensures
            r@ == self@,
    {
        proof {
            use_type_invariant(self);
        }
        FilePath(self.0.clone())
    }
}

} // verus!
