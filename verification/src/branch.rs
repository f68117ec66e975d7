//! Where a proposal lands. Usually the trunk, and nothing here cares.
//!
//! The rules are git's own, kept to the ones that matter: no leading dash so
//! a name can never be read as a flag, no path tricks, no ref syntax.

use vstd::prelude::*;

use crate::errors::{Error, ErrorView};
use crate::text::{
    chars_of, contains_pair, copy_str, ends_with, ends_with_char, ends_with_chars, has_pair,
    starts_with_char, trim, trimmed,
};

verus! {

/// Whether a character is one git refuses anywhere in a branch name.
pub open spec fn is_forbidden_in_branch(c: char) -> bool {
    c == ' ' || c == '~' || c == '^' || c == ':' || c == '?' || c == '*' || c == '[' || c == '\\'
}

/// Whether a trimmed, non-blank name is one git would accept as a branch.
pub open spec fn is_branch_name(name: Seq<char>) -> bool {
    &&& !starts_with_char(name, '-')
    &&& !starts_with_char(name, '/')
    &&& !ends_with_char(name, '/')
    &&& !has_pair(name, '.', '.')
    &&& !has_pair(name, '/', '/')
    &&& !ends_with(name, ".lock"@)
    &&& forall|i: int| 0 <= i < name.len() ==> !is_forbidden_in_branch(#[trigger] name[i])
}

/// What reading a branch name gives: the trimmed name, or why it is not one.
pub open spec fn branch_result(raw: Seq<char>) -> Result<Seq<char>, ErrorView> {
    if trimmed(raw).len() == 0 {
        Err(ErrorView::NoBranch)
    } else if !is_branch_name(trimmed(raw)) {
        Err(ErrorView::BadBranch(raw))
    } else {
        Ok(trimmed(raw))
    }
}

/// The branch a proposal is meant to land on.
#[derive(Debug, PartialEq, Eq, PartialOrd, Ord, Hash)]
pub struct Branch(String);

impl Clone for Branch {
    fn clone(&self) -> (r: Branch)
        ensures
            r@ == self@,
    {
        self.duplicate()
    }
}

impl View for Branch {
    type V = Seq<char>;

    closed spec fn view(&self) -> Seq<char> {
        self.0@
    }
}

impl Branch {
    /// Every value is built by the readers here, which trim and refuse.
    #[verifier::type_invariant]
    pub(crate) closed spec fn is_valid(self) -> bool {
        self.0@.len() > 0 && crate::text::trimmed(self.0@) == self.0@ && crate::branch::is_branch_name(self.0@)
    }

    /// What the invariant says of the text.
    pub(crate) proof fn lemma_valid(x: Branch)
        requires
            x.is_valid(),
        ensures
            ({ let v = x@; v.len() > 0 && crate::text::trimmed(v) == v && crate::branch::is_branch_name(v) }),
    {
    }

    /// Read a branch name, and be the only door into one. A blank name is
    /// refused as no branch, and a name git would refuse as a bad one.
    pub fn parse(raw: &str) -> (r: Result<Branch, Error>)
        ensures
            trimmed(raw@).len() == 0 ==> r matches Err(Error::NoBranch),
            trimmed(raw@).len() > 0 && !is_branch_name(trimmed(raw@)) ==> (r matches Err(
                Error::BadBranch(t),
            ) && t@ == raw@),
            trimmed(raw@).len() > 0 && is_branch_name(trimmed(raw@)) ==> (r matches Ok(b)
                && b@ == trimmed(raw@)),
    {
        let name = trim(raw);
        if name.as_str().is_empty() {
            return Err(Error::NoBranch);
        }
        let v = chars_of(name.as_str());
        let n = v.len();
        let lock = chars_of(".lock");
        proof {
            reveal_strlit(".lock");
        }
        if v[0] == '-' || v[0] == '/' || v[n - 1] == '/' {
            return Err(Error::BadBranch(copy_str(raw)));
        }
        if contains_pair(v.as_slice(), '.', '.') || contains_pair(v.as_slice(), '/', '/')
            || ends_with_chars(v.as_slice(), lock.as_slice()) {
            return Err(Error::BadBranch(copy_str(raw)));
        }
        let mut i: usize = 0;
        while i < n
            invariant
                n == v@.len(),
                n > 0,
                v@ == trimmed(raw@),
                !starts_with_char(v@, '-'),
                !starts_with_char(v@, '/'),
                !ends_with_char(v@, '/'),
                !has_pair(v@, '.', '.'),
                !has_pair(v@, '/', '/'),
                !ends_with(v@, ".lock"@),
                i <= n,
                forall|k: int| 0 <= k < i ==> !is_forbidden_in_branch(#[trigger] v@[k]),
            decreases n - i,
        {
            let c = v[i];
            if c == ' ' || c == '~' || c == '^' || c == ':' || c == '?' || c == '*' || c == '['
                || c == '\\' {
                assert(is_forbidden_in_branch(v@[i as int]));
                return Err(Error::BadBranch(copy_str(raw)));
            }
            i = i + 1;
        }
        proof {
            crate::text::lemma_trimmed_twice(raw@);
        }
        Ok(Branch(name))
    }

    /// The name on its own.
    pub fn as_str(&self) -> (s: &str)
        ensures
            s@ == self@,
    {
        self.0.as_str()
    }

    /// Whether two branches are the same branch.
    pub fn same(&self, other: &Branch) -> (b: bool)
        ensures
            b == (self@ == other@),
    {
        self.0 == other.0
    }

    /// A copy of the branch.
    pub fn duplicate(&self) -> (b: Branch)
        ensures
            b@ == self@,
    {
        proof {
            use_type_invariant(self);
        }
        Branch(self.0.clone())
    }

    /// The fully qualified ref the branch lives in.
    pub fn git_ref(&self) -> (s: String)
        ensures
            s@ == "refs/heads/"@ + self@,
    {
        let mut s = copy_str("refs/heads/");
        s.append(self.0.as_str());
        s
    }
}

} // verus!
