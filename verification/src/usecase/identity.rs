//! Who is working.
//!
//! The core takes the author as a parameter, which is what keeps it testable
//! without a fixture. Where the name comes from (the environment, what git
//! was told) is the caller's business; which of them counts is decided here.

use vstd::prelude::*;

use crate::identity::Author;
use crate::text::trimmed;

verus! {

/// The environment variable that overrides everything, so a script can sign
/// the log as whoever it is acting for.
pub const AUTHOR_ENV: &'static str = "GITHERB_AUTHOR";

/// What a record is signed with when nobody said who is working.
pub const UNKNOWN: &'static str = "unknown";

/// What the runner signs with, so the log does not read as though the person
/// sitting here did the rebase.
pub const RUNNER: &'static str = "githerb-run";

/// A name somebody gave, when they gave one that is not blank: trimmed.
pub fn named(raw: Option<String>) -> (a: Option<Author>)
    ensures
        match raw {
            Some(s) => if trimmed(s@).len() > 0 {
                a matches Some(x) && x@ == trimmed(s@)
            } else {
                a is None
            },
            None => a is None,
        },
{
    match raw {
        Some(s) => match Author::parse(s.as_str()) {
            Ok(a) => Some(a),
            Err(_) => None,
        },
        None => None,
    }
}

/// A name this build wrote itself, which is never blank.
pub fn literal(name: &str) -> (a: Author)
    requires
        trimmed(name@).len() > 0,
    ensures
        a@ == trimmed(name@),
{
    Author::parse(name).unwrap()
}

/// Where a signature comes from.
pub struct Identity;

impl Identity {

/// Who is working here: the name the environment gave, then the one git was
/// told, then nobody in particular.
pub fn detect(from_env: Option<String>, from_git: Option<String>) -> (a: Author)
    ensures
        named_spec(from_env) matches Some(x) ==> a@ == x,
        named_spec(from_env) is None ==> (named_spec(from_git) matches Some(x) ==> a@ == x),
        named_spec(from_env) is None && named_spec(from_git) is None ==> a@ == trimmed(UNKNOWN@),
{
    match named(from_env) {
        Some(a) => a,
        None => match named(from_git) {
            Some(a) => a,
            None => {
                proof {
                    reveal_strlit("unknown");
                }
                literal(UNKNOWN)
            },
        },
    }
}

/// Who the runner is, unless somebody said otherwise: a job it did is the
/// runner's line in the log, not yours.
pub fn runner(from_env: Option<String>) -> (a: Author)
    ensures
        named_spec(from_env) matches Some(x) ==> a@ == x,
        named_spec(from_env) is None ==> a@ == trimmed(RUNNER@),
{
    match named(from_env) {
        Some(a) => a,
        None => {
            proof {
                reveal_strlit("githerb-run");
            }
            literal(RUNNER)
        },
    }
}

}

/// The name a given text names, when it is not blank.
pub open spec fn named_spec(raw: Option<String>) -> Option<Seq<char>> {
    match raw {
        Some(s) => if trimmed(s@).len() > 0 {
            Some(trimmed(s@))
        } else {
            None
        },
        None => None,
    }
}

} // verus!
