//! What landing reads off the checks: how many said no, and which ones the
//! repository requires.
//!
//! Running a check is the caller's business, in a worktree of the head; what
//! its answers add up to is decided here.

use vstd::prelude::*;

use crate::check::{Check, CheckName, CheckStatus, CheckView};
use crate::errors::ErrorView as CoreErrorView;
use crate::text::trimmed;
use crate::usecase::config::Config;
use crate::usecase::error::{Error, ErrorView};

verus! {

/// How many results said no.
pub open spec fn refusals(results: Seq<CheckView>) -> nat
    decreases results.len(),
{
    if results.len() == 0 {
        0
    } else {
        refusals(results.drop_last()) + (if results.last().status == CheckStatus::Passed {
            0nat
        } else {
            1nat
        })
    }
}

/// How many of a set of results said no.
pub fn refused(results: &[Check]) -> (n: usize)
    ensures
        n == refusals(results@.map_values(|c: Check| c@)),
{
    let ghost views = results@.map_values(|c: Check| c@);
    let mut n: usize = 0;
    let mut i: usize = 0;
    while i < results.len()
        invariant
            i <= results@.len(),
            views == results@.map_values(|c: Check| c@),
            n <= i,
            n == refusals(views.take(i as int)),
        decreases results.len() - i,
    {
        assert(views.take(i + 1).drop_last() =~= views.take(i as int));
        if !results[i].passed() {
            n = n + 1;
        }
        i = i + 1;
    }
    assert(views.take(results@.len() as int) =~= views);
    n
}

/// The checks the repository requires, as names landing can ask for, in the
/// order they are declared: the names trimmed, or the refusal of the first
/// blank one.
pub fn required(config: &Config) -> (r: Result<Vec<CheckName>, Error>)
    ensures
        match r {
            Ok(v) => v@.len() == config@.checks.len() && forall|i: int|
                0 <= i < v@.len() ==> (#[trigger] v@[i])@ == trimmed(config@.checks[i].0)
                    && trimmed(config@.checks[i].0).len() > 0,
            Err(e) => e@ == ErrorView::Review(CoreErrorView::NoCheckName) && exists|i: int|
                0 <= i < config@.checks.len() && trimmed(#[trigger] config@.checks[i].0).len()
                    == 0,
        },
{
    let names = config.required();
    let mut v: Vec<CheckName> = Vec::new();
    let mut i: usize = 0;
    while i < names.len()
        invariant
            i <= names@.len(),
            names@.len() == config@.checks.len(),
            forall|k: int| 0 <= k < names@.len() ==> (#[trigger] names@[k])@ == config@.checks[k].0,
            v@.len() == i,
            forall|k: int|
                0 <= k < i ==> (#[trigger] v@[k])@ == trimmed(config@.checks[k].0) && trimmed(
                    config@.checks[k].0,
                ).len() > 0,
        decreases names.len() - i,
    {
        match CheckName::parse(names[i]) {
            Ok(name) => {
                v.push(name);
            },
            Err(e) => {
                assert(names@[i as int]@ == config@.checks[i as int].0);
                return Err(Error::Review(e));
            },
        }
        i = i + 1;
    }
    Ok(v)
}

/// What a run of results says: yes when none said no, and otherwise a
/// refusal counting those that did against all of them.
pub fn verdict(results: &[Check]) -> (r: Result<(), Error>)
    ensures
        refusals(results@.map_values(|c: Check| c@)) == 0 ==> r is Ok,
        refusals(results@.map_values(|c: Check| c@)) > 0 ==> (r matches Err(e) && e@
            == ErrorView::CheckFailed {
            failed: refusals(results@.map_values(|c: Check| c@)) as usize,
            total: results@.len() as usize,
        }),
{
    let failed = refused(results);
    if failed == 0 {
        Ok(())
    } else {
        Err(Error::CheckFailed { failed, total: results.len() })
    }
}

/// What an exit code says of the code it ran on: zero is yes, any other
/// code is no, and a command that died on a signal said nothing.
pub fn exit_status(code: Option<i32>) -> (s: Option<CheckStatus>)
    ensures
        s == match code {
            Some(0) => Some(CheckStatus::Passed),
            Some(_) => Some(CheckStatus::Failed),
            None => None::<CheckStatus>,
        },
{
    match code {
        Some(0) => Some(CheckStatus::Passed),
        Some(_) => Some(CheckStatus::Failed),
        None => None,
    }
}

/// The result already recorded on the head under a name, if there is one: a
/// commit that answered once is not asked again.
pub fn answered<'a>(already: &[&'a Check], name: &CheckName) -> (r: Option<&'a Check>)
    ensures
        match r {
            Some(c) => exists|i: int|
                0 <= i < already@.len() && #[trigger] already@[i]@ == c@ && c@.name == name@
                    && forall|j: int| 0 <= j < i ==> (#[trigger] already@[j]@).name != name@,
            None => forall|i: int| 0 <= i < already@.len() ==> (#[trigger] already@[i]@).name != name@,
        },
{
    let mut i: usize = 0;
    while i < already.len()
        invariant
            i <= already@.len(),
            forall|j: int| 0 <= j < i ==> (#[trigger] already@[j]@).name != name@,
        decreases already.len() - i,
    {
        if already[i].name().same(name) {
            return Some(already[i]);
        }
        i = i + 1;
    }
    None
}

} // verus!
