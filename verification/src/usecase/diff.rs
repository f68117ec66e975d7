//! The patch a person reads: from where the work was cut to where it is
//! now, or from any revision along the way.

use vstd::prelude::*;

use crate::identity::Sha;
use crate::proposal::{Proposal, ProposalView, Revision, RevisionView};
use crate::usecase::error::{Error, ErrorView};

verus! {

/// The commit of the first revision carrying that number, if one does.
pub open spec fn revision_numbered(revisions: Seq<RevisionView>, number: u32) -> Option<Seq<char>>
    decreases revisions.len(),
{
    if revisions.len() == 0 {
        None
    } else if revisions[0].number == number {
        Some(revisions[0].sha)
    } else {
        revision_numbered(revisions.drop_first(), number)
    }
}

/// Where the diff of a proposal starts: its base, or the revision asked for.
pub open spec fn origin_of(p: ProposalView, since: Option<u32>) -> Result<Seq<char>, ErrorView> {
    match since {
        None => Ok(p.base),
        Some(n) => match revision_numbered(p.revisions, n) {
            Some(sha) => Ok(sha),
            None => Err(ErrorView::NoSuchRevision(n)),
        },
    }
}

/// Where the diff starts: the base, or the revision the reader asked for.
///
/// Reading from a revision is how you see what changed since you last looked,
/// which is a different question from what the proposal does. A revision
/// number the proposal does not carry is refused.
pub fn origin(proposal: &Proposal, since: Option<u32>) -> (r: Result<Sha, Error>)
    ensures
        match r {
            Ok(s) => origin_of(proposal@, since) == Ok::<Seq<char>, ErrorView>(s@),
            Err(e) => origin_of(proposal@, since) == Err::<Seq<char>, ErrorView>(e@),
        },
{
    let number = match since {
        None => {
            return Ok(proposal.base().duplicate());
        },
        Some(n) => n,
    };
    let revisions = proposal.revisions();
    let ghost rs = proposal@.revisions;
    let mut i: usize = 0;
    assert(rs.skip(0) =~= rs);
    while i < revisions.len()
        invariant
            i <= revisions@.len(),
            rs == revisions@.map_values(|v: &Revision| v@),
            rs == proposal@.revisions,
            since == Some(number),
            revision_numbered(rs, number) == revision_numbered(rs.skip(i as int), number),
        decreases revisions.len() - i,
    {
        assert(rs[i as int] == revisions@[i as int]@);
        assert(rs.skip(i as int)[0] == rs[i as int]);
        if revisions[i].number() == number {
            let sha = revisions[i].sha().duplicate();
            assert(revision_numbered(rs, number) == Some(sha@));
            assert(origin_of(proposal@, since) == Ok::<Seq<char>, ErrorView>(sha@));
            return Ok(sha);
        }
        assert(rs.skip(i as int).drop_first() =~= rs.skip(i + 1));
        i = i + 1;
    }
    Err(Error::NoSuchRevision(number))
}

} // verus!
