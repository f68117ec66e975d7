use githerb::usecase::diff::origin;
use githerb::usecase::error::Error;
use githerb::{Branch, Proposal, ProposalId, Sha, Timestamp};

type Result<T> = std::result::Result<T, Error>;

fn sha(letter: char) -> Sha {
    Sha::parse(&std::iter::repeat_n(letter, 40).collect::<String>()).unwrap()
}

fn proposal() -> Proposal {
    let mut proposal = Proposal::open(
        ProposalId::parse("gate-0123456").unwrap(),
        "this gate",
        Branch::parse("main").unwrap(),
        sha('b'),
        sha('a'),
        Timestamp::from_unix(1_760_000_000),
    )
    .unwrap();
    proposal.add_revision(sha('c')).unwrap();
    proposal
}

#[test]
fn a_diff_starts_at_the_base_unless_a_revision_is_named() -> Result<()> {
    assert_eq!(origin(&proposal(), None)?, sha('b'));
    assert_eq!(origin(&proposal(), Some(1))?, sha('a'));
    assert_eq!(origin(&proposal(), Some(2))?, sha('c'));
    Ok(())
}

#[test]
fn a_revision_this_proposal_never_had_is_refused() {
    let err = origin(&proposal(), Some(3)).unwrap_err();

    assert!(matches!(err, Error::NoSuchRevision(3)), "{err:?}");
    assert!(matches!(
        origin(&proposal(), Some(0)),
        Err(Error::NoSuchRevision(0))
    ));
}
