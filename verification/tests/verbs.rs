use githerb::usecase::error::Error;
use githerb::usecase::verbs::{annotate, dispatch, report, reply, resolve};
use githerb::{
    Anchor, Author, Branch, FilePath, Proposal, ProposalId, RecordId, Sha, Side, Span, State,
    Timestamp,
};

fn sha(seed: u8) -> Sha {
    Sha::parse(&format!("{seed:02x}").repeat(20)).unwrap()
}

fn ada() -> Author {
    Author::parse("ada").unwrap()
}

fn proposal() -> Proposal {
    Proposal::open(
        ProposalId::parse("latch").unwrap(),
        "Fix the latch",
        Branch::parse("main").unwrap(),
        sha(0),
        sha(1),
        Timestamp::from_unix(1_000),
    )
    .unwrap()
}

fn anchor() -> Anchor {
    Anchor::new(
        FilePath::parse("a.rs").unwrap(),
        Span::new(Side::New, 3, 4).unwrap(),
    )
}

#[test]
fn a_note_lands_on_the_head_and_an_older_one_stops_blocking() {
    let mut p = proposal();
    let note = annotate(&mut p, &ada(), Timestamp::from_unix(1_100), anchor(), "why").unwrap();
    assert_eq!(note.revision(), &sha(1));
    assert!(p.landable(&[]).is_err());
    p.add_revision(sha(2)).unwrap();
    assert_eq!(p.landable(&[]), Ok(()));
    assert_eq!(p.conversation().len(), 1);
}

#[test]
fn an_answer_to_a_note_nobody_wrote_is_refused_and_changes_nothing() {
    let mut p = proposal();
    let before = p.clone();
    let stranger = RecordId::parse("ffffffffffff").unwrap();
    let err = reply(&mut p, &ada(), Timestamp::from_unix(1_100), &stranger, "done").unwrap_err();
    assert!(
        matches!(err, Error::Review(githerb::Error::UnknownComment(_))),
        "{err:?}"
    );
    assert_eq!(p, before);
}

#[test]
fn an_answer_then_a_resolution_clears_the_way() {
    let mut p = proposal();
    let note = annotate(&mut p, &ada(), Timestamp::from_unix(1_100), anchor(), "why").unwrap();
    reply(&mut p, &ada(), Timestamp::from_unix(1_200), note.id(), "because").unwrap();
    assert_eq!(p.answers(note.id()).len(), 1);
    resolve(&mut p, &ada(), Timestamp::from_unix(1_300), note.id()).unwrap();
    assert_eq!(p.landable(&[]), Ok(()));
}

#[test]
fn an_agent_says_what_it_is_doing_and_reads_back() {
    let mut p = proposal();
    dispatch(&mut p, &ada(), Timestamp::from_unix(1_100)).unwrap();
    assert_eq!(p.agent_line(), "waiting for an agent");
    report(
        &mut p,
        &Author::parse("githerb-run").unwrap(),
        Timestamp::from_unix(1_400),
        "apply",
        "started",
        None,
    )
    .unwrap();
    assert_eq!(p.agent_line(), "githerb-run is apply since 00:23");
    let err = report(&mut p, &ada(), Timestamp::from_unix(1_500), "dance", "started", None)
        .unwrap_err();
    assert!(matches!(err, Error::Review(githerb::Error::UnknownTask(_))));
}

#[test]
fn a_proposal_given_up_on_takes_nothing_more() {
    let mut p = proposal();
    p.abandon().unwrap();
    assert_eq!(p.state(), State::Abandoned);
    let err = annotate(&mut p, &ada(), Timestamp::from_unix(1_100), anchor(), "late").unwrap_err();
    assert!(matches!(err, Error::Review(githerb::Error::NotOpen(State::Abandoned))));
}
