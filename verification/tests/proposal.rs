use githerb::proposal::Revision;
use githerb::{
    Anchor, Author, Branch, Check, CheckName, CheckStatus, Chunk, Comment, Dispatch, Error,
    FilePath, Phase, Proposal, ProposalId, Rationale, Record, Reply, Resolution, Sha, Side, Span,
    State, Task, Timestamp, Work,
};

type Result<T> = std::result::Result<T, Error>;

fn sha(seed: u8) -> Sha {
    Sha::parse(&format!("{seed:02x}").repeat(20)).unwrap()
}

fn author(name: &str) -> Author {
    Author::parse(name).unwrap()
}

fn at(unix: i64) -> Timestamp {
    Timestamp::from_unix(unix)
}

fn anchor(file: &str) -> Anchor {
    Anchor::new(
        FilePath::parse(file).unwrap(),
        Span::new(Side::New, 42, 47).unwrap(),
    )
}

fn proposal() -> Proposal {
    Proposal::open(
        ProposalId::parse("land-the-gate").unwrap(),
        "Land this gate",
        Branch::parse("main").unwrap(),
        sha(0),
        sha(1),
        at(1_000),
    )
    .unwrap()
}

fn note(revision: &Sha, body: &str) -> Comment {
    Comment::new(
        revision.clone(),
        anchor("internal/app/land.go"),
        body,
        author("leandro"),
        at(1_100),
    )
    .unwrap()
}

fn explanation(revision: &Sha, body: &str) -> Rationale {
    Rationale::new(
        revision.clone(),
        anchor("internal/app/land.go"),
        body,
        author("leandro"),
        at(1_100),
    )
    .unwrap()
}

fn answer(note: &Comment, body: &str, unix: i64) -> Reply {
    Reply::new(
        note.id().clone(),
        note.revision().clone(),
        body,
        author("ada-bot"),
        at(unix),
    )
    .unwrap()
}

fn resolution(note: &Comment) -> Resolution {
    Resolution::new(note.id().clone(), author("leandro"), at(1_200))
}

fn check(revision: &Sha, name: &str, status: CheckStatus) -> Check {
    Check::new(
        CheckName::parse(name).unwrap(),
        status,
        revision.clone(),
        41,
        author("githerb-ci@laptop"),
        at(1_300),
    )
}

fn work(revision: &Sha, task: Task, phase: Phase, note: Option<&str>, unix: i64) -> Work {
    Work::new(revision.clone(), task, phase, author("githerb-run"), note, at(unix)).unwrap()
}

fn dispatch(revision: &Sha, unix: i64) -> Dispatch {
    Dispatch::new(revision.clone(), author("leandro"), at(unix))
}

fn required(name: &str) -> CheckName {
    CheckName::parse(name).unwrap()
}

// --- opening ---

#[test]
fn a_new_proposal_is_open_at_revision_one() {
    let proposal = proposal();
    assert_eq!(proposal.state(), State::Open);
    assert_eq!(proposal.head().number(), 1);
    assert_eq!(proposal.head().sha(), &sha(1));
    assert_eq!(proposal.target().as_str(), "main");
    assert_eq!(proposal.base(), &sha(0));
}

#[test]
fn a_proposal_with_no_title_is_refused() {
    assert_eq!(
        Proposal::open(
            ProposalId::parse("gate").unwrap(),
            "  ",
            Branch::parse("main").unwrap(),
            sha(0),
            sha(1),
            Timestamp::from_unix(0),
        ),
        Err(Error::NoTitle)
    );
}

#[test]
fn a_proposal_that_never_left_its_base_is_refused() {
    assert_eq!(
        Proposal::open(
            ProposalId::parse("gate").unwrap(),
            "Land this gate",
            Branch::parse("main").unwrap(),
            sha(1),
            sha(1),
            Timestamp::from_unix(0),
        ),
        Err(Error::NothingProposed)
    );
}

#[test]
fn a_proposal_with_no_name_or_no_target_never_gets_built() {
    assert_eq!(ProposalId::parse(""), Err(Error::NoProposalId));
    assert_eq!(Branch::parse(""), Err(Error::NoBranch));
    assert_eq!(Sha::parse("nope"), Err(Error::NoRevision("nope".to_owned())));
}

// --- revisions ---

#[test]
fn a_revision_is_appended_and_numbered() -> Result<()> {
    let mut proposal = proposal();
    proposal.add_revision(sha(2))?;
    assert_eq!(proposal.head().number(), 2);
    assert_eq!(proposal.revisions().len(), 2);
    assert_eq!(proposal.revision_of(&sha(1)).map(Revision::number), Some(1));
    Ok(())
}

#[test]
fn a_revision_the_proposal_already_carries_is_refused() {
    let mut proposal = proposal();
    assert_eq!(
        proposal.add_revision(sha(1)),
        Err(Error::RevisionKnown(sha(1)))
    );
}

#[test]
fn a_clone_of_a_proposal_does_not_move_when_the_original_does() -> Result<()> {
    let proposal = proposal();
    let mut next = proposal.clone();
    next.add_revision(sha(2))?;
    assert_eq!(proposal.head().number(), 1);
    assert_eq!(next.head().number(), 2);
    Ok(())
}

// --- folding ---

#[test]
fn a_note_about_a_revision_this_proposal_never_saw_is_refused() {
    let mut proposal = proposal();
    assert_eq!(
        proposal.apply(Record::Comment(note(&sha(9), "look here"))),
        Err(Error::UnknownRevision(sha(9)))
    );
}

#[test]
fn a_resolution_naming_a_note_this_proposal_does_not_carry_is_refused() {
    let mut proposal = proposal();
    let stranger = note(&sha(1), "somewhere else");
    assert_eq!(
        proposal.apply(Record::Resolve(resolution(&stranger))),
        Err(Error::UnknownComment(stranger.id().clone()))
    );
}

#[test]
fn the_same_note_folded_twice_counts_once() -> Result<()> {
    let mut proposal = proposal();
    let note = note(&sha(1), "this leaks");
    proposal.apply(Record::Comment(note.clone()))?;
    proposal.apply(Record::Comment(note))?;
    assert_eq!(proposal.comments().len(), 1);
    Ok(())
}

#[test]
fn the_same_answer_folded_twice_counts_once() -> Result<()> {
    let mut proposal = proposal();
    let note = note(&sha(1), "this leaks");
    let answer = answer(&note, "renamed it", 1_400);
    proposal.fold(vec![
        Record::Comment(note.clone()),
        Record::Reply(answer.clone()),
        Record::Reply(answer),
    ])?;
    assert_eq!(proposal.answers(note.id()).len(), 1);
    Ok(())
}

#[test]
fn the_same_explanation_folded_twice_counts_once() -> Result<()> {
    let mut proposal = proposal();
    let explanation = explanation(&sha(1), "the handle is closed by the caller");
    proposal.apply(Record::Rationale(explanation.clone()))?;
    proposal.apply(Record::Rationale(explanation))?;
    assert_eq!(proposal.rationale().len(), 1);
    Ok(())
}

#[test]
fn an_answer_that_arrives_before_the_note_it_answers_still_folds() -> Result<()> {
    let mut proposal = proposal();
    let note = note(&sha(1), "this leaks");
    proposal.fold(vec![
        Record::Reply(answer(&note, "renamed it", 1_400)),
        Record::Resolve(resolution(&note)),
        Record::Comment(note.clone()),
    ])?;
    assert_eq!(proposal.answers(note.id()).len(), 1);
    assert!(proposal.is_resolved(note.id()));
    Ok(())
}

#[test]
fn answers_come_back_oldest_first_however_they_were_folded() -> Result<()> {
    let mut proposal = proposal();
    let note = note(&sha(1), "this leaks");
    proposal.fold(vec![
        Record::Comment(note.clone()),
        Record::Reply(answer(&note, "second", 1_500)),
        Record::Reply(answer(&note, "first", 1_400)),
    ])?;
    let bodies: Vec<&str> = proposal
        .answers(note.id())
        .iter()
        .map(|r| r.body())
        .collect();
    assert_eq!(bodies, vec!["first", "second"]);
    Ok(())
}

// --- landing ---

#[test]
fn a_note_on_the_head_blocks_a_landing_until_it_is_resolved() -> Result<()> {
    let mut proposal = proposal();
    let note = note(&sha(1), "this leaks");
    proposal.apply(Record::Comment(note.clone()))?;
    assert_eq!(proposal.open_comments().len(), 1);
    assert_eq!(
        proposal.landable(&[]),
        Err(Error::OpenComments {
            count: 1,
            revision: 1
        })
    );
    assert_eq!(
        proposal.land(&[]),
        Err(Error::OpenComments {
            count: 1,
            revision: 1
        })
    );
    proposal.apply(Record::Resolve(resolution(&note)))?;
    assert_eq!(proposal.open_comments().len(), 0);
    assert_eq!(proposal.landable(&[]), Ok(()));
    Ok(())
}

#[test]
fn a_note_left_on_an_older_revision_does_not_block_the_head() -> Result<()> {
    let mut proposal = proposal();
    proposal.apply(Record::Comment(note(&sha(1), "this leaks")))?;
    proposal.add_revision(sha(2))?;
    assert_eq!(proposal.open_comments().len(), 0);
    assert_eq!(proposal.conversation().len(), 1);
    assert_eq!(proposal.landable(&[]), Ok(()));
    Ok(())
}

#[test]
fn an_answer_never_blocks_a_landing() -> Result<()> {
    let mut proposal = proposal();
    let note = note(&sha(1), "this leaks");
    proposal.fold(vec![
        Record::Comment(note.clone()),
        Record::Reply(answer(&note, "renamed it", 1_400)),
        Record::Resolve(resolution(&note)),
    ])?;
    assert_eq!(proposal.landable(&[]), Ok(()));
    Ok(())
}

#[test]
fn a_clean_proposal_lands_once_and_takes_nothing_afterwards() -> Result<()> {
    let mut proposal = proposal();
    proposal.land(&[])?;
    assert_eq!(proposal.state(), State::Landed);
    assert_eq!(proposal.land(&[]), Err(Error::NotOpen(State::Landed)));
    assert_eq!(
        proposal.apply(Record::Comment(note(&sha(1), "too late"))),
        Err(Error::NotOpen(State::Landed))
    );
    assert_eq!(
        proposal.add_revision(sha(2)),
        Err(Error::NotOpen(State::Landed))
    );
    Ok(())
}

#[test]
fn a_required_check_that_never_ran_blocks_and_one_that_passed_opens_the_gate() -> Result<()> {
    let mut proposal = proposal();
    let gate = required("gate");
    assert_eq!(
        proposal.landable(std::slice::from_ref(&gate)),
        Err(Error::CheckMissing(gate.clone()))
    );
    proposal.apply(Record::Check(check(&sha(1), "gate", CheckStatus::Failed)))?;
    assert_eq!(
        proposal.landable(std::slice::from_ref(&gate)),
        Err(Error::CheckFailed(gate.clone()))
    );
    proposal.apply(Record::Check(check(&sha(1), "gate", CheckStatus::Passed)))?;
    assert_eq!(proposal.landable(std::slice::from_ref(&gate)), Ok(()));
    Ok(())
}

#[test]
fn a_check_nobody_required_does_not_block() -> Result<()> {
    let mut proposal = proposal();
    proposal.apply(Record::Check(check(&sha(1), "lint", CheckStatus::Failed)))?;
    assert_eq!(proposal.landable(&[]), Ok(()));
    Ok(())
}

#[test]
fn a_check_does_not_survive_a_new_revision() -> Result<()> {
    let mut proposal = proposal();
    let gate = required("gate");
    proposal.apply(Record::Check(check(&sha(1), "gate", CheckStatus::Passed)))?;
    proposal.add_revision(sha(2))?;
    assert_eq!(proposal.checks().len(), 0);
    assert_eq!(
        proposal.landable(std::slice::from_ref(&gate)),
        Err(Error::CheckMissing(gate))
    );
    Ok(())
}

// --- endings ---

#[test]
fn a_proposal_can_be_given_up_on_once() -> Result<()> {
    let mut proposal = proposal();
    proposal.abandon()?;
    assert_eq!(proposal.state(), State::Abandoned);
    assert_eq!(proposal.abandon(), Err(Error::NotOpen(State::Abandoned)));
    assert_eq!(proposal.land(&[]), Err(Error::NotOpen(State::Abandoned)));
    Ok(())
}

#[test]
fn reading_the_log_does_not_re_run_the_gate() -> Result<()> {
    let mut proposal = proposal();
    proposal.apply(Record::Comment(note(&sha(1), "this leaks")))?;
    proposal.mark_landed(Timestamp::from_unix(2_000));
    assert_eq!(proposal.state(), State::Landed);
    assert_eq!(proposal.ended_at(), Some(Timestamp::from_unix(2_000)));
    Ok(())
}

#[test]
fn a_proposal_that_was_given_up_on_reads_back_as_abandoned() {
    let mut proposal = proposal();
    proposal.mark_abandoned(Timestamp::from_unix(2_000));
    assert_eq!(proposal.state(), State::Abandoned);
}

#[test]
fn retargeting_moves_where_it_lands_and_never_the_base() -> Result<()> {
    let mut proposal = proposal();
    proposal.retarget(Branch::parse("release-2.1")?)?;
    assert_eq!(proposal.target().as_str(), "release-2.1");
    assert_eq!(proposal.base(), &sha(0));
    proposal.land(&[])?;
    assert_eq!(
        proposal.retarget(Branch::parse("main")?),
        Err(Error::NotOpen(State::Landed))
    );
    Ok(())
}

// --- state ---

#[test]
fn a_state_this_build_does_not_know_is_refused() -> Result<()> {
    for state in [State::Open, State::Landed, State::Abandoned] {
        assert_eq!(State::parse(state.as_str())?, state);
    }
    assert_eq!(
        State::parse("in review"),
        Err(Error::UnknownState("in review".to_owned()))
    );
    Ok(())
}

// --- what a chunk and a dispatch do not need ---

#[test]
fn chunks_dispatches_and_work_lines_are_kept_in_the_order_they_arrived() -> Result<()> {
    let mut proposal = proposal();
    proposal.fold(vec![
        Record::Chunk(Chunk::new("t", None, "b", "a", "d", None)?),
        Record::Work(work(&sha(1), Task::Apply, Phase::Started, None, 1_400)),
        Record::Dispatch(dispatch(&sha(1), 1_350)),
    ])?;
    assert_eq!(proposal.chunks().len(), 1);
    assert_eq!(proposal.work().len(), 1);
    assert!(proposal.dispatched() || proposal.activity().is_some());
    Ok(())
}

#[test]
fn a_chunk_anchored_on_the_wire_keeps_its_anchor_through_the_fold() -> Result<()> {
    let mut proposal = proposal();
    let chunk = Chunk::new("t", None, "b", "a", "d", None)?.anchored(Anchor::new(
        FilePath::parse("a.go")?,
        Span::new(Side::New, 1, 2)?,
    ));
    proposal.apply(Record::Chunk(chunk))?;
    assert!(proposal
        .chunks()
        .first()
        .is_some_and(|c| c.anchor().is_some()));
    Ok(())
}

#[test]
fn an_author_is_needed_before_a_record_exists() {
    assert_eq!(author("leandro").as_str(), "leandro");
}

// --- laws on concrete values ---

#[test]
fn applying_a_record_twice_is_applying_it_once() -> Result<()> {
    let mut once = proposal();
    let mut twice = proposal();
    let note = note(&sha(1), "this leaks");
    once.apply(Record::Comment(note.clone()))?;
    twice.apply(Record::Comment(note.clone()))?;
    twice.apply(Record::Comment(note))?;
    assert_eq!(once, twice);
    Ok(())
}

#[test]
fn a_new_revision_starts_with_nothing_open_and_no_checks() -> Result<()> {
    let mut proposal = proposal();
    proposal.apply(Record::Comment(note(&sha(1), "this leaks")))?;
    proposal.apply(Record::Check(check(&sha(1), "gate", CheckStatus::Passed)))?;
    proposal.add_revision(sha(2))?;
    assert!(proposal.open_comments().is_empty());
    assert!(proposal.checks().is_empty());
    assert_eq!(proposal.head().sha(), &sha(2));
    Ok(())
}

#[test]
fn the_same_chunk_work_line_and_dispatch_folded_twice_count_once() -> Result<()> {
    let mut proposal = proposal();
    let chunk = Chunk::new("t", None, "b", "a", "d", None)?;
    let line = work(&sha(1), Task::Apply, Phase::Started, None, 1_400);
    let asked = dispatch(&sha(1), 1_350);
    proposal.fold(vec![
        Record::Chunk(chunk.clone()),
        Record::Chunk(chunk),
        Record::Work(line.clone()),
        Record::Work(line),
        Record::Dispatch(asked.clone()),
        Record::Dispatch(asked),
    ])?;
    let once = proposal.clone();
    assert_eq!(proposal.chunks().len(), 1);
    assert_eq!(proposal.work().len(), 1);
    proposal.apply(Record::Dispatch(dispatch(&sha(1), 1_350)))?;
    assert_eq!(proposal, once);
    proposal.apply(Record::Dispatch(dispatch(&sha(1), 1_360)))?;
    assert_ne!(proposal, once);
    Ok(())
}
