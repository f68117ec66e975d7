use githerb::{
    Anchor, Author, Branch, Check, CheckName, CheckStatus, CheckSummary, Comment, Dispatch, Error,
    FilePath, Phase, Proposal, ProposalId, Rationale, Record, Sha, Side, Span, Task, Timestamp,
    Work,
};

type Result<T> = std::result::Result<T, Error>;

fn sha(seed: u8) -> Sha {
    Sha::parse(&format!("{seed:02x}").repeat(20)).unwrap()
}

fn author(name: &str) -> Author {
    Author::parse(name).unwrap()
}

fn at(unix: i64) -> Timestamp {
    Timestamp::from_unix(unix)
}

fn anchor() -> Anchor {
    Anchor::new(
        FilePath::parse("internal/app/land.go").unwrap(),
        Span::new(Side::New, 42, 47).unwrap(),
    )
}

fn proposal() -> Proposal {
    Proposal::open(
        ProposalId::parse("land-the-gate").unwrap(),
        "Land this gate",
        Branch::parse("main").unwrap(),
        sha(0),
        sha(1),
        at(1_000),
    )
    .unwrap()
}

fn note(revision: &Sha, body: &str) -> Comment {
    Comment::new(revision.clone(), anchor(), body, author("leandro"), at(1_100)).unwrap()
}

fn explanation(revision: &Sha, body: &str) -> Rationale {
    Rationale::new(revision.clone(), anchor(), body, author("leandro"), at(1_100)).unwrap()
}

fn check(revision: &Sha, name: &str, status: CheckStatus) -> Check {
    Check::new(
        CheckName::parse(name).unwrap(),
        status,
        revision.clone(),
        41,
        author("githerb-ci@laptop"),
        at(1_300),
    )
}

fn work(revision: &Sha, task: Task, phase: Phase, note: Option<&str>, unix: i64) -> Work {
    Work::new(revision.clone(), task, phase, author("githerb-run"), note, at(unix)).unwrap()
}

fn dispatch(revision: &Sha, unix: i64) -> Dispatch {
    Dispatch::new(revision.clone(), author("leandro"), at(unix))
}

// --- checks ---

#[test]
fn the_check_column_says_the_shortest_true_thing() -> Result<()> {
    let mut proposal = proposal();
    assert_eq!(proposal.check_summary(), CheckSummary::NoChecks);
    assert_eq!(proposal.check_summary().to_string(), "no checks");

    proposal.apply(Record::Check(check(&sha(1), "gate", CheckStatus::Passed)))?;
    assert_eq!(proposal.check_summary(), CheckSummary::Passing);
    assert_eq!(proposal.check_summary().to_string(), "passing");

    proposal.apply(Record::Check(check(&sha(1), "lint", CheckStatus::Failed)))?;
    assert_eq!(proposal.check_summary(), CheckSummary::Failed(1));
    assert_eq!(proposal.check_summary().to_string(), "1 failed");
    assert_eq!(proposal.failing().len(), 1);
    Ok(())
}

#[test]
fn the_checks_come_back_in_the_same_order_every_time() -> Result<()> {
    let mut proposal = proposal();
    for name in ["suite", "gate", "lint"] {
        proposal.apply(Record::Check(check(&sha(1), name, CheckStatus::Passed)))?;
    }
    let names = |proposal: &Proposal| -> Vec<String> {
        proposal
            .checks()
            .iter()
            .map(|check| check.name().as_str().to_owned())
            .collect()
    };
    assert_eq!(names(&proposal), vec!["gate", "lint", "suite"]);
    assert_eq!(names(&proposal), names(&proposal));
    Ok(())
}

#[test]
fn the_last_result_under_a_name_is_the_one_that_counts() -> Result<()> {
    let mut proposal = proposal();
    proposal.apply(Record::Check(check(&sha(1), "gate", CheckStatus::Failed)))?;
    proposal.apply(Record::Check(check(&sha(1), "gate", CheckStatus::Passed)))?;
    assert_eq!(proposal.checks().len(), 1);
    assert_eq!(proposal.check_summary(), CheckSummary::Passing);
    Ok(())
}

// --- rationale ---

#[test]
fn an_explanation_left_on_an_older_revision_is_not_read_on_the_head() -> Result<()> {
    let mut proposal = proposal();
    proposal.apply(Record::Rationale(explanation(&sha(1), "the caller closes it")))?;
    assert_eq!(proposal.rationale().len(), 1);
    proposal.add_revision(sha(2))?;
    assert_eq!(proposal.rationale().len(), 0);
    Ok(())
}

// --- activity ---

#[test]
fn a_started_record_makes_the_proposal_read_as_working() -> Result<()> {
    let mut proposal = proposal();
    proposal.apply(Record::Work(work(&sha(1), Task::Apply, Phase::Started, None, 1_400)))?;
    let activity = proposal.activity().ok_or(Error::NoAuthor)?;
    assert!(activity.working());
    assert_eq!(activity.task(), Task::Apply);
    assert_eq!(activity.agent().as_str(), "githerb-run");
    assert_eq!(proposal.agent_line(), "githerb-run is apply since 00:23");
    Ok(())
}

#[test]
fn a_failure_says_what_failed_and_why() -> Result<()> {
    let mut proposal = proposal();
    proposal.apply(Record::Work(work(
        &sha(1),
        Task::Rebase,
        Phase::Failed,
        Some("conflicts in a.txt"),
        1_400,
    )))?;
    assert_eq!(proposal.agent_line(), "rebase failed: conflicts in a.txt");
    Ok(())
}

#[test]
fn a_failure_on_an_older_revision_does_not_follow_the_proposal_forward() -> Result<()> {
    let mut proposal = proposal();
    proposal.apply(Record::Work(work(
        &sha(1),
        Task::Rebase,
        Phase::Failed,
        Some("conflicts in a.txt"),
        1_400,
    )))?;
    proposal.add_revision(sha(2))?;
    assert_eq!(proposal.activity(), None);
    assert_eq!(proposal.agent_line(), "no agent on it");
    assert_eq!(proposal.work().len(), 1);
    Ok(())
}

// --- dispatch ---

#[test]
fn a_dispatch_makes_the_proposal_read_as_waiting() -> Result<()> {
    let mut proposal = proposal();
    proposal.apply(Record::Dispatch(dispatch(&sha(1), 1_300)))?;
    assert!(proposal.dispatched());
    assert_eq!(proposal.agent_line(), "waiting for an agent");
    Ok(())
}

#[test]
fn a_started_record_after_a_dispatch_answers_it() -> Result<()> {
    let mut proposal = proposal();
    proposal.apply(Record::Dispatch(dispatch(&sha(1), 1_300)))?;
    proposal.apply(Record::Work(work(&sha(1), Task::Apply, Phase::Started, None, 1_400)))?;
    assert!(!proposal.dispatched());
    Ok(())
}

#[test]
fn a_claim_handed_back_leaves_the_dispatch_standing() -> Result<()> {
    let mut proposal = proposal();
    proposal.apply(Record::Dispatch(dispatch(&sha(1), 1_300)))?;
    proposal.apply(Record::Work(work(&sha(1), Task::Apply, Phase::Started, None, 1_400)))?;
    proposal.apply(Record::Work(work(
        &sha(1),
        Task::Apply,
        Phase::Cleared,
        Some("the runner that claimed this is gone"),
        1_500,
    )))?;
    let activity = proposal.activity().ok_or(Error::NoAuthor)?;
    assert!(activity.idle());
    assert!(proposal.dispatched());
    assert_eq!(proposal.agent_line(), "waiting for an agent");
    Ok(())
}

#[test]
fn a_dispatch_on_an_older_revision_does_not_make_the_head_wait() -> Result<()> {
    let mut proposal = proposal();
    proposal.apply(Record::Dispatch(dispatch(&sha(1), 1_300)))?;
    proposal.add_revision(sha(2))?;
    assert!(!proposal.dispatched());
    assert_eq!(proposal.agent_line(), "no agent on it");
    Ok(())
}

#[test]
fn nobody_is_on_a_proposal_nobody_touched() {
    assert_eq!(proposal().agent_line(), "no agent on it");
    assert_eq!(proposal().activity(), None);
}

// --- the notes themselves ---

#[test]
fn the_conversation_is_every_unresolved_note_in_log_order() -> Result<()> {
    let mut proposal = proposal();
    proposal.apply(Record::Comment(note(&sha(1), "first")))?;
    proposal.apply(Record::Comment(note(&sha(1), "second")))?;
    let bodies: Vec<&str> = proposal
        .conversation()
        .iter()
        .map(|comment| comment.body())
        .collect();
    assert_eq!(bodies, vec!["first", "second"]);
    assert_eq!(proposal.comments().len(), 2);
    Ok(())
}
