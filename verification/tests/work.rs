use githerb::{activity, Author, Error, Field, Phase, Sha, Task, Timestamp, Work};

const HEAD: &str = "9f6c1e2a3b4d5e6f708192a3b4c5d6e7f8091a2b";

fn work(phase: Phase, note: Option<&str>, unix: i64) -> Result<Work, Error> {
    Work::new(
        Sha::parse(HEAD)?,
        Task::Rebase,
        phase,
        Author::parse("githerb-run")?,
        note,
        Timestamp::from_unix(unix),
    )
}

#[test]
fn a_task_and_a_phase_are_closed_sets() -> Result<(), Error> {
    assert_eq!(Task::parse(" apply ")?, Task::Apply);
    assert_eq!(Phase::parse("cleared")?, Phase::Cleared);
    assert_eq!(
        Task::parse("dream"),
        Err(Error::UnknownTask("dream".to_owned()))
    );
    assert_eq!(Task::parse(""), Err(Error::UnknownTask(String::new())));
    assert_eq!(
        Phase::parse("sleeping"),
        Err(Error::UnknownPhase("sleeping".to_owned()))
    );
    assert_eq!(Phase::parse(""), Err(Error::UnknownPhase(String::new())));
    Ok(())
}

#[test]
fn a_note_over_its_ceiling_is_refused() -> Result<(), Error> {
    let long = "x".repeat(141);
    assert_eq!(
        work(Phase::Failed, Some(&long), 10),
        Err(Error::TooLong {
            field: Field::Note,
            chars: 141,
            ceiling: 140
        })
    );
    assert_eq!(work(Phase::Failed, Some("  "), 10)?.note(), None);
    Ok(())
}

#[test]
fn an_empty_log_is_nobody_on_it() {
    assert_eq!(activity(&[]), None);
}

#[test]
fn a_started_record_reads_as_working() -> Result<(), Error> {
    let log = vec![work(Phase::Started, None, 10)?];
    let activity = activity(&log).ok_or(Error::NoAuthor)?;
    assert!(activity.working());
    assert_eq!(activity.task(), Task::Rebase);
    assert_eq!(activity.agent().as_str(), "githerb-run");
    Ok(())
}

#[test]
fn a_finished_record_reads_as_idle_and_both_lines_stay() -> Result<(), Error> {
    let log = vec![
        work(Phase::Started, None, 10)?,
        work(Phase::Finished, Some("done"), 20)?,
    ];
    let activity = activity(&log).ok_or(Error::NoAuthor)?;
    assert!(activity.idle());
    assert_eq!(log.len(), 2);
    Ok(())
}

#[test]
fn records_folded_out_of_order_still_fold_by_timestamp() -> Result<(), Error> {
    let log = vec![
        work(Phase::Failed, Some("conflicts in a.txt"), 20)?,
        work(Phase::Started, None, 10)?,
    ];
    let activity = activity(&log).ok_or(Error::NoAuthor)?;
    assert!(activity.failed());
    assert_eq!(activity.note(), Some("conflicts in a.txt"));
    Ok(())
}

#[test]
fn a_cleared_claim_reads_as_idle() -> Result<(), Error> {
    let log = vec![
        work(Phase::Started, None, 10)?,
        work(
            Phase::Cleared,
            Some("the runner that claimed this is gone"),
            20,
        )?,
    ];
    let activity = activity(&log).ok_or(Error::NoAuthor)?;
    assert!(activity.idle());
    assert!(!activity.failed());
    Ok(())
}

#[test]
fn of_two_lines_at_one_moment_the_later_in_the_log_wins() -> Result<(), Error> {
    let log = vec![
        work(Phase::Started, None, 10)?,
        work(Phase::Finished, None, 10)?,
    ];
    let activity = activity(&log).ok_or(Error::NoAuthor)?;
    assert!(activity.idle());
    Ok(())
}
