use githerb::usecase::error::Error;
use githerb::usecase::gate::{answered, exit_status, verdict};
use githerb::{Author, Check, CheckName, CheckStatus, Sha, Timestamp};

fn check(name: &str, status: CheckStatus) -> Check {
    Check::new(
        CheckName::parse(name).unwrap(),
        status,
        Sha::parse(&"a".repeat(40)).unwrap(),
        3,
        Author::parse("ci").unwrap(),
        Timestamp::from_unix(0),
    )
}

#[test]
fn an_exit_code_is_a_verdict_and_a_signal_is_none() {
    assert_eq!(exit_status(Some(0)), Some(CheckStatus::Passed));
    assert_eq!(exit_status(Some(2)), Some(CheckStatus::Failed));
    assert_eq!(exit_status(None), None);
}

#[test]
fn a_run_with_a_no_in_it_is_refused_with_the_count() {
    let results = vec![
        check("lint", CheckStatus::Failed),
        check("suite", CheckStatus::Passed),
        check("gate", CheckStatus::Failed),
    ];
    assert!(matches!(
        verdict(&results),
        Err(Error::CheckFailed { failed: 2, total: 3 })
    ));
    assert!(verdict(&results[1..2]).is_ok());
    assert!(verdict(&[]).is_ok());
}

#[test]
fn a_check_already_answered_on_the_head_is_not_asked_again() {
    let lint = check("lint", CheckStatus::Passed);
    let suite = check("suite", CheckStatus::Failed);
    let already = vec![&lint, &suite];
    assert_eq!(
        answered(&already, &CheckName::parse("suite").unwrap()),
        Some(&suite)
    );
    assert_eq!(answered(&already, &CheckName::parse("docs").unwrap()), None);
}
