use githerb::{Author, Check, CheckName, CheckStatus, Error, Sha, Timestamp};

const HEAD: &str = "9f6c1e2a3b4d5e6f708192a3b4c5d6e7f8091a2b";

#[test]
fn a_check_either_passed_or_failed() -> Result<(), Error> {
    assert_eq!(CheckStatus::parse("passed")?, CheckStatus::Passed);
    assert_eq!(CheckStatus::parse("failed")?, CheckStatus::Failed);
    for raw in ["", "flaky", "PASSED"] {
        assert_eq!(
            CheckStatus::parse(raw),
            Err(Error::UnknownStatus(raw.to_owned()))
        );
    }
    Ok(())
}

#[test]
fn a_check_with_no_name_is_refused() {
    assert_eq!(CheckName::parse("  "), Err(Error::NoCheckName));
}

#[test]
fn a_check_knows_whether_it_opened_the_gate() -> Result<(), Error> {
    let check = Check::new(
        CheckName::parse("suite")?,
        CheckStatus::Failed,
        Sha::parse(HEAD)?,
        41,
        Author::parse("githerb-ci@laptop")?,
        Timestamp::from_unix(1_787_335_445),
    );
    assert!(!check.passed());
    assert_eq!(check.seconds(), 41);
    Ok(())
}

#[test]
fn every_status_survives_a_round_trip_through_its_word() -> Result<(), Error> {
    for status in [CheckStatus::Passed, CheckStatus::Failed] {
        assert_eq!(CheckStatus::parse(status.as_str())?, status);
    }
    Ok(())
}
