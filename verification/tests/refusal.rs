use githerb::usecase::error::Error;
use githerb::{Branch, CheckName, ProposalId, Sha};

#[test]
fn a_refusal_names_the_thing_it_refused() {
    let branch = Branch::parse("main").unwrap();

    assert_eq!(
        Error::NotFastForward(branch).to_string(),
        "main moved since the proposal was cut"
    );
    assert_eq!(
        Error::CheckFailed {
            failed: 1,
            total: 3
        }
        .to_string(),
        "a check said no: 1 of 3 failed on the head revision"
    );
}

#[test]
fn a_log_line_says_which_log_and_which_object() {
    let err = Error::Log {
        log: "annotation log",
        object: Sha::parse(&"a".repeat(40)).unwrap(),
        source: githerb::Error::Version(2),
    };

    assert_eq!(
        err.to_string(),
        format!(
            "annotation log on {}: a version of the format this build does not speak: 2",
            "a".repeat(40)
        )
    );
}

#[test]
fn a_proposal_that_is_not_there_is_named() {
    assert_eq!(
        Error::NotFound(ProposalId::parse("gate").unwrap()).to_string(),
        "proposal gate: not found"
    );
    assert_eq!(
        Error::CheckKilled(CheckName::parse("suite").unwrap()).to_string(),
        "a check that was killed is not a check that failed: suite"
    );
}
