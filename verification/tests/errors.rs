use githerb::{Error, Field, State};

#[test]
fn a_refusal_names_the_value_it_refused() {
    assert_eq!(
        Error::BadBranch("my branch".to_owned()).to_string(),
        "not a branch name git would accept: my branch"
    );
    assert_eq!(
        Error::TooLong {
            field: Field::Decision,
            chars: 300,
            ceiling: 200
        }
        .to_string(),
        "longer than the ceiling, say it shorter: decision is 300 characters, the ceiling is 200"
    );
}

#[test]
fn every_refusal_with_numbers_writes_them_in_decimal() {
    assert_eq!(
        Error::EmptySpan { start: 7, end: -3 }.to_string(),
        "a span covers at least one line, ending at or after it starts: lines 7 to -3"
    );
    assert_eq!(
        Error::OpenComments {
            count: 2,
            revision: 12
        }
        .to_string(),
        "the head revision still has open comments: 2 on revision 12"
    );
    assert_eq!(
        Error::NotOpen(State::Landed).to_string(),
        "the proposal is no longer open: it is landed"
    );
    assert_eq!(
        Error::Version(99).to_string(),
        "a version of the format this build does not speak: 99"
    );
}
