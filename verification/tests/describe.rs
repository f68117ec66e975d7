use githerb::usecase::describe::{
    anchor, chunk, optional, rationale, template, ChunkInput, RationaleInput,
};
use githerb::usecase::error::Error;
use githerb::{Author, Sha, Side, Timestamp};

type Result<T> = std::result::Result<T, Error>;

#[test]
fn a_span_defaults_to_one_line_on_the_new_side() -> Result<()> {
    let anchored = anchor("a.rs", "", 12, 0)?;

    assert_eq!(anchored.span().side(), Side::New);
    assert_eq!(anchored.span().start(), 12);
    assert_eq!(anchored.span().end(), 12);
    Ok(())
}

#[test]
fn a_chunk_with_no_file_stays_unanchored() -> Result<()> {
    let input = ChunkInput {
        title: "this gate".to_owned(),
        before: "it was not there".to_owned(),
        after: "it is".to_owned(),
        decision: "put it in".to_owned(),
        ..ChunkInput::default()
    };

    assert_eq!(chunk(&input)?.anchor(), None);
    Ok(())
}

#[test]
fn describe_a_decision_over_its_ceiling_is_refused() {
    let input = ChunkInput {
        title: "this gate".to_owned(),
        before: "it was not there".to_owned(),
        after: "it is".to_owned(),
        decision: "x".repeat(201),
        ..ChunkInput::default()
    };

    let err = chunk(&input).unwrap_err();

    assert!(
        matches!(err, Error::Review(githerb::Error::TooLong { .. })),
        "{err:?}"
    );
}

#[test]
fn a_field_left_blank_is_left_out() {
    assert_eq!(optional("  "), None);
    assert_eq!(optional(""), None);
    assert_eq!(optional(" x "), Some(" x "));
}

#[test]
fn an_explicit_side_and_range_are_kept() -> Result<()> {
    let anchored = anchor("a.rs", "old", 3, 9)?;
    assert_eq!(anchored.span().side(), Side::Old);
    assert_eq!((anchored.span().start(), anchored.span().end()), (3, 9));
    assert!(matches!(
        anchor("a.rs", "left", 3, 9),
        Err(Error::Review(githerb::Error::UnknownSide(_)))
    ));
    Ok(())
}

#[test]
fn an_explanation_is_left_on_the_head() -> Result<()> {
    let head = Sha::parse(&"a".repeat(40)).unwrap();
    let input = RationaleInput {
        file: "a.rs".to_owned(),
        start: 4,
        body: "the caller closes it".to_owned(),
        ..RationaleInput::default()
    };
    let explained = rationale(
        &input,
        &head,
        &Author::parse("ada").unwrap(),
        Timestamp::from_unix(0),
    )?;
    assert_eq!(explained.revision(), &head);
    assert_eq!(explained.anchor().to_string(), "a.rs:4 new");
    assert_eq!(explained.body(), "the caller closes it");
    Ok(())
}

#[test]
fn the_template_is_the_shape_a_description_takes() {
    assert!(template().starts_with("{\n  \"chunks\": ["));
    assert!(template().ends_with("the good intentions of whoever wrote it.\n"));
}
