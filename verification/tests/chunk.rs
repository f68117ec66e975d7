use githerb::{Anchor, Chunk, Error, Field, FilePath, Side, Span};

fn chunk() -> Result<Chunk, Error> {
    Chunk::new(
        "Checks appear where you already look",
        Some("cmd/githerb"),
        "you had to open the browser",
        "list carries a column",
        "one column in list",
        Some("a separate checks command"),
    )
}

#[test]
fn a_chunk_carries_before_after_and_the_decision() -> Result<(), Error> {
    let chunk = chunk()?;
    assert_eq!(chunk.before(), "you had to open the browser");
    assert_eq!(chunk.after(), "list carries a column");
    assert_eq!(chunk.decision(), "one column in list");
    assert_eq!(chunk.anchor(), None);
    Ok(())
}

#[test]
fn a_chunk_is_unanchored_until_it_is_told_where_it_lives() -> Result<(), Error> {
    let anchor = Anchor::new(
        FilePath::parse("cmd/githerb/commands.go")?,
        Span::new(Side::New, 42, 47)?,
    );
    let chunk = chunk()?.anchored(anchor.clone());
    assert_eq!(chunk.anchor(), Some(&anchor));
    Ok(())
}

#[test]
fn the_alternative_not_taken_is_optional() -> Result<(), Error> {
    let chunk = Chunk::new("t", None, "b", "a", "d", None)?;
    assert_eq!(chunk.rejected(), None);
    assert_eq!(chunk.surface(), None);
    assert_eq!(
        Chunk::new("t", Some("  "), "b", "a", "d", Some(""))?.rejected(),
        None
    );
    Ok(())
}

#[test]
fn a_title_over_its_ceiling_is_refused() {
    let long = "x".repeat(300);
    assert_eq!(
        Chunk::new(&long, None, "b", "a", "d", None),
        Err(Error::TooLong {
            field: Field::Title,
            chars: 300,
            ceiling: 80
        })
    );
}

#[test]
fn chunk_a_decision_over_its_ceiling_is_refused() {
    let long = "x".repeat(300);
    assert_eq!(
        Chunk::new("t", None, "b", "a", &long, None),
        Err(Error::TooLong {
            field: Field::Decision,
            chars: 300,
            ceiling: 200
        })
    );
}

#[test]
fn a_decision_that_is_two_lines_is_refused() {
    assert_eq!(
        Chunk::new("t", None, "b", "a", "one\ntwo", None),
        Err(Error::NotOneLine(Field::Decision))
    );
}

#[test]
fn a_ceiling_counts_characters_and_not_bytes() -> Result<(), Error> {
    let eighty = "é".repeat(80);
    assert_eq!(
        Chunk::new(&eighty, None, "b", "a", "d", None)?.title(),
        eighty
    );
    Ok(())
}

#[test]
fn a_chunk_missing_what_it_is_for_is_refused() {
    assert_eq!(
        Chunk::new("", None, "b", "a", "d", None),
        Err(Error::NoTitle)
    );
    assert_eq!(
        Chunk::new("t", None, "", "a", "d", None),
        Err(Error::NoBeforeAfter)
    );
    assert_eq!(
        Chunk::new("t", None, "b", "", "d", None),
        Err(Error::NoBeforeAfter)
    );
    assert_eq!(
        Chunk::new("t", None, "b", "a", "", None),
        Err(Error::NoDecision)
    );
}

#[test]
fn a_field_at_its_ceiling_is_kept_and_one_past_it_is_not() -> Result<(), Error> {
    let at_ceiling = "x".repeat(80);
    assert_eq!(Chunk::new(&at_ceiling, None, "b", "a", "d", None)?.title(), at_ceiling);
    let past = "x".repeat(81);
    assert_eq!(
        Chunk::new(&past, None, "b", "a", "d", None),
        Err(Error::TooLong {
            field: Field::Title,
            chars: 81,
            ceiling: 80
        })
    );
    Ok(())
}
