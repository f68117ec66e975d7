use githerb::{Anchor, Error, FilePath, Side, Span};

#[test]
fn a_side_is_the_old_one_or_the_new_one() -> Result<(), Error> {
    assert_eq!(Side::parse("old")?, Side::Old);
    assert_eq!(Side::parse("new")?, Side::New);
    Ok(())
}

#[test]
fn a_span_on_no_known_side_is_refused() {
    for raw in ["", "left", "NEW", " new"] {
        assert_eq!(Side::parse(raw), Err(Error::UnknownSide(raw.to_owned())));
    }
}

#[test]
fn a_span_covers_at_least_one_line() -> Result<(), Error> {
    let span = Span::new(Side::New, 42, 47)?;
    assert_eq!((span.start(), span.end(), span.lines()), (42, 47, 6));
    assert_eq!(Span::new(Side::New, 42, 42)?.lines(), 1);
    Ok(())
}

#[test]
fn a_span_that_starts_at_zero_or_ends_early_is_refused() {
    assert_eq!(
        Span::new(Side::New, 0, 3),
        Err(Error::EmptySpan { start: 0, end: 3 })
    );
    assert_eq!(
        Span::new(Side::New, 9, 4),
        Err(Error::EmptySpan { start: 9, end: 4 })
    );
}

#[test]
fn an_anchor_reads_as_file_lines_and_side() -> Result<(), Error> {
    let file = FilePath::parse("internal/app/land.go")?;
    let many = Anchor::new(file.clone(), Span::new(Side::New, 42, 47)?);
    let one = Anchor::new(file, Span::new(Side::Old, 42, 42)?);
    assert_eq!(many.to_string(), "internal/app/land.go:42-47 new");
    assert_eq!(one.to_string(), "internal/app/land.go:42 old");
    Ok(())
}

#[test]
fn every_side_survives_a_round_trip_through_its_word() -> Result<(), Error> {
    for side in [Side::Old, Side::New] {
        assert_eq!(Side::parse(side.as_str())?, side);
    }
    Ok(())
}
