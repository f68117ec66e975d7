use githerb::{Anchor, Author, Comment, Error, FilePath, Sha, Side, Span, Timestamp};

const HEAD: &str = "9f6c1e2a3b4d5e6f708192a3b4c5d6e7f8091a2b";

fn anchor() -> Result<Anchor, Error> {
    Ok(Anchor::new(
        FilePath::parse("internal/app/land.go")?,
        Span::new(Side::New, 42, 47)?,
    ))
}

fn comment(body: &str) -> Result<Comment, Error> {
    Comment::new(
        Sha::parse(HEAD)?,
        anchor()?,
        body,
        Author::parse("leandro")?,
        Timestamp::from_unix(1_787_335_445),
    )
}

#[test]
fn the_same_note_written_twice_has_the_same_identity() -> Result<(), Error> {
    assert_eq!(comment("this leaks")?.id(), comment("this leaks")?.id());
    Ok(())
}

#[test]
fn a_different_note_has_a_different_identity() -> Result<(), Error> {
    assert_ne!(comment("this leaks")?.id(), comment("this does not")?.id());
    Ok(())
}

#[test]
fn a_note_that_says_nothing_is_refused() {
    assert_eq!(comment("  \t "), Err(Error::NoBody));
}

#[test]
fn a_body_is_trimmed_before_it_is_hashed() -> Result<(), Error> {
    assert_eq!(comment("  this leaks  ")?.id(), comment("this leaks")?.id());
    assert_eq!(comment("  this leaks  ")?.body(), "this leaks");
    Ok(())
}
