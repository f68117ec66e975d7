use githerb::{Anchor, Author, Comment, Error, FilePath, Rationale, Sha, Side, Span, Timestamp};

const HEAD: &str = "9f6c1e2a3b4d5e6f708192a3b4c5d6e7f8091a2b";

fn parts() -> Result<(Sha, Anchor, Author, Timestamp), Error> {
    Ok((
        Sha::parse(HEAD)?,
        Anchor::new(
            FilePath::parse("internal/app/land.go")?,
            Span::new(Side::New, 42, 47)?,
        ),
        Author::parse("leandro")?,
        Timestamp::from_unix(1_787_335_445),
    ))
}

#[test]
fn a_rationale_is_not_the_note_that_says_the_same_words() -> Result<(), Error> {
    let (revision, anchor, author, at) = parts()?;
    let explained = Rationale::new(
        revision.clone(),
        anchor.clone(),
        "because",
        author.clone(),
        at,
    )?;
    let asked = Comment::new(revision, anchor, "because", author, at)?;
    assert_ne!(explained.id(), asked.id());
    Ok(())
}

#[test]
fn a_rationale_that_says_nothing_is_refused() -> Result<(), Error> {
    let (revision, anchor, author, at) = parts()?;
    assert_eq!(
        Rationale::new(revision, anchor, " ", author, at),
        Err(Error::NoBody)
    );
    Ok(())
}
