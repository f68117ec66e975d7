use githerb::{Author, Error, RecordId, Reply, Sha, Timestamp};

const HEAD: &str = "9f6c1e2a3b4d5e6f708192a3b4c5d6e7f8091a2b";

fn reply(body: &str) -> Result<Reply, Error> {
    Reply::new(
        RecordId::parse("9b052da286a4")?,
        Sha::parse(HEAD)?,
        body,
        Author::parse("ada-bot")?,
        Timestamp::from_unix(1_787_335_445),
    )
}

#[test]
fn an_answer_belongs_to_the_note_it_answers() -> Result<(), Error> {
    assert_eq!(reply("renamed it")?.target().as_str(), "9b052da286a4");
    Ok(())
}

#[test]
fn an_answer_that_says_nothing_is_refused() {
    assert_eq!(reply("   "), Err(Error::NoBody));
}

#[test]
fn an_answer_naming_no_note_is_refused() {
    assert_eq!(RecordId::parse(""), Err(Error::NoTarget));
}
