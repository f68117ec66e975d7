use githerb::{Author, Error, RecordId, Resolution, Timestamp};

#[test]
fn a_resolution_points_at_the_note_it_answers() -> Result<(), Error> {
    let resolution = Resolution::new(
        RecordId::parse("9b052da286a4")?,
        Author::parse("ada-bot")?,
        Timestamp::from_unix(1_787_335_445),
    );
    assert_eq!(resolution.target().as_str(), "9b052da286a4");
    assert_eq!(resolution.id().as_str().len(), 12);
    Ok(())
}
