use githerb::{Author, Branch, Error, Event, EventKind, ProposalId, Sha, Timestamp};

const BASE: &str = "00112233445566778899aabbccddeeff00112233";

#[test]
fn an_opened_event_carries_what_the_proposal_starts_as() -> Result<(), Error> {
    let event = Event::opened(
        ProposalId::parse("gate")?,
        " Land this gate ",
        Branch::parse("main")?,
        Sha::parse(BASE)?,
        Author::parse("leandro")?,
        Timestamp::from_unix(1_787_335_445),
    )?;
    assert_eq!(event.kind(), EventKind::Opened);
    assert_eq!(event.id().as_str(), "gate");
    match event {
        Event::Opened { title, .. } => assert_eq!(title, "Land this gate"),
        Event::Landed { .. } | Event::Abandoned { .. } | Event::Retargeted { .. } => {
            panic!("expected an opened event")
        }
    }
    Ok(())
}

#[test]
fn a_proposal_opened_with_no_title_is_refused() -> Result<(), Error> {
    assert_eq!(
        Event::opened(
            ProposalId::parse("gate")?,
            "  ",
            Branch::parse("main")?,
            Sha::parse(BASE)?,
            Author::parse("leandro")?,
            Timestamp::from_unix(0),
        ),
        Err(Error::NoTitle)
    );
    Ok(())
}

#[test]
fn every_event_kind_survives_a_round_trip_through_its_word() -> Result<(), Error> {
    for kind in [
        EventKind::Opened,
        EventKind::Landed,
        EventKind::Abandoned,
        EventKind::Retargeted,
    ] {
        assert_eq!(EventKind::parse(kind.as_str())?, kind);
    }
    assert_eq!(
        EventKind::parse("summoned"),
        Err(Error::UnknownKind("summoned".to_owned()))
    );
    Ok(())
}
