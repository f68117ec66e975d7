use githerb::{Error, Kind};

#[test]
fn every_kind_survives_a_round_trip_through_its_word() -> Result<(), Error> {
    for kind in [
        Kind::Comment,
        Kind::Resolve,
        Kind::Check,
        Kind::Chunk,
        Kind::Rationale,
        Kind::Work,
        Kind::Dispatch,
        Kind::Reply,
    ] {
        assert_eq!(Kind::parse(kind.as_str())?, kind);
    }
    Ok(())
}

#[test]
fn a_kind_from_the_future_is_refused_by_name() {
    assert_eq!(
        Kind::parse("telepathy"),
        Err(Error::UnknownKind("telepathy".to_owned()))
    );
}
