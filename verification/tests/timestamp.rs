use githerb::timestamp::{ParseTimestampError, DAY};
use githerb::Timestamp;

#[test]
fn round_trips_the_wire_shape() -> Result<(), ParseTimestampError> {
    for text in [
        "2026-08-21T21:40:01Z",
        "1970-01-01T00:00:00Z",
        "2000-02-29T23:59:59Z",
        "2024-12-31T00:00:00Z",
    ] {
        assert_eq!(Timestamp::parse(text)?.to_string(), text);
    }
    Ok(())
}

#[test]
fn counts_from_the_epoch() -> Result<(), ParseTimestampError> {
    assert_eq!(Timestamp::parse("1970-01-02T00:00:01Z")?.unix(), DAY + 1);
    assert_eq!(
        Timestamp::from_unix(1_755_812_401).to_string(),
        "2025-08-21T21:40:01Z"
    );
    Ok(())
}

#[test]
fn orders_chronologically() -> Result<(), ParseTimestampError> {
    let earlier = Timestamp::parse("2026-08-21T21:40:01Z")?;
    let later = Timestamp::parse("2026-08-21T21:40:02Z")?;
    assert!(earlier < later);
    assert_eq!(later.seconds_since(earlier), 1);
    Ok(())
}

#[test]
fn refuses_anything_looser() {
    for text in [
        "2026-08-21T21:40:01",
        "2026-08-21 21:40:01Z",
        "2026-8-21T21:40:01Z",
        "2026-13-01T00:00:00Z",
        "2026-02-30T00:00:00Z",
        "2026-08-21T24:00:00Z",
        "",
        "2026-08-21T21:40:01+00:00",
    ] {
        assert!(Timestamp::parse(text).is_err(), "{text} should not parse");
    }
}

#[test]
fn the_edges_of_a_four_digit_year_read_back() -> Result<(), ParseTimestampError> {
    assert_eq!(
        Timestamp::from_unix(-62_167_219_200).to_string(),
        "0000-01-01T00:00:00Z"
    );
    assert_eq!(
        Timestamp::from_unix(253_402_300_799).to_string(),
        "9999-12-31T23:59:59Z"
    );
    for unix in [-62_167_219_200, -1, 0, 951_782_400, 253_402_300_799] {
        let moment = Timestamp::from_unix(unix);
        assert_eq!(Timestamp::parse(&moment.to_string())?, moment);
    }
    Ok(())
}

#[test]
fn a_refusal_carries_the_text_it_refused() {
    let refused = Timestamp::parse("yesterday").unwrap_err();
    assert!(refused.to_string().ends_with("yesterday"));
}
