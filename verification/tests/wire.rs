use githerb::wire::event::EventLine;
use githerb::wire::line::{id_of_digest, Line, VERSION};
use githerb::{
    derive_id, Anchor, Author, Check, CheckName, CheckStatus, Comment, Error, Event, FilePath,
    ProposalId, Record, RecordId, Resolution, Sha, Side, Span, Timestamp,
};
use serde_json::Value;

type Result<T> = std::result::Result<T, Error>;

const HEAD: &str = "9f6c1e2a3b4d5e6f708192a3b4c5d6e7f8091a2b";
const COMMENT: &str = r#"{"v":1,"kind":"comment","id":"9b052da286a4","rev":"9f6c1e2a3b4d5e6f708192a3b4c5d6e7f8091a2b","file":"internal/app/land.go","side":"new","start":42,"end":47,"body":"this leaks the handle when init fails","author":"leandro","at":"2026-08-21T18:04:05Z"}"#;
const OPENED: &str = r#"{"v":1,"kind":"opened","id":"gate","title":"Land this gate","target":"main","base":"00112233445566778899aabbccddeeff00112233","author":"leandro","at":"2026-08-21T18:04:05Z"}"#;

/// The fields of a JSON object: what the program hands the library for each
/// line of a log. Anything that is not an object is not a line.
fn fields(raw: &str) -> Result<serde_json::Map<String, Value>> {
    match serde_json::from_str::<Value>(raw) {
        Ok(Value::Object(map)) => Ok(map),
        _ => Err(Error::Malformed(raw.to_owned())),
    }
}

fn text(map: &serde_json::Map<String, Value>, key: &str) -> String {
    map.get(key)
        .and_then(Value::as_str)
        .unwrap_or_default()
        .to_owned()
}

fn number(map: &serde_json::Map<String, Value>, key: &str) -> i64 {
    map.get(key).and_then(Value::as_i64).unwrap_or_default()
}

fn line_of(raw: &str) -> Result<Line> {
    let map = fields(raw)?;
    Ok(Line {
        v: number(&map, "v"),
        kind: text(&map, "kind"),
        id: text(&map, "id"),
        target: text(&map, "target"),
        rev: text(&map, "rev"),
        file: text(&map, "file"),
        side: text(&map, "side"),
        start: number(&map, "start"),
        end: number(&map, "end"),
        body: text(&map, "body"),
        title: text(&map, "title"),
        surface: text(&map, "surface"),
        before: text(&map, "before"),
        after: text(&map, "after"),
        decision: text(&map, "decision"),
        rejected: text(&map, "rejected"),
        task: text(&map, "task"),
        phase: text(&map, "phase"),
        name: text(&map, "name"),
        status: text(&map, "status"),
        seconds: number(&map, "seconds"),
        author: text(&map, "author"),
        at: text(&map, "at"),
    })
}

fn event_line_of(raw: &str) -> Result<EventLine> {
    let map = fields(raw)?;
    Ok(EventLine {
        v: number(&map, "v"),
        kind: text(&map, "kind"),
        id: text(&map, "id"),
        title: text(&map, "title"),
        target: text(&map, "target"),
        base: text(&map, "base"),
        author: text(&map, "author"),
        at: text(&map, "at"),
    })
}

fn record(raw: &str) -> Result<Record> {
    Record::from_line(&line_of(raw)?)
}

fn event(raw: &str) -> Result<Event> {
    Event::from_line(&event_line_of(raw)?)
}

fn comment() -> Result<Record> {
    Ok(Record::Comment(Comment::new(
        Sha::parse(HEAD)?,
        Anchor::new(
            FilePath::parse("internal/app/land.go")?,
            Span::new(Side::New, 42, 47)?,
        ),
        "this leaks the handle when init fails",
        Author::parse("leandro")?,
        Timestamp::parse("2026-08-21T18:04:05Z")
            .map_err(|_| Error::Malformed("fixture".to_owned()))?,
    )?))
}

// --- annotations ---

#[test]
fn a_record_is_one_line_and_only_one() -> Result<()> {
    let line = comment()?.to_line();
    assert_eq!(line.lines().count(), 1);
    assert_eq!(line, COMMENT);
    Ok(())
}

#[test]
fn a_record_read_back_is_the_record_that_was_written() -> Result<()> {
    assert_eq!(record(&comment()?.to_line())?, comment()?);
    assert_eq!(Record::from_line(&comment()?.line())?, comment()?);
    Ok(())
}

#[test]
fn a_resolution_and_a_check_read_back_as_they_were_written() -> Result<()> {
    let at = Timestamp::from_unix(1_787_335_445);
    let resolution = Record::Resolve(Resolution::new(
        RecordId::parse("9b052da286a4")?,
        Author::parse("ada-bot")?,
        at,
    ));
    let check = Record::Check(Check::new(
        CheckName::parse("suite")?,
        CheckStatus::Passed,
        Sha::parse(HEAD)?,
        41,
        Author::parse("githerb-ci@laptop")?,
        at,
    ));
    assert_eq!(record(&resolution.to_line())?, resolution);
    assert_eq!(record(&check.to_line())?, check);
    Ok(())
}

#[test]
fn a_line_that_is_not_a_record_is_refused() {
    for raw in ["", "not json", "{", "null", "42"] {
        assert_eq!(record(raw), Err(Error::Malformed(raw.to_owned())));
    }
}

#[test]
fn a_version_this_build_does_not_speak_is_refused_and_never_skipped() {
    assert_eq!(
        record(r#"{"v":99,"kind":"comment","id":"","author":"a","at":"2026-08-21T18:04:05Z"}"#),
        Err(Error::Version(99))
    );
    assert_eq!(record("{}"), Err(Error::Version(0)));
}

#[test]
fn a_kind_this_build_does_not_know_is_refused_by_name() {
    assert_eq!(
        record(r#"{"v":1,"kind":"telepathy","id":"","author":"a","at":"2026-08-21T18:04:05Z"}"#),
        Err(Error::UnknownKind("telepathy".to_owned()))
    );
    assert_eq!(
        record(r#"{"v":1,"id":"","author":"a","at":"2026-08-21T18:04:05Z"}"#),
        Err(Error::UnknownKind(String::new()))
    );
}

#[test]
fn a_bad_timestamp_is_not_a_record() {
    assert_eq!(
        record(r#"{"v":1,"kind":"comment","id":"","author":"a","at":"yesterday"}"#),
        Err(Error::Malformed("timestamp yesterday".to_owned()))
    );
}

#[test]
fn a_comment_missing_its_span_is_refused() {
    assert_eq!(
        record(
            r#"{"v":1,"kind":"comment","id":"","rev":"9f6c1e2a3b4d5e6f708192a3b4c5d6e7f8091a2b","file":"a.go","body":"x","author":"a","at":"2026-08-21T18:04:05Z"}"#
        ),
        Err(Error::UnknownSide(String::new()))
    );
}

#[test]
fn a_note_on_a_line_that_cannot_exist_is_refused() {
    assert_eq!(
        record(
            r#"{"v":1,"kind":"comment","id":"","rev":"9f6c1e2a3b4d5e6f708192a3b4c5d6e7f8091a2b","file":"a.go","side":"new","start":-5,"end":3,"body":"x","author":"a","at":"2026-08-21T18:04:05Z"}"#
        ),
        Err(Error::EmptySpan { start: -5, end: 3 })
    );
    assert_eq!(
        record(
            r#"{"v":1,"kind":"comment","id":"","rev":"9f6c1e2a3b4d5e6f708192a3b4c5d6e7f8091a2b","file":"a.go","side":"new","start":9,"end":4,"body":"x","author":"a","at":"2026-08-21T18:04:05Z"}"#
        ),
        Err(Error::EmptySpan { start: 9, end: 4 })
    );
}

#[test]
fn a_resolution_with_no_target_is_refused() {
    assert_eq!(
        record(r#"{"v":1,"kind":"resolve","id":"","author":"ada-bot","at":"2026-08-21T18:04:05Z"}"#),
        Err(Error::NoTarget)
    );
}

#[test]
fn a_check_that_ran_for_negative_seconds_is_not_a_record() {
    assert_eq!(
        record(
            r#"{"v":1,"kind":"check","id":"","rev":"9f6c1e2a3b4d5e6f708192a3b4c5d6e7f8091a2b","name":"suite","status":"passed","seconds":-3,"author":"a","at":"2026-08-21T18:04:05Z"}"#
        ),
        Err(Error::Malformed("-3 seconds".to_owned()))
    );
}

#[test]
fn an_unanchored_chunk_stays_unanchored_through_the_wire() -> Result<()> {
    let line = r#"{"v":1,"kind":"chunk","id":"","title":"t","before":"b","after":"a","decision":"d","author":"","at":""}"#;
    let Record::Chunk(chunk) = record(line)? else {
        panic!("expected a chunk")
    };
    assert_eq!(chunk.anchor(), None);
    Ok(())
}

// --- events ---

#[test]
fn the_opened_line_is_the_line_it_has_always_been() -> Result<()> {
    assert_eq!(event(OPENED)?.to_line(), OPENED);
    Ok(())
}

#[test]
fn an_opening_and_an_ending_read_back_as_they_were_written() -> Result<()> {
    let opened = event(OPENED)?;
    let landed = Event::landed(
        ProposalId::parse("gate")?,
        Author::parse("leandro")?,
        Timestamp::from_unix(1_787_335_445),
    );
    assert_eq!(event(&opened.to_line())?, opened);
    assert_eq!(event(&landed.to_line())?, landed);
    assert_eq!(Event::from_line(&landed.line())?, landed);
    Ok(())
}

#[test]
fn a_line_that_is_not_an_event_is_refused() {
    for raw in ["", "{"] {
        assert_eq!(event(raw), Err(Error::Malformed(raw.to_owned())));
    }
    assert_eq!(event("{}"), Err(Error::Version(0)));
    assert_eq!(
        event(r#"{"v":9,"kind":"landed","id":"gate","author":"a","at":"2026-08-21T18:04:05Z"}"#),
        Err(Error::Version(9))
    );
    assert_eq!(
        event(r#"{"v":1,"kind":"summoned","id":"gate","author":"a","at":"2026-08-21T18:04:05Z"}"#),
        Err(Error::UnknownKind("summoned".to_owned()))
    );
}

#[test]
fn an_opening_cut_from_nowhere_is_refused() {
    assert_eq!(
        event(
            r#"{"v":1,"kind":"opened","id":"gate","title":"t","target":"main","base":"nope","author":"a","at":"2026-08-21T18:04:05Z"}"#
        ),
        Err(Error::NoRevision("nope".to_owned()))
    );
}

#[test]
fn an_ending_nobody_signed_is_refused() {
    assert_eq!(
        event(r#"{"v":1,"kind":"landed","id":"gate","author":"  ","at":"2026-08-21T18:04:05Z"}"#),
        Err(Error::NoAuthor)
    );
}

// --- the line itself ---

#[test]
fn an_identity_is_the_first_twelve_hex_characters_of_the_digest() {
    let line = r#"{"v":1,"kind":"resolve","id":"","target":"9b052da286a4","author":"ada-bot","at":"2026-08-21T18:04:05Z"}"#;
    assert_eq!(derive_id(line).as_str(), "bf96eb3ec87c");
}

#[test]
fn a_line_omits_what_a_kind_does_not_carry() {
    let line = Line {
        v: VERSION,
        kind: "dispatch".to_owned(),
        id: String::new(),
        rev: "9f6c1e2a3b4d5e6f708192a3b4c5d6e7f8091a2b".to_owned(),
        author: "leandro".to_owned(),
        at: "2026-08-21T18:04:05Z".to_owned(),
        ..Line::default()
    };
    assert_eq!(
        line.render(),
        r#"{"v":1,"kind":"dispatch","id":"","rev":"9f6c1e2a3b4d5e6f708192a3b4c5d6e7f8091a2b","author":"leandro","at":"2026-08-21T18:04:05Z"}"#
    );
}

#[test]
fn a_body_with_quotes_and_a_newline_is_escaped_on_its_one_line() -> Result<()> {
    let record = Record::Comment(Comment::new(
        Sha::parse(HEAD)?,
        Anchor::new(FilePath::parse("a.go")?, Span::new(Side::Old, 1, 1)?),
        "say \"why\"\\ now",
        Author::parse("ada")?,
        Timestamp::from_unix(0),
    )?);
    let line = record.to_line();
    assert!(line.contains(r#""body":"say \"why\"\\ now""#), "{line}");
    assert_eq!(self::record(&line)?, record);
    Ok(())
}

#[test]
fn a_record_keeps_the_id_it_was_written_with() -> Result<()> {
    let foreign = r#"{"v":1,"kind":"comment","id":"ffffffffffff","rev":"9f6c1e2a3b4d5e6f708192a3b4c5d6e7f8091a2b","file":"a.txt","side":"new","start":1,"end":1,"body":"if a < b","author":"go","at":"2026-08-21T18:04:05Z"}"#;
    let record = record(foreign)?;
    assert_eq!(
        record.id().map(|id| id.as_str().to_owned()),
        Some("ffffffffffff".to_owned())
    );
    assert_eq!(record.to_line(), foreign);
    Ok(())
}

#[test]
fn a_body_that_spans_lines_is_still_one_line_on_disk() -> Result<()> {
    let record = Record::Comment(Comment::new(
        Sha::parse(HEAD)?,
        Anchor::new(FilePath::parse("a.go")?, Span::new(Side::New, 2, 3)?),
        "first\nsecond\r\n\u{1}third\ttab",
        Author::parse("ada")?,
        Timestamp::from_unix(0),
    )?);
    let line = record.to_line();
    assert_eq!(line.lines().count(), 1);
    assert!(
        line.contains(r#""body":"first\nsecond\r\n\u0001third\ttab""#),
        "{line}"
    );
    assert_eq!(self::record(&line)?, record);
    Ok(())
}

#[test]
fn an_identity_is_the_first_six_bytes_of_a_digest_in_hex() {
    assert_eq!(
        id_of_digest(&[0xab, 0xcd, 0x01, 0x02, 0x03, 0x04, 0x05, 0x06]).as_str(),
        "abcd01020304"
    );
}

#[test]
fn every_kind_built_by_its_constructor_reads_back_from_its_line() -> Result<()> {
    let at = Timestamp::from_unix(1_787_335_445);
    let head = Sha::parse(HEAD)?;
    let ada = Author::parse("ada")?;
    let place = Anchor::new(FilePath::parse("a.go")?, Span::new(Side::New, 1, 2)?);
    let note = Comment::new(head.clone(), place.clone(), "why", ada.clone(), at)?;
    let records = vec![
        Record::Comment(note.clone()),
        Record::Rationale(githerb::Rationale::new(
            head.clone(),
            place.clone(),
            "because",
            ada.clone(),
            at,
        )?),
        Record::Reply(githerb::Reply::new(
            note.id().clone(),
            head.clone(),
            "done",
            ada.clone(),
            at,
        )?),
        Record::Resolve(Resolution::new(note.id().clone(), ada.clone(), at)),
        Record::Check(Check::new(
            CheckName::parse("suite")?,
            CheckStatus::Failed,
            head.clone(),
            7,
            ada.clone(),
            at,
        )),
        Record::Chunk(githerb::Chunk::new("t", Some("s"), "b", "a", "d", Some("r"))?.anchored(place)),
        Record::Work(githerb::Work::new(
            head.clone(),
            githerb::Task::Rebase,
            githerb::Phase::Failed,
            ada.clone(),
            Some("conflict"),
            at,
        )?),
        Record::Dispatch(githerb::Dispatch::new(head, ada, at)),
    ];
    for r in records {
        assert_eq!(Record::from_line(&r.line())?, r);
        assert_eq!(record(&r.to_line())?, r);
    }
    Ok(())
}
