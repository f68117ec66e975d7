use githerb::usecase::error::Error;
use githerb::usecase::snapshot::{
    note_lines, EventNote, RecordNote, Snapshot, ANNOTATION_LOG, PROPOSAL_REFS,
};
use githerb::wire::event::EventLine;
use githerb::wire::line::Line;

type Result<T> = std::result::Result<T, Error>;

fn sha(letter: char) -> String {
    std::iter::repeat_n(letter, 40).collect()
}

fn refname(id: &str, number: u32) -> String {
    format!("{PROPOSAL_REFS}/{id}/{number}")
}

fn opened_line(id: &str, at: &str) -> EventLine {
    EventLine {
        v: 1,
        kind: "opened".to_owned(),
        id: id.to_owned(),
        title: "a title".to_owned(),
        target: "main".to_owned(),
        base: sha('b'),
        author: "ada".to_owned(),
        at: at.to_owned(),
    }
}

fn event_note(object: String, lines: Vec<EventLine>) -> EventNote {
    EventNote {
        object,
        lines: lines.into_iter().map(Ok).collect(),
    }
}

fn snapshot_of(refs: &[(String, String)], events: &[EventNote]) -> Result<Snapshot> {
    annotated(refs, events, &[])
}

fn annotated(
    refs: &[(String, String)],
    events: &[EventNote],
    records: &[RecordNote],
) -> Result<Snapshot> {
    Snapshot::assemble(refs, events, records, "fp".to_owned())
}

#[test]
fn a_ref_whose_basename_is_not_a_number_is_not_a_revision() {
    let refs = vec![(refname("gate", 1).replace("/1", "/one"), sha('a'))];

    let err = snapshot_of(&refs, &[]).unwrap_err();

    assert!(matches!(err, Error::NotARevision(_)), "{err:?}");
}

#[test]
fn snapshot_a_proposal_nobody_opened_is_not_found() {
    let refs = vec![(refname("gate", 1), sha('a'))];

    let err = snapshot_of(&refs, &[]).unwrap_err();

    assert!(matches!(err, Error::NotFound(_)), "{err:?}");
}

#[test]
fn the_revisions_come_back_in_order_however_the_refs_arrived() -> Result<()> {
    let refs = vec![
        (refname("gate", 2), sha('c')),
        (refname("gate", 1), sha('a')),
        (refname("gate", 10), sha('d')),
    ];
    let events = vec![event_note(
        sha('a'),
        vec![opened_line("gate", "2026-01-01T00:00:00Z")],
    )];

    let snapshot = snapshot_of(&refs, &events)?;
    let proposal = &snapshot.proposals()[0];

    assert_eq!(
        proposal
            .revisions()
            .iter()
            .map(|revision| revision.sha().as_str().to_owned())
            .collect::<Vec<_>>(),
        vec![sha('a'), sha('c'), sha('d')]
    );
    assert_eq!(proposal.head().number(), 3);
    Ok(())
}

#[test]
fn the_newest_proposal_is_first() -> Result<()> {
    let refs = vec![(refname("old", 1), sha('a')), (refname("new", 1), sha('c'))];
    let events = vec![
        event_note(sha('a'), vec![opened_line("old", "2026-01-01T00:00:00Z")]),
        event_note(sha('c'), vec![opened_line("new", "2026-02-01T00:00:00Z")]),
    ];

    let snapshot = snapshot_of(&refs, &events)?;

    assert_eq!(
        snapshot
            .proposals()
            .iter()
            .map(|proposal| proposal.id().as_str())
            .collect::<Vec<_>>(),
        vec!["new", "old"]
    );
    Ok(())
}

#[test]
fn a_kind_from_the_future_is_skipped_and_a_version_is_not() -> Result<()> {
    let refs = vec![(refname("gate", 1), sha('a'))];
    let events = vec![event_note(
        sha('a'),
        vec![opened_line("gate", "2026-01-01T00:00:00Z")],
    )];
    let future = Line {
        v: 1,
        kind: "telepathy".to_owned(),
        author: "x".to_owned(),
        at: "2026-01-01T00:00:00Z".to_owned(),
        ..Line::default()
    };
    let records = vec![RecordNote {
        object: sha('a'),
        lines: vec![Ok(future)],
    }];

    let snapshot = annotated(&refs, &events, &records)?;
    assert_eq!(snapshot.proposals().len(), 1);

    let newer = Line {
        v: 2,
        kind: "comment".to_owned(),
        author: "x".to_owned(),
        at: "2026-01-01T00:00:00Z".to_owned(),
        ..Line::default()
    };
    let refused = annotated(
        &refs,
        &events,
        &[RecordNote {
            object: sha('a'),
            lines: vec![Ok(newer)],
        }],
    )
    .unwrap_err();

    assert!(
        matches!(
            refused,
            Error::Log {
                log: ANNOTATION_LOG,
                ..
            }
        ),
        "{refused:?}"
    );
    Ok(())
}

#[test]
fn an_event_kind_from_the_future_is_skipped_too() -> Result<()> {
    let refs = vec![(refname("gate", 1), sha('a'))];
    let future = EventLine {
        v: 1,
        kind: "summoned".to_owned(),
        id: "gate".to_owned(),
        author: "x".to_owned(),
        at: "2026-01-01T00:00:00Z".to_owned(),
        ..EventLine::default()
    };
    let events = vec![event_note(
        sha('a'),
        vec![future, opened_line("gate", "2026-01-01T00:00:00Z")],
    )];

    assert_eq!(snapshot_of(&refs, &events)?.proposals().len(), 1);
    Ok(())
}

#[test]
fn a_note_is_read_one_trimmed_line_at_a_time() {
    assert_eq!(
        note_lines("  first \n\n second\n"),
        vec!["first".to_owned(), "second".to_owned()]
    );
    assert!(note_lines("\n \n").is_empty());
}

#[test]
fn a_line_that_is_not_json_is_refused_with_the_object_it_sat_on() {
    let refs = vec![(refname("gate", 1), sha('a'))];
    let events = vec![EventNote {
        object: sha('a'),
        lines: vec![Err("expected value".to_owned())],
    }];

    let err = snapshot_of(&refs, &events).unwrap_err();

    assert!(matches!(err, Error::Log { .. }), "{err:?}");
}

#[test]
fn a_record_line_that_is_not_json_is_refused_by_the_log_reader() {
    let refs = vec![(refname("gate", 1), sha('a'))];
    let events = vec![event_note(
        sha('a'),
        vec![opened_line("gate", "2026-01-01T00:00:00Z")],
    )];
    let records = vec![RecordNote {
        object: sha('a'),
        lines: vec![Err("not json".to_owned())],
    }];

    let err = annotated(&refs, &events, &records).unwrap_err();

    assert!(
        matches!(
            &err,
            Error::Log {
                log: ANNOTATION_LOG,
                source: githerb::Error::Malformed(raw),
                ..
            } if raw == "not json"
        ),
        "{err:?}"
    );
}

#[test]
fn an_event_line_that_is_not_json_is_refused_by_the_log_reader() {
    let refs = vec![(refname("gate", 1), sha('a'))];
    let events = vec![EventNote {
        object: sha('a'),
        lines: vec![Err("{".to_owned())],
    }];

    let err = snapshot_of(&refs, &events).unwrap_err();

    assert!(
        matches!(
            &err,
            Error::Log {
                source: githerb::Error::Malformed(raw),
                ..
            } if raw == "{"
        ),
        "{err:?}"
    );
}
