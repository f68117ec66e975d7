//! An event to its line, and a line back to an event.
//!
//! The proposal log is a smaller shape than the annotation log: an event only
//! ever says which proposal, who, when, and for an opening what it is called
//! and where it came from.

use vstd::prelude::*;

use super::annotation::{is_text, writable_moment};
use super::line::{
    lemma_decimal_int_one_line, lemma_keys_one_line, lemma_text_field_one_line, push_quoted,
    push_text_field, text_field, VERSION,
};
use crate::branch::{branch_result, is_branch_name, Branch};
use crate::calendar::law_written_moment_reads_back;
use crate::errors::{Error, ErrorView};
use crate::identity::{
    is_proposal_name, is_sha_text, nonblank_result, proposal_id_result, sha_result, Author,
    ProposalId, Sha,
};
use crate::json::{json_quoted, lemma_no_line_break_join, lemma_quoted_one_line, no_line_break};
use crate::lifecycle::{event_at, event_author, event_id, event_kind, event_named, event_word, Event, EventKind, EventView};
use crate::number::{decimal_int, push_int};
use crate::text::{copy_str, trimmed};
use crate::timestamp::{parse_timestamp, timestamp_text, Timestamp};

verus! {

/// The wire shape of a proposal event. Field order is the order on disk.
#[derive(Debug, Clone, Default, PartialEq, Eq)]
pub struct EventLine {
    pub v: i64,
    pub kind: String,
    pub id: String,
    pub title: String,
    pub target: String,
    pub base: String,
    pub author: String,
    pub at: String,
}

/// What an event line says, field by field.
pub struct EventLineView {
    pub v: i64,
    pub kind: Seq<char>,
    pub id: Seq<char>,
    pub title: Seq<char>,
    pub target: Seq<char>,
    pub base: Seq<char>,
    pub author: Seq<char>,
    pub at: Seq<char>,
}

impl View for EventLine {
    type V = EventLineView;

    open spec fn view(&self) -> EventLineView {
        EventLineView {
            v: self.v,
            kind: self.kind@,
            id: self.id@,
            title: self.title@,
            target: self.target@,
            base: self.base@,
            author: self.author@,
            at: self.at@,
        }
    }
}

/// The line an event serialises to: the fields every event carries, and for
/// an opening its title, target and base, for a retargeting its new target.
pub open spec fn event_line(e: EventView) -> EventLineView {
    let common = EventLineView {
        v: VERSION,
        kind: event_word(event_kind(e)),
        id: event_id(e),
        title: Seq::empty(),
        target: Seq::empty(),
        base: Seq::empty(),
        author: event_author(e),
        at: timestamp_text(event_at(e) as int),
    };
    match e {
        EventView::Opened { title, target, base, .. } => EventLineView {
            title,
            target,
            base,
            ..common
        },
        EventView::Retargeted { target, .. } => EventLineView { target, ..common },
        _ => common,
    }
}

/// The bytes of an event line on disk: blank title, target and base left out.
pub open spec fn render_event(l: EventLineView) -> Seq<char> {
    "{\"v\":"@ + decimal_int(l.v as int) + ",\"kind\":"@ + json_quoted(l.kind) + ",\"id\":"@
        + json_quoted(l.id) + text_field(",\"title\":"@, l.title) + text_field(
        ",\"target\":"@,
        l.target,
    ) + text_field(",\"base\":"@, l.base) + ",\"author\":"@ + json_quoted(l.author)
        + ",\"at\":"@ + json_quoted(l.at) + "}"@
}

/// Whatever an event line holds, it is written as one line of the proposal
/// log.
pub proof fn law_an_event_is_one_line(l: EventLineView)
    ensures
        no_line_break(render_event(l)),
{
    lemma_keys_one_line();
    lemma_decimal_int_one_line(l.v as int);
    lemma_quoted_one_line(l.kind);
    lemma_quoted_one_line(l.id);
    lemma_text_field_one_line(",\"title\":"@, l.title);
    lemma_text_field_one_line(",\"target\":"@, l.target);
    lemma_text_field_one_line(",\"base\":"@, l.base);
    lemma_quoted_one_line(l.author);
    lemma_quoted_one_line(l.at);
    let p0 = "{\"v\":"@;
    lemma_no_line_break_join(p0, decimal_int(l.v as int));
    let p1 = p0 + decimal_int(l.v as int);
    lemma_no_line_break_join(p1, ",\"kind\":"@);
    let p2 = p1 + ",\"kind\":"@;
    lemma_no_line_break_join(p2, json_quoted(l.kind));
    let p3 = p2 + json_quoted(l.kind);
    lemma_no_line_break_join(p3, ",\"id\":"@);
    let p4 = p3 + ",\"id\":"@;
    lemma_no_line_break_join(p4, json_quoted(l.id));
    let p5 = p4 + json_quoted(l.id);
    lemma_no_line_break_join(p5, text_field(",\"title\":"@, l.title));
    let p6 = p5 + text_field(",\"title\":"@, l.title);
    lemma_no_line_break_join(p6, text_field(",\"target\":"@, l.target));
    let p7 = p6 + text_field(",\"target\":"@, l.target);
    lemma_no_line_break_join(p7, text_field(",\"base\":"@, l.base));
    let p8 = p7 + text_field(",\"base\":"@, l.base);
    lemma_no_line_break_join(p8, ",\"author\":"@);
    let p9 = p8 + ",\"author\":"@;
    lemma_no_line_break_join(p9, json_quoted(l.author));
    let p10 = p9 + json_quoted(l.author);
    lemma_no_line_break_join(p10, ",\"at\":"@);
    let p11 = p10 + ",\"at\":"@;
    lemma_no_line_break_join(p11, json_quoted(l.at));
    let p12 = p11 + json_quoted(l.at);
    lemma_no_line_break_join(p12, "}"@);
    let p13 = p12 + "}"@;
    assert(p13 == render_event(l));
}

/// What reading one line of the proposal log gives: the version first, then
/// the moment, the proposal, the author and the kind, then the kind's own
/// fields.
pub open spec fn event_from_line(l: EventLineView) -> Result<EventView, ErrorView> {
    if l.v != VERSION {
        Err(ErrorView::Version(l.v))
    } else {
        match parse_timestamp(l.at) {
            None => Err(ErrorView::Malformed("timestamp "@ + l.at)),
            Some(u) => {
                let at = u as i64;
                match proposal_id_result(l.id) {
                    Err(e) => Err(e),
                    Ok(id) => match nonblank_result(l.author, ErrorView::NoAuthor) {
                        Err(e) => Err(e),
                        Ok(author) => match event_named(l.kind) {
                            None => Err(ErrorView::UnknownKind(l.kind)),
                            Some(EventKind::Opened) => match branch_result(l.target) {
                                Err(e) => Err(e),
                                Ok(target) => match sha_result(l.base) {
                                    Err(e) => Err(e),
                                    Ok(base) => if trimmed(l.title).len() == 0 {
                                        Err(ErrorView::NoTitle)
                                    } else {
                                        Ok(
                                            EventView::Opened {
                                                id,
                                                title: trimmed(l.title),
                                                target,
                                                base,
                                                author,
                                                at,
                                            },
                                        )
                                    },
                                },
                            },
                            Some(EventKind::Landed) => Ok(EventView::Landed { id, author, at }),
                            Some(EventKind::Abandoned) => Ok(
                                EventView::Abandoned { id, author, at },
                            ),
                            Some(EventKind::Retargeted) => match branch_result(l.target) {
                                Err(e) => Err(e),
                                Ok(target) => Ok(
                                    EventView::Retargeted { id, target, author, at },
                                ),
                            },
                        },
                    },
                }
            },
        }
    }
}

/// The view of a read event.
pub open spec fn event_result(r: Result<Event, Error>) -> Result<EventView, ErrorView> {
    match r {
        Ok(x) => Ok(x@),
        Err(e) => Err(e@),
    }
}

impl EventLine {
    /// Serialise an event line, fields in their order on disk.
    pub fn render(&self) -> (s: String)
        ensures
            s@ == render_event(self@),
    {
        let mut s = copy_str("{\"v\":");
        push_int(&mut s, self.v);
        push_quoted(&mut s, ",\"kind\":", self.kind.as_str());
        push_quoted(&mut s, ",\"id\":", self.id.as_str());
        push_text_field(&mut s, ",\"title\":", self.title.as_str());
        push_text_field(&mut s, ",\"target\":", self.target.as_str());
        push_text_field(&mut s, ",\"base\":", self.base.as_str());
        push_quoted(&mut s, ",\"author\":", self.author.as_str());
        push_quoted(&mut s, ",\"at\":", self.at.as_str());
        s.append("}");
        assert(s@ =~= render_event(self@));
        s
    }
}

impl Event {
    /// The flat line the event serialises to.
    pub fn line(&self) -> (l: EventLine)
        ensures
            l@ == event_line(self@),
            event_writable(self@) ==> event_from_line(l@) == Ok::<EventView, ErrorView>(self@),
    {
        proof {
            if event_writable(self@) {
                law_event_reads_back(self@);
            }
        }
        let mut l = EventLine {
            v: VERSION,
            kind: copy_str(self.kind().as_str()),
            id: copy_str(self.id().as_str()),
            title: String::new(),
            target: String::new(),
            base: String::new(),
            author: copy_str(self.author().as_str()),
            at: self.at().to_string(),
        };
        match self {
            Event::Opened { title, target, base, .. } => {
                l.title = copy_str(title.as_str());
                l.target = copy_str(target.as_str());
                l.base = copy_str(base.as_str());
            },
            Event::Retargeted { target, .. } => {
                l.target = copy_str(target.as_str());
            },
            _ => {},
        }
        assert(l@ == event_line(self@));
        l
    }

    /// Render the event as the single line it is stored as, with no newline.
    pub fn to_line(&self) -> (s: String)
        ensures
            s@ == render_event(event_line(self@)),
    {
        self.line().render()
    }

    /// Read one line of the proposal log, already split into its fields: a
    /// version this build does not speak, a bad moment, a kind it does not
    /// know, or an event any constructor here refuses is refused.
    pub fn from_line(line: &EventLine) -> (r: Result<Event, Error>)
        ensures
            event_result(r) == event_from_line(line@),
    {
        if line.v != VERSION {
            return Err(Error::Version(line.v));
        }
        let at = match Timestamp::parse(line.at.as_str()) {
            Ok(t) => t,
            Err(_) => {
                let mut text = copy_str("timestamp ");
                text.append(line.at.as_str());
                proof {
                    reveal_strlit("timestamp ");
                }
                return Err(Error::Malformed(text));
            },
        };
        let id = ProposalId::parse(line.id.as_str())?;
        let author = Author::parse(line.author.as_str())?;
        let kind = match EventKind::parse(line.kind.as_str()) {
            Ok(k) => k,
            Err(e) => {
                return Err(e);
            },
        };
        match kind {
            EventKind::Opened => {
                let target = Branch::parse(line.target.as_str())?;
                let base = Sha::parse(line.base.as_str())?;
                Event::opened(id, line.title.as_str(), target, base, author, at)
            },
            EventKind::Landed => Ok(Event::landed(id, author, at)),
            EventKind::Abandoned => Ok(Event::abandoned(id, author, at)),
            EventKind::Retargeted => {
                let target = Branch::parse(line.target.as_str())?;
                Ok(Event::retargeted(id, target, author, at))
            },
        }
    }
}

/// What every event the constructors make is, and what the proposal log
/// carries without loss: a proposal name, a branch name and a commit name
/// where it names them, its other texts trimmed and not blank, its moment
/// with a four-digit year.
pub open spec fn event_writable(e: EventView) -> bool {
    &&& is_proposal_name(event_id(e)) && trimmed(event_id(e)) == event_id(e)
    &&& is_text(event_author(e))
    &&& writable_moment(event_at(e))
    &&& match e {
        EventView::Opened { title, target, base, .. } => is_text(title) && is_text(target)
            && is_branch_name(target) && is_sha_text(base),
        EventView::Retargeted { target, .. } => is_text(target) && is_branch_name(target),
        _ => true,
    }
}

/// An event written to its line reads back as the same event.
pub proof fn law_event_reads_back(e: EventView)
    requires
        event_writable(e),
    ensures
        event_from_line(event_line(e)) == Ok::<EventView, ErrorView>(e),
{
    law_written_moment_reads_back(event_at(e) as int);
    crate::lifecycle::law_event_word_round_trip(event_kind(e));
    let l = event_line(e);
    assert(l.v == VERSION);
    assert(parse_timestamp(l.at) == Some(event_at(e) as int));
    assert(proposal_id_result(l.id) == Ok::<Seq<char>, ErrorView>(event_id(e)));
    assert(nonblank_result(l.author, ErrorView::NoAuthor) == Ok::<Seq<char>, ErrorView>(
        event_author(e),
    ));
    assert(event_named(l.kind) == Some(event_kind(e)));
    match e {
        EventView::Opened { id, title, target, base, author, at } => {
            assert(branch_result(l.target) == Ok::<Seq<char>, ErrorView>(target));
            assert(sha_result(l.base) == Ok::<Seq<char>, ErrorView>(base));
            assert(trimmed(l.title) == title);
        },
        EventView::Retargeted { id, target, author, at } => {
            assert(branch_result(l.target) == Ok::<Seq<char>, ErrorView>(target));
        },
        _ => {},
    }
}

} // verus!
