//! The moments in a proposal's life: it opened, it landed, it was given up on,
//! or it now lands somewhere else.
//!
//! Everything between those moments is annotation. Like every other record
//! here an event is appended and never edited, so the state of a proposal is
//! what its events add up to rather than a field somebody rewrote.

use vstd::prelude::*;

use crate::branch::Branch;
use crate::errors::Error;
use crate::identity::{Author, ProposalId, Sha};
use crate::text::{copy_str, same_text, trim, trimmed};
use crate::timestamp::Timestamp;
use crate::wire::annotation::writable_moment;
use crate::wire::event::event_writable;

verus! {

/// Which moment an event is.
#[derive(Debug, Clone, Copy, PartialEq, Eq, Hash)]
pub enum EventKind {
    /// The proposal started.
    Opened,
    /// It reached its target branch.
    Landed,
    /// It will not be landing.
    Abandoned,
    /// It lands somewhere else now.
    Retargeted,
}

/// The word the wire format uses for an event kind.
pub open spec fn event_word(kind: EventKind) -> Seq<char> {
    match kind {
        EventKind::Opened => "opened"@,
        EventKind::Landed => "landed"@,
        EventKind::Abandoned => "abandoned"@,
        EventKind::Retargeted => "retargeted"@,
    }
}

/// The event kind a word names, if this build knows it.
pub open spec fn event_named(word: Seq<char>) -> Option<EventKind> {
    if word == event_word(EventKind::Opened) {
        Some(EventKind::Opened)
    } else if word == event_word(EventKind::Landed) {
        Some(EventKind::Landed)
    } else if word == event_word(EventKind::Abandoned) {
        Some(EventKind::Abandoned)
    } else if word == event_word(EventKind::Retargeted) {
        Some(EventKind::Retargeted)
    } else {
        None
    }
}

/// Reading an event kind's word gives the kind back.
pub proof fn law_event_word_round_trip(kind: EventKind)
    ensures
        event_named(event_word(kind)) == Some(kind),
{
    reveal_strlit("opened");
    reveal_strlit("landed");
    reveal_strlit("abandoned");
    reveal_strlit("retargeted");
    assert("opened"@[0] != "landed"@[0]);
    assert("landed"@[0] != "abandoned"@[0]);
    assert("opened"@[0] != "retargeted"@[0]);
}

impl EventKind {
    /// Read a kind off the wire. A kind this build does not know is refused
    /// by name.
    pub fn parse(raw: &str) -> (r: Result<EventKind, Error>)
        ensures
            event_named(raw@) matches Some(k) ==> r == Ok::<EventKind, Error>(k),
            event_named(raw@) is None ==> (r matches Err(Error::UnknownKind(t)) && t@ == raw@),
    {
        if same_text(raw, "opened") {
            Ok(EventKind::Opened)
        } else if same_text(raw, "landed") {
            Ok(EventKind::Landed)
        } else if same_text(raw, "abandoned") {
            Ok(EventKind::Abandoned)
        } else if same_text(raw, "retargeted") {
            Ok(EventKind::Retargeted)
        } else {
            Err(Error::UnknownKind(copy_str(raw)))
        }
    }

    /// The word the wire format uses.
    pub fn as_str(self) -> (s: &'static str)
        ensures
            s@ == event_word(self),
    {
        match self {
            EventKind::Opened => "opened",
            EventKind::Landed => "landed",
            EventKind::Abandoned => "abandoned",
            EventKind::Retargeted => "retargeted",
        }
    }
}

/// One line of the proposal log.
///
/// Build these through [`Event::opened`], [`Event::landed`],
/// [`Event::abandoned`] and [`Event::retargeted`]: those are where the rules
/// that the field types cannot carry are enforced.
#[derive(Debug, Clone, PartialEq, Eq)]
pub enum Event {
    /// The proposal started.
    Opened {
        /// Which proposal.
        id: ProposalId,
        /// What a person calls it. Never blank.
        title: String,
        /// The branch it means to land on.
        target: Branch,
        /// The commit it was cut from.
        base: Sha,
        /// Who opened it.
        author: Author,
        /// When.
        at: Timestamp,
    },
    /// It reached its target branch.
    Landed {
        /// Which proposal.
        id: ProposalId,
        /// Who landed it.
        author: Author,
        /// When.
        at: Timestamp,
    },
    /// It will not be landing.
    Abandoned {
        /// Which proposal.
        id: ProposalId,
        /// Who gave up on it.
        author: Author,
        /// When.
        at: Timestamp,
    },
    /// It lands somewhere else now, because the branch underneath it landed.
    Retargeted {
        /// Which proposal.
        id: ProposalId,
        /// The branch it lands on now.
        target: Branch,
        /// Who moved it.
        author: Author,
        /// When.
        at: Timestamp,
    },
}

/// What an event says.
pub enum EventView {
    Opened {
        id: Seq<char>,
        title: Seq<char>,
        target: Seq<char>,
        base: Seq<char>,
        author: Seq<char>,
        at: i64,
    },
    Landed { id: Seq<char>, author: Seq<char>, at: i64 },
    Abandoned { id: Seq<char>, author: Seq<char>, at: i64 },
    Retargeted { id: Seq<char>, target: Seq<char>, author: Seq<char>, at: i64 },
}

impl View for Event {
    type V = EventView;

    open spec fn view(&self) -> EventView {
        match self {
            Event::Opened { id, title, target, base, author, at } => EventView::Opened {
                id: id@,
                title: title@,
                target: target@,
                base: base@,
                author: author@,
                at: at@,
            },
            Event::Landed { id, author, at } => EventView::Landed {
                id: id@,
                author: author@,
                at: at@,
            },
            Event::Abandoned { id, author, at } => EventView::Abandoned {
                id: id@,
                author: author@,
                at: at@,
            },
            Event::Retargeted { id, target, author, at } => EventView::Retargeted {
                id: id@,
                target: target@,
                author: author@,
                at: at@,
            },
        }
    }
}

/// Which moment an event is.
pub open spec fn event_kind(e: EventView) -> EventKind {
    match e {
        EventView::Opened { .. } => EventKind::Opened,
        EventView::Landed { .. } => EventKind::Landed,
        EventView::Abandoned { .. } => EventKind::Abandoned,
        EventView::Retargeted { .. } => EventKind::Retargeted,
    }
}

/// The proposal an event belongs to.
pub open spec fn event_id(e: EventView) -> Seq<char> {
    match e {
        EventView::Opened { id, .. } => id,
        EventView::Landed { id, .. } => id,
        EventView::Abandoned { id, .. } => id,
        EventView::Retargeted { id, .. } => id,
    }
}

/// Who caused an event.
pub open spec fn event_author(e: EventView) -> Seq<char> {
    match e {
        EventView::Opened { author, .. } => author,
        EventView::Landed { author, .. } => author,
        EventView::Abandoned { author, .. } => author,
        EventView::Retargeted { author, .. } => author,
    }
}

/// When an event happened.
pub open spec fn event_at(e: EventView) -> i64 {
    match e {
        EventView::Opened { at, .. } => at,
        EventView::Landed { at, .. } => at,
        EventView::Abandoned { at, .. } => at,
        EventView::Retargeted { at, .. } => at,
    }
}

impl Event {
    /// The event that starts a proposal. A blank title is refused; the title
    /// is kept trimmed.
    pub fn opened(
        id: ProposalId,
        title: &str,
        target: Branch,
        base: Sha,
        author: Author,
        at: Timestamp,
    ) -> (r: Result<Event, Error>)
        ensures
            trimmed(title@).len() == 0 ==> r matches Err(Error::NoTitle),
            trimmed(title@).len() > 0 ==> (r matches Ok(e) && e@ == EventView::Opened {
                id: id@,
                title: trimmed(title@),
                target: target@,
                base: base@,
                author: author@,
                at: at@,
            }),
            trimmed(title@).len() > 0 && writable_moment(at@) ==> (r matches Ok(e)
                && event_writable(e@)),
    {
        proof {
            use_type_invariant(&id);
            use_type_invariant(&target);
            use_type_invariant(&base);
            use_type_invariant(&author);
            ProposalId::lemma_valid(id);
            Branch::lemma_valid(target);
            Sha::lemma_commit_name(base);
            Author::lemma_valid(author);
            crate::text::lemma_trimmed_twice(title@);
        }
        let title = trim(title);
        if title.as_str().is_empty() {
            return Err(Error::NoTitle);
        }
        Ok(Event::Opened { id, title, target, base, author, at })
    }

    /// The event that ends one.
    pub fn landed(id: ProposalId, author: Author, at: Timestamp) -> (e: Event)
        ensures
            e@ == (EventView::Landed { id: id@, author: author@, at: at@ }),
            writable_moment(at@) ==> event_writable(e@),
    {
        proof {
            use_type_invariant(&id);
            use_type_invariant(&author);
            ProposalId::lemma_valid(id);
            Author::lemma_valid(author);
        }
        Event::Landed { id, author, at }
    }

    /// The event for a proposal that will not be landing.
    pub fn abandoned(id: ProposalId, author: Author, at: Timestamp) -> (e: Event)
        ensures
            e@ == (EventView::Abandoned { id: id@, author: author@, at: at@ }),
            writable_moment(at@) ==> event_writable(e@),
    {
        proof {
            use_type_invariant(&id);
            use_type_invariant(&author);
            ProposalId::lemma_valid(id);
            Author::lemma_valid(author);
        }
        Event::Abandoned { id, author, at }
    }

    /// The event for a proposal that lands somewhere else now.
    ///
    /// It happens when the branch underneath it lands: a stack is a chain of
    /// proposals aimed at each other, and the one on top has to follow.
    pub fn retargeted(id: ProposalId, target: Branch, author: Author, at: Timestamp) -> (e: Event)
        ensures
            e@ == (EventView::Retargeted { id: id@, target: target@, author: author@, at: at@ }),
            writable_moment(at@) ==> event_writable(e@),
    {
        proof {
            use_type_invariant(&id);
            use_type_invariant(&target);
            use_type_invariant(&author);
            ProposalId::lemma_valid(id);
            Branch::lemma_valid(target);
            Author::lemma_valid(author);
        }
        Event::Retargeted { id, target, author, at }
    }

    /// Which moment this is.
    pub fn kind(&self) -> (k: EventKind)
        ensures
            k == event_kind(self@),
    {
        match self {
            Event::Opened { .. } => EventKind::Opened,
            Event::Landed { .. } => EventKind::Landed,
            Event::Abandoned { .. } => EventKind::Abandoned,
            Event::Retargeted { .. } => EventKind::Retargeted,
        }
    }

    /// The proposal the event belongs to.
    pub fn id(&self) -> (i: &ProposalId)
        ensures
            i@ == event_id(self@),
    {
        match self {
            Event::Opened { id, .. } => id,
            Event::Landed { id, .. } => id,
            Event::Abandoned { id, .. } => id,
            Event::Retargeted { id, .. } => id,
        }
    }

    /// Who caused it.
    pub fn author(&self) -> (a: &Author)
        ensures
            a@ == event_author(self@),
    {
        match self {
            Event::Opened { author, .. } => author,
            Event::Landed { author, .. } => author,
            Event::Abandoned { author, .. } => author,
            Event::Retargeted { author, .. } => author,
        }
    }

    /// When, to the second, in UTC.
    pub fn at(&self) -> (t: Timestamp)
        ensures
            t@ == event_at(self@),
    {
        match self {
            Event::Opened { at, .. } => *at,
            Event::Landed { at, .. } => *at,
            Event::Abandoned { at, .. } => *at,
            Event::Retargeted { at, .. } => *at,
        }
    }
}

} // verus!
