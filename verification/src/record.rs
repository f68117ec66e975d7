//! One line of the annotation log, whatever it happens to say.
//!
//! Everything a person or an agent appends to a revision is a `Record`. A kind
//! this build does not know is skipped by the store rather than fatal, which is
//! what lets a newer binary write a new kind without breaking every older one.

use vstd::prelude::*;

use crate::check::{Check, CheckView};
use crate::chunk::{Chunk, ChunkView};
use crate::comment::{Comment, CommentView};
use crate::errors::Error;
use crate::identity::RecordId;
use crate::rationale::{Rationale, RationaleView};
use crate::reply::{Reply, ReplyView};
use crate::resolution::{Resolution, ResolutionView};
use crate::text::{copy_str, same_text};
use crate::work::{Dispatch, DispatchView, Work, WorkView};

verus! {

/// What a record is.
#[derive(Debug, Clone, Copy, PartialEq, Eq, Hash)]
pub enum Kind {
    /// A note asking for something.
    Comment,
    /// A note saying a note is answered.
    Resolve,
    /// A result from a command that ran on a revision.
    Check,
    /// A reviewable decision the author is explaining.
    Chunk,
    /// The author explaining some lines.
    Rationale,
    /// A line of what an agent did.
    Work,
    /// A person handing the open notes to an agent.
    Dispatch,
    /// An answer under a note.
    Reply,
}

/// The word the wire format uses for a kind.
pub open spec fn kind_word(kind: Kind) -> Seq<char> {
    match kind {
        Kind::Comment => "comment"@,
        Kind::Resolve => "resolve"@,
        Kind::Check => "check"@,
        Kind::Chunk => "chunk"@,
        Kind::Rationale => "rationale"@,
        Kind::Work => "work"@,
        Kind::Dispatch => "dispatch"@,
        Kind::Reply => "reply"@,
    }
}

/// The kind a word names, if this build knows it.
pub open spec fn kind_named(word: Seq<char>) -> Option<Kind> {
    if word == kind_word(Kind::Comment) {
        Some(Kind::Comment)
    } else if word == kind_word(Kind::Resolve) {
        Some(Kind::Resolve)
    } else if word == kind_word(Kind::Check) {
        Some(Kind::Check)
    } else if word == kind_word(Kind::Chunk) {
        Some(Kind::Chunk)
    } else if word == kind_word(Kind::Rationale) {
        Some(Kind::Rationale)
    } else if word == kind_word(Kind::Work) {
        Some(Kind::Work)
    } else if word == kind_word(Kind::Dispatch) {
        Some(Kind::Dispatch)
    } else if word == kind_word(Kind::Reply) {
        Some(Kind::Reply)
    } else {
        None
    }
}

/// The eight words are eight different words.
pub proof fn lemma_kind_words_differ()
    ensures
        forall|a: Kind, b: Kind| kind_word(a) == kind_word(b) ==> a == b,
{
    reveal_strlit("comment");
    reveal_strlit("resolve");
    reveal_strlit("check");
    reveal_strlit("chunk");
    reveal_strlit("rationale");
    reveal_strlit("work");
    reveal_strlit("dispatch");
    reveal_strlit("reply");
    assert forall|a: Kind, b: Kind| kind_word(a) == kind_word(b) implies a == b by {
        if a != b {
            let (x, y) = (kind_word(a), kind_word(b));
            if x.len() == y.len() {
                assert(x[0] != y[0] || x[1] != y[1] || x[2] != y[2]);
            }
        }
    }
}

/// Reading a kind's word gives the kind back.
pub proof fn law_kind_word_round_trip(kind: Kind)
    ensures
        kind_named(kind_word(kind)) == Some(kind),
{
    lemma_kind_words_differ();
}

impl Kind {
    /// Read a kind off the wire. A kind this build does not know is refused
    /// by name; the store skips those.
    pub fn parse(raw: &str) -> (r: Result<Kind, Error>)
        ensures
            kind_named(raw@) matches Some(k) ==> r == Ok::<Kind, Error>(k),
            kind_named(raw@) is None ==> (r matches Err(Error::UnknownKind(t)) && t@ == raw@),
    {
        if same_text(raw, "comment") {
            Ok(Kind::Comment)
        } else if same_text(raw, "resolve") {
            Ok(Kind::Resolve)
        } else if same_text(raw, "check") {
            Ok(Kind::Check)
        } else if same_text(raw, "chunk") {
            Ok(Kind::Chunk)
        } else if same_text(raw, "rationale") {
            Ok(Kind::Rationale)
        } else if same_text(raw, "work") {
            Ok(Kind::Work)
        } else if same_text(raw, "dispatch") {
            Ok(Kind::Dispatch)
        } else if same_text(raw, "reply") {
            Ok(Kind::Reply)
        } else {
            Err(Error::UnknownKind(copy_str(raw)))
        }
    }

    /// The word the wire format uses.
    pub fn as_str(self) -> (s: &'static str)
        ensures
            s@ == kind_word(self),
    {
        match self {
            Kind::Comment => "comment",
            Kind::Resolve => "resolve",
            Kind::Check => "check",
            Kind::Chunk => "chunk",
            Kind::Rationale => "rationale",
            Kind::Work => "work",
            Kind::Dispatch => "dispatch",
            Kind::Reply => "reply",
        }
    }
}

/// One line of the annotation log.
#[derive(Debug, Clone, PartialEq, Eq)]
pub enum Record {
    /// A note asking for something.
    Comment(Comment),
    /// The author explaining some lines.
    Rationale(Rationale),
    /// An answer under a note.
    Reply(Reply),
    /// A note saying a note is answered.
    Resolve(Resolution),
    /// A result from a command that ran on a revision.
    Check(Check),
    /// A reviewable decision.
    Chunk(Chunk),
    /// A line of what an agent did.
    Work(Work),
    /// A person handing the open notes to an agent.
    Dispatch(Dispatch),
}

/// What a record says.
pub enum RecordView {
    Comment(CommentView),
    Rationale(RationaleView),
    Reply(ReplyView),
    Resolve(ResolutionView),
    Check(CheckView),
    Chunk(ChunkView),
    Work(WorkView),
    Dispatch(DispatchView),
}

impl View for Record {
    type V = RecordView;

    open spec fn view(&self) -> RecordView {
        match self {
            Record::Comment(c) => RecordView::Comment(c@),
            Record::Rationale(r) => RecordView::Rationale(r@),
            Record::Reply(r) => RecordView::Reply(r@),
            Record::Resolve(r) => RecordView::Resolve(r@),
            Record::Check(c) => RecordView::Check(c@),
            Record::Chunk(c) => RecordView::Chunk(c@),
            Record::Work(w) => RecordView::Work(w@),
            Record::Dispatch(d) => RecordView::Dispatch(d@),
        }
    }
}

/// The kind of a record.
pub open spec fn record_kind(r: RecordView) -> Kind {
    match r {
        RecordView::Comment(_) => Kind::Comment,
        RecordView::Rationale(_) => Kind::Rationale,
        RecordView::Reply(_) => Kind::Reply,
        RecordView::Resolve(_) => Kind::Resolve,
        RecordView::Check(_) => Kind::Check,
        RecordView::Chunk(_) => Kind::Chunk,
        RecordView::Work(_) => Kind::Work,
        RecordView::Dispatch(_) => Kind::Dispatch,
    }
}

/// The identity of a record, for the four kinds that have one.
pub open spec fn record_id(r: RecordView) -> Option<Seq<char>> {
    match r {
        RecordView::Comment(c) => Some(c.id),
        RecordView::Rationale(x) => Some(x.id),
        RecordView::Reply(x) => Some(x.id),
        RecordView::Resolve(x) => Some(x.id),
        _ => None,
    }
}

impl Record {
    /// What kind of record this is.
    pub fn kind(&self) -> (k: Kind)
        ensures
            k == record_kind(self@),
    {
        match self {
            Record::Comment(_) => Kind::Comment,
            Record::Rationale(_) => Kind::Rationale,
            Record::Reply(_) => Kind::Reply,
            Record::Resolve(_) => Kind::Resolve,
            Record::Check(_) => Kind::Check,
            Record::Chunk(_) => Kind::Chunk,
            Record::Work(_) => Kind::Work,
            Record::Dispatch(_) => Kind::Dispatch,
        }
    }

    /// The identity of the record, for the four kinds that have one. A check,
    /// a chunk, a work line and a dispatch are anonymous: nothing points at
    /// them, so nothing needs to name them.
    pub fn id(&self) -> (id: Option<&RecordId>)
        ensures
            match id {
                Some(i) => record_id(self@) == Some(i@),
                None => record_id(self@) is None,
            },
    {
        match self {
            Record::Comment(c) => Some(c.id()),
            Record::Rationale(r) => Some(r.id()),
            Record::Reply(r) => Some(r.id()),
            Record::Resolve(r) => Some(r.id()),
            Record::Check(_) | Record::Chunk(_) | Record::Work(_) | Record::Dispatch(_) => None,
        }
    }

    /// A copy of the record.
    pub fn duplicate(&self) -> (r: Record)
        ensures
            r@ == self@,
    {
        match self {
            Record::Comment(c) => Record::Comment(c.duplicate()),
            Record::Rationale(x) => Record::Rationale(x.duplicate()),
            Record::Reply(x) => Record::Reply(x.duplicate()),
            Record::Resolve(x) => Record::Resolve(x.duplicate()),
            Record::Check(x) => Record::Check(x.duplicate()),
            Record::Chunk(x) => Record::Chunk(x.duplicate()),
            Record::Work(x) => Record::Work(x.duplicate()),
            Record::Dispatch(x) => Record::Dispatch(x.duplicate()),
        }
    }
}

} // verus!
