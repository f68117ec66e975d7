//! What each verb does to a proposal, once the caller has loaded it.
//!
//! A verb makes its record against the head revision and applies it, which
//! is where every rule of the core is asked; only a record the proposal took
//! is handed back for the caller to write down. Loading the proposal and
//! writing the record are the caller's business.

use vstd::prelude::*;

use crate::comment::{Comment, CommentView};
use crate::errors::ErrorView as CoreErrorView;
use crate::branch::Branch;
use crate::handover::{brief_text, handover_text};
use crate::identity::{Author, ProposalId, RecordId, Sha};
use crate::lifecycle::{Event, EventView};
use crate::usecase::propose::{slug, slug_text};
use crate::proposal::{
    apply_spec, head_of, proposal_wf, Proposal, ProposalView, RevisionView, State,
};
use crate::record::{Kind, Record, RecordView};
use crate::reply::{Reply, ReplyView};
use crate::resolution::{Resolution, ResolutionView};
use crate::span::{Anchor, AnchorView};
use crate::text::{opt_chars, trimmed};
use crate::timestamp::Timestamp;
use crate::usecase::error::{Error, ErrorView};
use crate::wire::line::{note_id_of, reply_id_of, resolution_id_of};
use crate::work::{
    kept_note, note_refusal, phase_named, task_named, Dispatch, DispatchView, Phase, Task, Work,
    WorkView,
};

verus! {

/// The note a verb writes against the head revision.
pub open spec fn note_on_head(
    p: ProposalView,
    anchor: AnchorView,
    body: Seq<char>,
    author: Seq<char>,
    at: i64,
) -> CommentView {
    CommentView {
        id: note_id_of(Kind::Comment, head_of(p).sha, anchor, trimmed(body), author, at),
        revision: head_of(p).sha,
        anchor,
        body: trimmed(body),
        author,
        at,
    }
}

/// The answer a verb writes against the head revision.
pub open spec fn answer_on_head(
    p: ProposalView,
    note: Seq<char>,
    body: Seq<char>,
    author: Seq<char>,
    at: i64,
) -> ReplyView {
    ReplyView {
        id: reply_id_of(note, head_of(p).sha, trimmed(body), author, at),
        target: note,
        revision: head_of(p).sha,
        body: trimmed(body),
        author,
        at,
    }
}

/// Whether applying a record went as the core says it goes: the proposal
/// takes it, or refuses it and stays as it was.
pub open spec fn taken(
    before: ProposalView,
    after: ProposalView,
    record: RecordView,
    ok: bool,
    refusal: ErrorView,
) -> bool {
    match apply_spec(before, record) {
        Ok(q) => ok && after == q,
        Err(x) => !ok && refusal == ErrorView::Review(x) && after == before,
    }
}

/// A note on the head revision: written, unless its body is blank or the
/// proposal refuses it.
pub fn annotate(
    proposal: &mut Proposal,
    author: &Author,
    now: Timestamp,
    anchor: Anchor,
    body: &str,
) -> (r: Result<Comment, Error>)
    ensures
        proposal_wf(final(proposal)@),
        trimmed(body@).len() == 0 ==> (r matches Err(e) && e@ == ErrorView::Review(
            CoreErrorView::NoBody,
        ) && final(proposal)@ == old(proposal)@),
        trimmed(body@).len() > 0 ==> taken(
            old(proposal)@,
            final(proposal)@,
            RecordView::Comment(note_on_head(old(proposal)@, anchor@, body@, author@, now@)),
            r is Ok,
            match r {
                Err(e) => e@,
                Ok(_) => ErrorView::NotARevision(Seq::empty()),
            },
        ) && (r matches Ok(c) ==> c@ == note_on_head(
            old(proposal)@,
            anchor@,
            body@,
            author@,
            now@,
        )),
{
    proof {
        use_type_invariant(&*proposal);
        Proposal::lemma_wf(*proposal);
    }
    let head = proposal.head().sha().duplicate();
    let comment = match Comment::new(head, anchor, body, author.duplicate(), now) {
        Ok(c) => c,
        Err(e) => {
            return Err(Error::Review(e));
        },
    };
    match proposal.apply(Record::Comment(comment.duplicate())) {
        Ok(()) => Ok(comment),
        Err(e) => Err(Error::Review(e)),
    }
}

/// An answer under a note, against the head revision: written, unless its
/// body is blank or the proposal refuses it.
pub fn reply(
    proposal: &mut Proposal,
    author: &Author,
    now: Timestamp,
    note: &RecordId,
    body: &str,
) -> (r: Result<Reply, Error>)
    ensures
        proposal_wf(final(proposal)@),
        trimmed(body@).len() == 0 ==> (r matches Err(e) && e@ == ErrorView::Review(
            CoreErrorView::NoBody,
        ) && final(proposal)@ == old(proposal)@),
        trimmed(body@).len() > 0 ==> taken(
            old(proposal)@,
            final(proposal)@,
            RecordView::Reply(answer_on_head(old(proposal)@, note@, body@, author@, now@)),
            r is Ok,
            match r {
                Err(e) => e@,
                Ok(_) => ErrorView::NotARevision(Seq::empty()),
            },
        ) && (r matches Ok(x) ==> x@ == answer_on_head(
            old(proposal)@,
            note@,
            body@,
            author@,
            now@,
        )),
{
    proof {
        use_type_invariant(&*proposal);
        Proposal::lemma_wf(*proposal);
    }
    let head = proposal.head().sha().duplicate();
    let answer = match Reply::new(note.duplicate(), head, body, author.duplicate(), now) {
        Ok(x) => x,
        Err(e) => {
            return Err(Error::Review(e));
        },
    };
    match proposal.apply(Record::Reply(answer.duplicate())) {
        Ok(()) => Ok(answer),
        Err(e) => Err(Error::Review(e)),
    }
}

/// A resolution of a note: written, unless the proposal refuses it.
pub fn resolve(proposal: &mut Proposal, author: &Author, now: Timestamp, note: &RecordId) -> (r:
    Result<Resolution, Error>)
    ensures
        proposal_wf(final(proposal)@),
        taken(
            old(proposal)@,
            final(proposal)@,
            RecordView::Resolve(
                ResolutionView {
                    id: resolution_id_of(note@, author@, now@),
                    target: note@,
                    author: author@,
                    at: now@,
                },
            ),
            r is Ok,
            match r {
                Err(e) => e@,
                Ok(_) => ErrorView::NotARevision(Seq::empty()),
            },
        ),
        r matches Ok(x) ==> x@ == (ResolutionView {
            id: resolution_id_of(note@, author@, now@),
            target: note@,
            author: author@,
            at: now@,
        }),
{
    proof {
        use_type_invariant(&*proposal);
        Proposal::lemma_wf(*proposal);
    }
    let record = Resolution::new(note.duplicate(), author.duplicate(), now);
    match proposal.apply(Record::Resolve(record.duplicate())) {
        Ok(()) => Ok(record),
        Err(e) => Err(Error::Review(e)),
    }
}

/// An ask for an agent on the head revision: written, unless the proposal
/// refuses it.
pub fn dispatch(proposal: &mut Proposal, author: &Author, now: Timestamp) -> (r: Result<
    Dispatch,
    Error,
>)
    ensures
        proposal_wf(final(proposal)@),
        taken(
            old(proposal)@,
            final(proposal)@,
            RecordView::Dispatch(
                DispatchView { revision: head_of(old(proposal)@).sha, author: author@, at: now@ },
            ),
            r is Ok,
            match r {
                Err(e) => e@,
                Ok(_) => ErrorView::NotARevision(Seq::empty()),
            },
        ),
        r matches Ok(x) ==> x@ == (DispatchView {
            revision: head_of(old(proposal)@).sha,
            author: author@,
            at: now@,
        }),
{
    proof {
        use_type_invariant(&*proposal);
        Proposal::lemma_wf(*proposal);
    }
    let head = proposal.head().sha().duplicate();
    let record = Dispatch::new(head, author.duplicate(), now);
    match proposal.apply(Record::Dispatch(record.duplicate())) {
        Ok(()) => Ok(record),
        Err(e) => Err(Error::Review(e)),
    }
}

/// What an agent says it is doing, against the head revision: the task, the
/// phase and the note are read in that order, and the line is written unless
/// one of them is refused or the proposal refuses it.
pub fn report(
    proposal: &mut Proposal,
    author: &Author,
    now: Timestamp,
    task: &str,
    phase: &str,
    note: Option<&str>,
) -> (r: Result<Work, Error>)
    ensures
        proposal_wf(final(proposal)@),
        task_named(task@) is None ==> (r matches Err(e) && e@ == ErrorView::Review(
            CoreErrorView::UnknownTask(task@),
        ) && final(proposal)@ == old(proposal)@),
        task_named(task@) is Some && phase_named(phase@) is None ==> (r matches Err(e) && e@
            == ErrorView::Review(CoreErrorView::UnknownPhase(phase@)) && final(proposal)@
            == old(proposal)@),
        task_named(task@) is Some && phase_named(phase@) is Some && note_refusal(opt_chars(note))
            is Some ==> (r matches Err(e) && e@ == ErrorView::Review(
            note_refusal(opt_chars(note))->0@,
        ) && final(proposal)@ == old(proposal)@),
        task_named(task@) is Some && phase_named(phase@) is Some && note_refusal(opt_chars(note))
            is None ==> {
            let w = WorkView {
                revision: head_of(old(proposal)@).sha,
                task: task_named(task@)->0,
                phase: phase_named(phase@)->0,
                agent: author@,
                note: kept_note(opt_chars(note)),
                at: now@,
            };
            &&& taken(
                old(proposal)@,
                final(proposal)@,
                RecordView::Work(w),
                r is Ok,
                match r {
                    Err(e) => e@,
                    Ok(_) => ErrorView::NotARevision(Seq::empty()),
                },
            )
            &&& r matches Ok(x) ==> x@ == w
        },
{
    proof {
        use_type_invariant(&*proposal);
        Proposal::lemma_wf(*proposal);
    }
    let task = match Task::parse(task) {
        Ok(t) => t,
        Err(e) => {
            return Err(Error::Review(e));
        },
    };
    let phase = match Phase::parse(phase) {
        Ok(p) => p,
        Err(e) => {
            return Err(Error::Review(e));
        },
    };
    let head = proposal.head().sha().duplicate();
    let line = match Work::new(head, task, phase, author.duplicate(), note, now) {
        Ok(w) => w,
        Err(e) => {
            return Err(Error::Review(e));
        },
    };
    match proposal.apply(Record::Work(line.duplicate())) {
        Ok(()) => Ok(line),
        Err(e) => Err(Error::Review(e)),
    }
}

/// The proposal a title opens at a head cut from a base, and the event that
/// writes it down: named after its title, refused when the title is blank or
/// the head is the base.
pub fn propose(
    author: &Author,
    now: Timestamp,
    title: &str,
    target: Branch,
    base: Sha,
    head: Sha,
) -> (r: Result<(Proposal, Event), Error>)
    ensures
        trimmed(title@).len() == 0 ==> (r matches Err(e) && e@ == ErrorView::Review(
            CoreErrorView::NoTitle,
        )),
        trimmed(title@).len() > 0 && base@ == head@ ==> (r matches Err(e) && e@
            == ErrorView::Review(CoreErrorView::NothingProposed)),
        trimmed(title@).len() > 0 && base@ != head@ ==> (r matches Ok((p, e)) && proposal_wf(p@)
            && p@.id == slug_text(title@, head@) && p@.title == trimmed(title@) && p@.target
            == target@ && p@.base == base@ && p@.revisions == seq![
            RevisionView { number: 1, sha: head@ },
        ] && p@.state == State::Open && p@.opened_at == now@ && e@ == (EventView::Opened {
            id: slug_text(title@, head@),
            title: trimmed(title@),
            target: target@,
            base: base@,
            author: author@,
            at: now@,
        })),
{
    let id = slug(title, &head)?;
    let event_id = id.duplicate();
    let event_target = target.duplicate();
    let event_base = base.duplicate();
    let proposal = match Proposal::open(id, title, target, base, head, now) {
        Ok(p) => p,
        Err(e) => {
            return Err(Error::Review(e));
        },
    };
    match Event::opened(event_id, title, event_target, event_base, author.duplicate(), now) {
        Ok(e) => Ok((proposal, e)),
        Err(e) => Err(Error::Review(e)),
    }
}

/// Who a hand-over is for.
#[derive(Debug, Clone, Copy, PartialEq, Eq)]
pub enum Reader {
    /// A person, who runs the commands themselves.
    Person,
    /// An agent a runner hands the notes to.
    Agent,
}

/// The review handed over to whoever reads it.
pub fn handover(proposal: &Proposal, reader: Reader) -> (s: String)
    ensures
        s@ == match reader {
            Reader::Person => handover_text(proposal@),
            Reader::Agent => brief_text(proposal@),
        },
{
    match reader {
        Reader::Person => crate::handover::handover(proposal),
        Reader::Agent => crate::handover::brief(proposal),
    }
}

/// What happened when a proposal landed: the proposal in its new state, and
/// whatever had to follow it.
#[derive(Debug, Clone)]
pub struct Landing {
    proposal: Proposal,
    followed: Vec<ProposalId>,
}

/// What a landing says: the proposal, and the names of those that followed.
pub struct LandingView {
    pub proposal: ProposalView,
    pub followed: Seq<Seq<char>>,
}

impl View for Landing {
    type V = LandingView;

    closed spec fn view(&self) -> LandingView {
        LandingView {
            proposal: self.proposal@,
            followed: self.followed@.map_values(|i: ProposalId| i@),
        }
    }
}

impl Landing {
    /// The landing of a proposal, and the proposals that moved with it.
    pub fn new(proposal: Proposal, followed: Vec<ProposalId>) -> (l: Landing)
        ensures
            l@.proposal == proposal@,
            l@.followed == followed@.map_values(|i: ProposalId| i@),
    {
        Landing { proposal, followed }
    }

    /// The proposal that landed.
    pub fn proposal(&self) -> (p: &Proposal)
        ensures
            p@ == self@.proposal,
    {
        &self.proposal
    }

    /// The proposals that were stacked on it and now land on its target.
    pub fn followed(&self) -> (s: &[ProposalId])
        ensures
            s@.map_values(|i: ProposalId| i@) == self@.followed,
    {
        self.followed.as_slice()
    }
}

/// Whether an open proposal was stacked on one that just landed: it lands
/// on another branch, and that branch's tip (when there is one) is the head
/// that landed.
pub fn stacked_on(stacked: &Proposal, landed: &Proposal, tip: Option<&str>) -> (b: bool)
    ensures
        b == (stacked@.target != landed@.target && match tip {
            Some(t) => t@ == head_of(landed@).sha,
            None => false,
        }),
{
    if stacked.target().same(landed.target()) {
        return false;
    }
    match tip {
        Some(t) => crate::text::same_text(t, landed.head().sha().as_str()),
        None => false,
    }
}

} // verus!
