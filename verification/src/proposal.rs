//! The aggregate root: a proposal, its revisions, and every rule that spans
//! more than one value.
//!
//! A note belongs to a revision of this proposal, a resolution answers a note
//! this proposal has seen, and landing is refused while the head still has
//! something open. What it never does is store what it can derive: there is no
//! status field, because a status field is a second copy of the truth and it
//! goes stale.

pub mod laws;
pub mod views;

use vstd::prelude::*;

use crate::branch::Branch;
use crate::check::{Check, CheckView};
use crate::chunk::{Chunk, ChunkView};
use crate::comment::{Comment, CommentView};
use crate::errors::{Error, ErrorView};
use crate::identity::{ProposalId, RecordId, Sha};
use crate::rationale::{Rationale, RationaleView};
use crate::record::{Record, RecordView};
use crate::reply::{Reply, ReplyView};
use crate::text::{copy_str, same_text, text_less, text_lt, trim, trimmed};
use crate::timestamp::Timestamp;
use crate::work::{Dispatch, DispatchView, Work, WorkView};

verus! {

/// Where a proposal is in its short life. There is no state for "in review",
/// because a proposal is always in review while it is open.
#[derive(Debug, Clone, Copy, PartialEq, Eq, Hash)]
pub enum State {
    /// Still being reviewed.
    Open,
    /// It reached its target branch.
    Landed,
    /// It will not be landing.
    Abandoned,
}

/// The word the wire format uses for a state.
pub open spec fn state_word(state: State) -> Seq<char> {
    match state {
        State::Open => "open"@,
        State::Landed => "landed"@,
        State::Abandoned => "abandoned"@,
    }
}

/// The state a word names, if this build knows it.
pub open spec fn state_named(word: Seq<char>) -> Option<State> {
    if word == state_word(State::Open) {
        Some(State::Open)
    } else if word == state_word(State::Landed) {
        Some(State::Landed)
    } else if word == state_word(State::Abandoned) {
        Some(State::Abandoned)
    } else {
        None
    }
}

/// Reading a state's word gives the state back.
pub proof fn law_state_word_round_trip(state: State)
    ensures
        state_named(state_word(state)) == Some(state),
{
    reveal_strlit("open");
    reveal_strlit("landed");
    reveal_strlit("abandoned");
    assert("open"@[0] != "landed"@[0]);
    assert("landed"@[0] != "abandoned"@[0]);
    assert("open"@[0] != "abandoned"@[0]);
}

impl State {
    /// Read a state off the wire or a command line.
    pub fn parse(raw: &str) -> (r: Result<State, Error>)
        ensures
            state_named(raw@) matches Some(s) ==> r == Ok::<State, Error>(s),
            state_named(raw@) is None ==> (r matches Err(Error::UnknownState(t)) && t@ == raw@),
    {
        if same_text(raw, "open") {
            Ok(State::Open)
        } else if same_text(raw, "landed") {
            Ok(State::Landed)
        } else if same_text(raw, "abandoned") {
            Ok(State::Abandoned)
        } else {
            Err(Error::UnknownState(copy_str(raw)))
        }
    }

    /// The word the wire format uses.
    pub fn as_str(self) -> (s: &'static str)
        ensures
            s@ == state_word(self),
    {
        match self {
            State::Open => "open",
            State::Landed => "landed",
            State::Abandoned => "abandoned",
        }
    }

    /// Whether a proposal in this state is still being reviewed.
    pub fn is_open(self) -> (b: bool)
        ensures
            b == (self == State::Open),
    {
        match self {
            State::Open => true,
            _ => false,
        }
    }
}

/// One attempt at a proposal: a commit, and where it sits in the sequence.
#[derive(Debug, Clone, PartialEq, Eq)]
pub struct Revision {
    number: u32,
    sha: Sha,
}

/// What a revision is: its place in the sequence and its commit.
pub struct RevisionView {
    pub number: u32,
    pub sha: Seq<char>,
}

impl View for Revision {
    type V = RevisionView;

    closed spec fn view(&self) -> RevisionView {
        RevisionView { number: self.number, sha: self.sha@ }
    }
}

impl Revision {
    /// Rebuild a revision that was already written down.
    pub fn new(number: u32, sha: Sha) -> (r: Revision)
        ensures
            r@ == (RevisionView { number, sha: sha@ }),
    {
        Revision { number, sha }
    }

    /// Its place in the sequence, starting at one.
    pub fn number(&self) -> (n: u32)
        ensures
            n == self@.number,
    {
        self.number
    }

    /// The commit it points at.
    pub fn sha(&self) -> (s: &Sha)
        ensures
            s@ == self@.sha,
    {
        &self.sha
    }

    /// A copy of it.
    pub fn duplicate(&self) -> (r: Revision)
        ensures
            r@ == self@,
    {
        Revision { number: self.number, sha: self.sha.duplicate() }
    }
}

/// A proposal and everything the log has said about it.
#[derive(Debug, PartialEq, Eq)]
pub struct Proposal {
    id: ProposalId,
    title: String,
    target: Branch,
    base: Sha,
    state: State,
    opened_at: Timestamp,
    ended_at: Option<Timestamp>,
    /// Revision one, kept apart from the rest so that "a proposal always has a
    /// head" is a fact of the type rather than an invariant to remember.
    first: Revision,
    later: Vec<Revision>,
    comments: Vec<Comment>,
    resolved: Vec<RecordId>,
    /// The last result under each name, ascending by name.
    checks: Vec<Check>,
    chunks: Vec<Chunk>,
    rationale: Vec<Rationale>,
    work: Vec<Work>,
    asks: Vec<Dispatch>,
    answers: Vec<Reply>,
}

/// What a proposal adds up to.
pub struct ProposalView {
    pub id: Seq<char>,
    pub title: Seq<char>,
    pub target: Seq<char>,
    pub base: Seq<char>,
    pub state: State,
    pub opened_at: i64,
    pub ended_at: Option<i64>,
    /// Every attempt, oldest first; never empty.
    pub revisions: Seq<RevisionView>,
    pub comments: Seq<CommentView>,
    /// The notes somebody said were answered.
    pub resolved: Seq<Seq<char>>,
    /// The last result under each name, ascending by name.
    pub checks: Seq<CheckView>,
    pub chunks: Seq<ChunkView>,
    pub rationale: Seq<RationaleView>,
    pub work: Seq<WorkView>,
    pub asks: Seq<DispatchView>,
    pub answers: Seq<ReplyView>,
}

impl View for Proposal {
    type V = ProposalView;

    closed spec fn view(&self) -> ProposalView {
        ProposalView {
            id: self.id@,
            title: self.title@,
            target: self.target@,
            base: self.base@,
            state: self.state,
            opened_at: self.opened_at@,
            ended_at: match self.ended_at {
                Some(t) => Some(t@),
                None => None,
            },
            revisions: seq![self.first@] + self.later@.map_values(|r: Revision| r@),
            comments: self.comments@.map_values(|c: Comment| c@),
            resolved: self.resolved@.map_values(|r: RecordId| r@),
            checks: self.checks@.map_values(|c: Check| c@),
            chunks: self.chunks@.map_values(|c: Chunk| c@),
            rationale: self.rationale@.map_values(|r: Rationale| r@),
            work: self.work@.map_values(|w: Work| w@),
            asks: self.asks@.map_values(|d: Dispatch| d@),
            answers: self.answers@.map_values(|r: Reply| r@),
        }
    }
}

/// The number the revision at `index` carries: one more than the one before,
/// stopping at the largest `u32`.
pub open spec fn revision_number(index: int) -> u32 {
    if index + 1 <= u32::MAX {
        (index + 1) as u32
    } else {
        u32::MAX
    }
}

/// The revision being reviewed: the latest.
pub open spec fn head_of(p: ProposalView) -> RevisionView {
    p.revisions.last()
}

/// Whether the proposal carries a revision for that commit.
pub open spec fn knows_revision(p: ProposalView, sha: Seq<char>) -> bool {
    carries(p.revisions, sha)
}

/// Whether one of `revisions` is that commit.
pub open spec fn carries(revisions: Seq<RevisionView>, sha: Seq<char>) -> bool {
    exists|i: int| 0 <= i < revisions.len() && #[trigger] revisions[i].sha == sha
}

/// Whether the proposal carries a note by that id.
pub open spec fn has_comment(p: ProposalView, id: Seq<char>) -> bool {
    exists|i: int| 0 <= i < p.comments.len() && #[trigger] p.comments[i].id == id
}

/// Whether an explanation by that id is among `s`.
pub open spec fn has_rationale(s: Seq<RationaleView>, id: Seq<char>) -> bool {
    exists|i: int| 0 <= i < s.len() && #[trigger] s[i].id == id
}

/// Whether an answer by that id is among `s`.
pub open spec fn has_reply(s: Seq<ReplyView>, id: Seq<char>) -> bool {
    exists|i: int| 0 <= i < s.len() && #[trigger] s[i].id == id
}

/// Where a result named `name` goes among results ascending by name: after
/// every one whose name sorts before it.
pub open spec fn check_position(checks: Seq<CheckView>, name: Seq<char>) -> int
    decreases checks.len(),
{
    if checks.len() > 0 && text_lt(checks[0].name, name) {
        1 + check_position(checks.drop_first(), name)
    } else {
        0
    }
}

/// The results after recording `c`: it replaces the result under its name, or
/// joins them in name order.
pub open spec fn put_check(checks: Seq<CheckView>, c: CheckView) -> Seq<CheckView> {
    let i = check_position(checks, c.name);
    if i < checks.len() && checks[i].name == c.name {
        checks.update(i, c)
    } else {
        checks.insert(i, c)
    }
}

/// Whether results are strictly ascending by name, so no name occurs twice.
pub open spec fn names_ascending(checks: Seq<CheckView>) -> bool {
    forall|i: int, j: int|
        0 <= i < j < checks.len() ==> text_lt(#[trigger] checks[i].name, #[trigger] checks[j].name)
}

/// What the log keeps true of every proposal it builds.
pub open spec fn proposal_wf(p: ProposalView) -> bool {
    &&& p.revisions.len() >= 1
    &&& forall|i: int| 0 <= i < p.revisions.len() ==> #[trigger] p.revisions[i].number == revision_number(i)
    &&& forall|i: int, j: int|
        0 <= i < j < p.revisions.len() ==> #[trigger] p.revisions[i].sha != #[trigger] p.revisions[j].sha
    &&& names_ascending(p.checks)
    &&& forall|i: int| 0 <= i < p.comments.len() ==> knows_revision(p, #[trigger] p.comments[i].revision)
    &&& forall|i: int| 0 <= i < p.checks.len() ==> knows_revision(p, #[trigger] p.checks[i].revision)
    &&& forall|i: int| 0 <= i < p.rationale.len() ==> knows_revision(p, #[trigger] p.rationale[i].revision)
    &&& p.resolved.no_duplicates()
}

/// A revision known before another is added is still known after.
proof fn lemma_knows_after_push(p: ProposalView, r: RevisionView, sha: Seq<char>)
    requires
        knows_revision(p, sha),
    ensures
        knows_revision(ProposalView { revisions: p.revisions.push(r), ..p }, sha),
{
    let i = choose|i: int| 0 <= i < p.revisions.len() && #[trigger] p.revisions[i].sha == sha;
    assert(p.revisions.push(r)[i].sha == sha);
    assert(carries(p.revisions.push(r), sha));
}

/// Adding a revision nobody has seen keeps a proposal well formed.
proof fn lemma_add_revision_keeps_wf(p: ProposalView, sha: Seq<char>)
    requires
        proposal_wf(p),
        !knows_revision(p, sha),
    ensures
        proposal_wf(
            ProposalView {
                revisions: p.revisions.push(
                    RevisionView { number: revision_number(p.revisions.len() as int), sha },
                ),
                ..p
            },
        ),
{
    let r = RevisionView { number: revision_number(p.revisions.len() as int), sha };
    let q = ProposalView { revisions: p.revisions.push(r), ..p };
    assert forall|i: int, j: int| 0 <= i < j < q.revisions.len() implies #[trigger] q.revisions[i].sha
        != #[trigger] q.revisions[j].sha by {
        if j == p.revisions.len() {
            assert(p.revisions[i].sha != sha);
        }
    }
    assert forall|i: int| 0 <= i < q.comments.len() implies knows_revision(q, #[trigger] q.comments[i].revision) by {
        lemma_knows_after_push(p, r, p.comments[i].revision);
    }
    assert forall|i: int| 0 <= i < q.checks.len() implies knows_revision(q, #[trigger] q.checks[i].revision) by {
        lemma_knows_after_push(p, r, p.checks[i].revision);
    }
    assert forall|i: int| 0 <= i < q.rationale.len() implies knows_revision(q, #[trigger] q.rationale[i].revision) by {
        lemma_knows_after_push(p, r, p.rationale[i].revision);
    }
}

/// Folding a record in keeps a proposal well formed.
proof fn lemma_apply_keeps_wf(p: ProposalView, r: RecordView)
    requires
        proposal_wf(p),
        apply_spec(p, r) is Ok,
    ensures
        proposal_wf(apply_spec(p, r)->Ok_0),
{
    let q = apply_spec(p, r)->Ok_0;
    match r {
        RecordView::Check(c) => {
            lemma_put_check_ascending(p.checks, c);
            lemma_put_check_elements(p.checks, c);
            assert forall|i: int| 0 <= i < q.checks.len() implies knows_revision(q, #[trigger] q.checks[i].revision) by {
                if q.checks[i] != c {
                    let j = choose|j: int| 0 <= j < p.checks.len() && p.checks[j] == q.checks[i];
                    assert(knows_revision(p, p.checks[j].revision));
                }
            }
        },
        RecordView::Comment(c) => {
            assert forall|i: int| 0 <= i < q.comments.len() implies knows_revision(q, #[trigger] q.comments[i].revision) by {
                if i < p.comments.len() {
                    assert(q.comments[i] == p.comments[i]);
                }
            }
        },
        RecordView::Rationale(c) => {
            assert forall|i: int| 0 <= i < q.rationale.len() implies knows_revision(q, #[trigger] q.rationale[i].revision) by {
                if i < p.rationale.len() {
                    assert(q.rationale[i] == p.rationale[i]);
                }
            }
        },
        RecordView::Resolve(x) => {
            if !p.resolved.contains(x.target) {
                assert forall|i: int, j: int|
                    0 <= i < q.resolved.len() && 0 <= j < q.resolved.len() && i != j implies q.resolved[i]
                    != q.resolved[j] by {
                    if i < p.resolved.len() && j < p.resolved.len() {
                        assert(q.resolved[i] == p.resolved[i]);
                        assert(q.resolved[j] == p.resolved[j]);
                    } else if i < p.resolved.len() {
                        assert(q.resolved[i] == p.resolved[i]);
                    } else {
                        assert(q.resolved[j] == p.resolved[j]);
                    }
                }
            }
        },
        _ => {},
    }
}

/// Every result after recording `c` is `c` or one that was there before.
proof fn lemma_put_check_elements(checks: Seq<CheckView>, c: CheckView)
    ensures
        forall|k: int| 0 <= k < put_check(checks, c).len() ==> #[trigger] put_check(checks, c)[k] == c || exists|j: int| 0 <= j < checks.len() && checks[j] == put_check(checks, c)[k],
{
    lemma_check_position(checks, c.name);
    let i = check_position(checks, c.name);
    let r = put_check(checks, c);
    assert forall|k: int| 0 <= k < r.len() implies #[trigger] r[k] == c || exists|j: int| 0 <= j < checks.len() && checks[j] == r[k] by {
        if i < checks.len() && checks[i].name == c.name {
            if k != i {
                assert(checks[k] == r[k]);
            }
        } else {
            if k < i {
                assert(checks[k] == r[k]);
            } else if k > i {
                assert(checks[k - 1] == r[k]);
            }
        }
    }
}

/// What folding one record into a proposal does: the proposal it becomes, or
/// why it is refused. Applying the same record twice changes nothing, and a
/// later result under a name replaces the earlier one.
pub open spec fn apply_spec(p: ProposalView, r: RecordView) -> Result<ProposalView, ErrorView> {
    if p.state != State::Open {
        Err(ErrorView::NotOpen(p.state))
    } else {
        match r {
            RecordView::Comment(c) => if !knows_revision(p, c.revision) {
                Err(ErrorView::UnknownRevision(c.revision))
            } else if has_comment(p, c.id) {
                Ok(p)
            } else {
                Ok(ProposalView { comments: p.comments.push(c), ..p })
            },
            RecordView::Rationale(x) => if !knows_revision(p, x.revision) {
                Err(ErrorView::UnknownRevision(x.revision))
            } else if has_rationale(p.rationale, x.id) {
                Ok(p)
            } else {
                Ok(ProposalView { rationale: p.rationale.push(x), ..p })
            },
            RecordView::Reply(x) => if !has_comment(p, x.target) {
                Err(ErrorView::UnknownComment(x.target))
            } else if has_reply(p.answers, x.id) {
                Ok(p)
            } else {
                Ok(ProposalView { answers: p.answers.push(x), ..p })
            },
            RecordView::Resolve(x) => if !has_comment(p, x.target) {
                Err(ErrorView::UnknownComment(x.target))
            } else if p.resolved.contains(x.target) {
                Ok(p)
            } else {
                Ok(ProposalView { resolved: p.resolved.push(x.target), ..p })
            },
            RecordView::Check(c) => if !knows_revision(p, c.revision) {
                Err(ErrorView::UnknownRevision(c.revision))
            } else {
                Ok(ProposalView { checks: put_check(p.checks, c), ..p })
            },
            RecordView::Chunk(c) => if p.chunks.contains(c) {
                Ok(p)
            } else {
                Ok(ProposalView { chunks: p.chunks.push(c), ..p })
            },
            RecordView::Work(w) => if p.work.contains(w) {
                Ok(p)
            } else {
                Ok(ProposalView { work: p.work.push(w), ..p })
            },
            RecordView::Dispatch(d) => if p.asks.contains(d) {
                Ok(p)
            } else {
                Ok(ProposalView { asks: p.asks.push(d), ..p })
            },
        }
    }
}

/// What a run of records says.
pub open spec fn record_views(records: Seq<Record>) -> Seq<RecordView> {
    records.map_values(|x: Record| x@)
}

/// Whether a record names a note: a reply or a resolution.
pub open spec fn is_answer(r: RecordView) -> bool {
    r is Reply || r is Resolve
}

/// Fold records in order, stopping at the first refusal: the proposal as it
/// stood when folding stopped, and the refusal if there was one.
pub open spec fn apply_all(p: ProposalView, records: Seq<RecordView>) -> (
    ProposalView,
    Option<ErrorView>,
)
    decreases records.len(),
{
    if records.len() == 0 {
        (p, None)
    } else {
        let (q, e) = apply_all(p, records.drop_last());
        if e is Some {
            (q, e)
        } else {
            match apply_spec(q, records.last()) {
                Ok(next) => (next, None),
                Err(x) => (q, Some(x)),
            }
        }
    }
}

/// Fold a whole log: everything that is not an answer first, then the
/// answers, each in the order the log delivered them.
pub open spec fn fold_spec(p: ProposalView, records: Seq<RecordView>) -> (
    ProposalView,
    Option<ErrorView>,
) {
    let (q, e) = apply_all(p, records.filter(|r: RecordView| !is_answer(r)));
    if e is Some {
        (q, e)
    } else {
        apply_all(q, records.filter(|r: RecordView| is_answer(r)))
    }
}

/// Inserting or replacing a result keeps the results ascending by name.
proof fn lemma_put_check_ascending(checks: Seq<CheckView>, c: CheckView)
    requires
        names_ascending(checks),
    ensures
        names_ascending(put_check(checks, c)),
        0 <= check_position(checks, c.name) <= checks.len(),
        forall|k: int| 0 <= k < check_position(checks, c.name) ==> text_lt(#[trigger] checks[k].name, c.name),
        check_position(checks, c.name) < checks.len() ==> !text_lt(checks[check_position(checks, c.name)].name, c.name),
{
    lemma_check_position(checks, c.name);
    let i = check_position(checks, c.name);
    let r = put_check(checks, c);
    if i < checks.len() && checks[i].name == c.name {
        assert forall|a: int, b: int| 0 <= a < b < r.len() implies text_lt(
            #[trigger] r[a].name,
            #[trigger] r[b].name,
        ) by {
            assert(r[a].name == checks[a].name);
            assert(r[b].name == checks[b].name);
        }
    } else {
        if i < checks.len() {
            crate::text::lemma_text_lt_total(checks[i].name, c.name);
        }
        assert forall|a: int, b: int| 0 <= a < b < r.len() implies text_lt(
            #[trigger] r[a].name,
            #[trigger] r[b].name,
        ) by {
            if b < i {
                assert(r[a] == checks[a] && r[b] == checks[b]);
            } else if b == i {
                assert(r[a] == checks[a]);
            } else if a == i {
                assert(r[b] == checks[b - 1]);
                if b - 1 > i {
                    assert(text_lt(checks[i].name, checks[b - 1].name));
                    crate::text::lemma_text_lt_transitive(c.name, checks[i].name, checks[b - 1].name);
                }
            } else if a < i {
                assert(r[a] == checks[a] && r[b] == checks[b - 1]);
                if a < b - 1 {
                    assert(text_lt(checks[a].name, checks[b - 1].name));
                } else {
                    assert(false);
                }
            } else {
                assert(r[a] == checks[a - 1] && r[b] == checks[b - 1]);
            }
        }
    }
}

/// The position is where the names stop sorting before `name`.
proof fn lemma_check_position(checks: Seq<CheckView>, name: Seq<char>)
    ensures
        0 <= check_position(checks, name) <= checks.len(),
        forall|k: int| 0 <= k < check_position(checks, name) ==> text_lt(#[trigger] checks[k].name, name),
        check_position(checks, name) < checks.len() ==> !text_lt(checks[check_position(checks, name)].name, name),
    decreases checks.len(),
{
    if checks.len() > 0 && text_lt(checks[0].name, name) {
        lemma_check_position(checks.drop_first(), name);
        assert forall|k: int| 0 <= k < check_position(checks, name) implies text_lt(
            #[trigger] checks[k].name,
            name,
        ) by {
            if k > 0 {
                assert(checks[k] == checks.drop_first()[k - 1]);
            }
        }
    }
}

/// A refusal part way through a fold stands however many records follow it.
proof fn lemma_apply_all_error_persists(p: ProposalView, s: Seq<RecordView>, t: Seq<RecordView>)
    requires
        s.len() <= t.len(),
        t.take(s.len() as int) == s,
        apply_all(p, s).1 is Some,
    ensures
        apply_all(p, t) == apply_all(p, s),
    decreases t.len(),
{
    if t.len() > s.len() {
        assert(t.drop_last().take(s.len() as int) =~= s);
        lemma_apply_all_error_persists(p, s, t.drop_last());
    } else {
        assert(t =~= s);
    }
}

/// Record a result, replacing the last one under its name.
fn put_check_into(checks: &mut Vec<Check>, check: Check)
    ensures
        final(checks)@.map_values(|c: Check| c@) == put_check(
            old(checks)@.map_values(|c: Check| c@),
            check@,
        ),
{
    let ghost before = checks@.map_values(|c: Check| c@);
    let mut i: usize = 0;
    assert(before.skip(0) =~= before);
    while i < checks.len() && text_less(checks[i].name().as_str(), check.name().as_str())
        invariant
            i <= checks@.len(),
            before == checks@.map_values(|c: Check| c@),
            check_position(before, check@.name) == i + check_position(before.skip(i as int), check@.name),
        decreases checks.len() - i,
    {
        assert(before.skip(i as int).drop_first() =~= before.skip(i + 1));
        assert(before.skip(i as int)[0] == before[i as int]);
        i = i + 1;
    }
    assert(check_position(before, check@.name) == i) by {
        if i < before.len() {
            assert(before.skip(i as int)[0] == before[i as int]);
        }
    }
    if i < checks.len() && checks[i].name().same(check.name()) {
        checks.set(i, check);
    } else {
        checks.insert(i, check);
    }
    assert(checks@.map_values(|c: Check| c@) =~= put_check(before, check@));
}

/// The revisions, each copied.
fn copy_revisions(v: &Vec<Revision>) -> (r: Vec<Revision>)
    ensures
        r@.map_values(|x: Revision| x@) == v@.map_values(|x: Revision| x@),
{
    let mut r: Vec<Revision> = Vec::new();
    let mut i: usize = 0;
    while i < v.len()
        invariant
            i <= v@.len(),
            r@.map_values(|x: Revision| x@) == v@.take(i as int).map_values(|x: Revision| x@),
        decreases v.len() - i,
    {
        r.push(v[i].duplicate());
        assert(v@.take(i + 1).map_values(|x: Revision| x@) =~= v@.take(i as int).map_values(
            |x: Revision| x@,
        ).push(v@[i as int]@));
        i = i + 1;
    }
    assert(v@.take(v@.len() as int) =~= v@);
    r
}

impl Clone for Proposal {
    fn clone(&self) -> (r: Proposal)
        ensures
            r@ == self@,
    {
        proof {
            use_type_invariant(self);
        }
        let comments = self.comments.clone();
        assert(comments@.map_values(|x: Comment| x@) =~= self.comments@.map_values(|x: Comment| x@)) by {
            assert forall|k: int| 0 <= k < comments@.len() implies #[trigger] comments@[k]@ == self.comments@[k]@ by {
                assert(cloned(self.comments@[k], comments@[k]));
            }
        }
        let resolved = self.resolved.clone();
        assert(resolved@.map_values(|x: RecordId| x@) =~= self.resolved@.map_values(|x: RecordId| x@)) by {
            assert forall|k: int| 0 <= k < resolved@.len() implies #[trigger] resolved@[k]@ == self.resolved@[k]@ by {
                assert(cloned(self.resolved@[k], resolved@[k]));
            }
        }
        let checks = self.checks.clone();
        assert(checks@.map_values(|x: Check| x@) =~= self.checks@.map_values(|x: Check| x@)) by {
            assert forall|k: int| 0 <= k < checks@.len() implies #[trigger] checks@[k]@ == self.checks@[k]@ by {
                assert(cloned(self.checks@[k], checks@[k]));
            }
        }
        let chunks = self.chunks.clone();
        assert(chunks@.map_values(|x: Chunk| x@) =~= self.chunks@.map_values(|x: Chunk| x@)) by {
            assert forall|k: int| 0 <= k < chunks@.len() implies #[trigger] chunks@[k]@ == self.chunks@[k]@ by {
                assert(cloned(self.chunks@[k], chunks@[k]));
            }
        }
        let rationale = self.rationale.clone();
        assert(rationale@.map_values(|x: Rationale| x@) =~= self.rationale@.map_values(|x: Rationale| x@)) by {
            assert forall|k: int| 0 <= k < rationale@.len() implies #[trigger] rationale@[k]@ == self.rationale@[k]@ by {
                assert(cloned(self.rationale@[k], rationale@[k]));
            }
        }
        let work = self.work.clone();
        assert(work@.map_values(|x: Work| x@) =~= self.work@.map_values(|x: Work| x@)) by {
            assert forall|k: int| 0 <= k < work@.len() implies #[trigger] work@[k]@ == self.work@[k]@ by {
                assert(cloned(self.work@[k], work@[k]));
            }
        }
        let asks = self.asks.clone();
        assert(asks@.map_values(|x: Dispatch| x@) =~= self.asks@.map_values(|x: Dispatch| x@)) by {
            assert forall|k: int| 0 <= k < asks@.len() implies #[trigger] asks@[k]@ == self.asks@[k]@ by {
                assert(cloned(self.asks@[k], asks@[k]));
            }
        }
        let answers = self.answers.clone();
        assert(answers@.map_values(|x: Reply| x@) =~= self.answers@.map_values(|x: Reply| x@)) by {
            assert forall|k: int| 0 <= k < answers@.len() implies #[trigger] answers@[k]@ == self.answers@[k]@ by {
                assert(cloned(self.answers@[k], answers@[k]));
            }
        }
        let r = Proposal {
            id: self.id.clone(),
            title: self.title.clone(),
            target: self.target.clone(),
            base: self.base.clone(),
            state: self.state,
            opened_at: self.opened_at,
            ended_at: self.ended_at,
            first: self.first.duplicate(),
            later: copy_revisions(&self.later),
            comments,
            resolved,
            checks,
            chunks,
            rationale,
            work,
            asks,
            answers,
        };
        r
    }
}

impl Proposal {
    /// Every proposal is opened well formed, and every change keeps it so.
    #[verifier::type_invariant]
    pub(crate) closed spec fn wf(self) -> bool {
        proposal_wf(self@)
    }

    /// What the invariant says of the proposal.
    pub(crate) proof fn lemma_wf(p: Proposal)
        requires
            p.wf(),
        ensures
            proposal_wf(p@),
    {
    }

    /// Open a proposal at its first revision. The target is whichever branch
    /// this is meant to land on, which is often the trunk and need not be.
    /// A blank title is refused, and so is a head that is the base: a
    /// proposal must move past where it was cut from.
    pub fn open(
        id: ProposalId,
        title: &str,
        target: Branch,
        base: Sha,
        head: Sha,
        opened_at: Timestamp,
    ) -> (r: Result<Proposal, Error>)
        ensures
            trimmed(title@).len() == 0 ==> r matches Err(Error::NoTitle),
            trimmed(title@).len() > 0 && base@ == head@ ==> r matches Err(Error::NothingProposed),
            trimmed(title@).len() > 0 && base@ != head@ ==> (r matches Ok(p) && proposal_wf(p@)
                && p@ == (ProposalView {
                id: id@,
                title: trimmed(title@),
                target: target@,
                base: base@,
                state: State::Open,
                opened_at: opened_at@,
                ended_at: None,
                revisions: seq![RevisionView { number: 1, sha: head@ }],
                comments: Seq::empty(),
                resolved: Seq::empty(),
                checks: Seq::empty(),
                chunks: Seq::empty(),
                rationale: Seq::empty(),
                work: Seq::empty(),
                asks: Seq::empty(),
                answers: Seq::empty(),
            })),
    {
        let title = trim(title);
        if title.as_str().is_empty() {
            return Err(Error::NoTitle);
        }
        if base.same(&head) {
            return Err(Error::NothingProposed);
        }
        let p = Proposal {
            id,
            title,
            target,
            base,
            state: State::Open,
            opened_at,
            ended_at: None,
            first: Revision::new(1, head),
            later: Vec::new(),
            comments: Vec::new(),
            resolved: Vec::new(),
            checks: Vec::new(),
            chunks: Vec::new(),
            rationale: Vec::new(),
            work: Vec::new(),
            asks: Vec::new(),
            answers: Vec::new(),
        };
        assert(p@.revisions =~= seq![RevisionView { number: 1, sha: p.first.sha@ }]);
        assert(p@.comments =~= Seq::empty());
        assert(p@.resolved =~= Seq::empty());
        assert(p@.checks =~= Seq::empty());
        assert(p@.chunks =~= Seq::empty());
        assert(p@.rationale =~= Seq::empty());
        assert(p@.work =~= Seq::empty());
        assert(p@.asks =~= Seq::empty());
        assert(p@.answers =~= Seq::empty());
        Ok(p)
    }

    fn must_be_open(&self) -> (r: Result<(), Error>)
        ensures
            self@.state == State::Open ==> r is Ok,
            self@.state != State::Open ==> (r matches Err(e) && e@ == ErrorView::NotOpen(
                self@.state,
            )),
    {
        if self.state.is_open() {
            Ok(())
        } else {
            Err(Error::NotOpen(self.state))
        }
    }

    fn knows(&self, sha: &Sha) -> (b: bool)
        ensures
            b == knows_revision(self@, sha@),
    {
        if self.first.sha.same(sha) {
            assert(self@.revisions[0].sha == sha@);
            return true;
        }
        let mut i: usize = 0;
        while i < self.later.len()
            invariant
                i <= self.later@.len(),
                self.first@.sha != sha@,
                forall|k: int| 0 <= k < i ==> (#[trigger] self.later@[k])@.sha != sha@,
            decreases self.later.len() - i,
        {
            if self.later[i].sha.same(sha) {
                assert(self@.revisions[i + 1].sha == sha@);
                return true;
            }
            i = i + 1;
        }
        assert forall|k: int| 0 <= k < self@.revisions.len() implies #[trigger] self@.revisions[k].sha != sha@ by {
            if k > 0 {
                assert(self@.revisions[k] == self.later@[k - 1]@);
            }
        }
        false
    }

    fn knows_comment(&self, id: &RecordId) -> (b: bool)
        ensures
            b == has_comment(self@, id@),
    {
        let mut i: usize = 0;
        while i < self.comments.len()
            invariant
                i <= self.comments@.len(),
                forall|k: int| 0 <= k < i ==> (#[trigger] self.comments@[k])@.id != id@,
            decreases self.comments.len() - i,
        {
            if self.comments[i].id().same(id) {
                assert(self@.comments[i as int].id == id@);
                return true;
            }
            i = i + 1;
        }
        assert forall|k: int| 0 <= k < self@.comments.len() implies #[trigger] self@.comments[k].id != id@ by {
            assert(self@.comments[k] == self.comments@[k]@);
        }
        false
    }

    fn knows_rationale(&self, id: &RecordId) -> (b: bool)
        ensures
            b == has_rationale(self@.rationale, id@),
    {
        let mut i: usize = 0;
        while i < self.rationale.len()
            invariant
                i <= self.rationale@.len(),
                forall|k: int| 0 <= k < i ==> (#[trigger] self.rationale@[k])@.id != id@,
            decreases self.rationale.len() - i,
        {
            if self.rationale[i].id().same(id) {
                assert(self@.rationale[i as int].id == id@);
                return true;
            }
            i = i + 1;
        }
        assert forall|k: int| 0 <= k < self@.rationale.len() implies #[trigger] self@.rationale[k].id != id@ by {
            assert(self@.rationale[k] == self.rationale@[k]@);
        }
        false
    }

    fn knows_answer(&self, id: &RecordId) -> (b: bool)
        ensures
            b == has_reply(self@.answers, id@),
    {
        let mut i: usize = 0;
        while i < self.answers.len()
            invariant
                i <= self.answers@.len(),
                forall|k: int| 0 <= k < i ==> (#[trigger] self.answers@[k])@.id != id@,
            decreases self.answers.len() - i,
        {
            if self.answers[i].id().same(id) {
                assert(self@.answers[i as int].id == id@);
                return true;
            }
            i = i + 1;
        }
        assert forall|k: int| 0 <= k < self@.answers.len() implies #[trigger] self@.answers[k].id != id@ by {
            assert(self@.answers[k] == self.answers@[k]@);
        }
        false
    }

    fn resolves(&self, id: &RecordId) -> (b: bool)
        ensures
            b == self@.resolved.contains(id@),
    {
        let mut i: usize = 0;
        while i < self.resolved.len()
            invariant
                i <= self.resolved@.len(),
                forall|k: int| 0 <= k < i ==> (#[trigger] self.resolved@[k])@ != id@,
            decreases self.resolved.len() - i,
        {
            if self.resolved[i].same(id) {
                assert(self@.resolved[i as int] == id@);
                return true;
            }
            i = i + 1;
        }
        assert forall|k: int| 0 <= k < self@.resolved.len() implies #[trigger] self@.resolved[k] != id@ by {
            assert(self@.resolved[k] == self.resolved@[k]@);
        }
        false
    }

    /// Add the commit an agent produced after reading the annotations. A
    /// proposal that is no longer open is refused, and so is a revision it
    /// already carries.
    pub fn add_revision(&mut self, sha: Sha) -> (r: Result<(), Error>)
        ensures
            proposal_wf(final(self)@),
            old(self)@.state != State::Open ==> (r matches Err(e) && e@ == ErrorView::NotOpen(
                old(self)@.state,
            ) && final(self)@ == old(self)@),
            old(self)@.state == State::Open && knows_revision(old(self)@, sha@) ==> (r matches Err(
                e,
            ) && e@ == ErrorView::RevisionKnown(sha@) && final(self)@ == old(self)@),
            old(self)@.state == State::Open && !knows_revision(old(self)@, sha@) ==> (r is Ok
                && final(self)@ == (ProposalView {
                revisions: old(self)@.revisions.push(
                    RevisionView { number: revision_number(old(self)@.revisions.len() as int), sha: sha@ },
                ),
                ..old(self)@
            })),
    {
        proof {
            use_type_invariant(&*self);
            Proposal::lemma_wf(*self);
        }
        self.must_be_open()?;
        if self.knows(&sha) {
            return Err(Error::RevisionKnown(sha));
        }
        let number = self.head().number().saturating_add(1);
        let ghost before = self@;
        proof {
            lemma_add_revision_keeps_wf(before, sha@);
        }
        let mut later = copy_revisions(&self.later);
        let ghost added = RevisionView { number: revision_number(before.revisions.len() as int), sha: sha@ };
        later.push(Revision::new(number, sha));
        assert(seq![self.first@] + later@.map_values(|r: Revision| r@) =~= before.revisions.push(
            added,
        ));
        self.later = later;
        assert(self@.revisions =~= before.revisions.push(
            RevisionView { number: revision_number(before.revisions.len() as int), sha: sha@ },
        ));
        assert(self@ == (ProposalView {
            revisions: before.revisions.push(
                RevisionView { number: revision_number(before.revisions.len() as int), sha: sha@ },
            ),
            ..before
        }));
        Ok(())
    }

    fn holds_chunk(&self, chunk: &Chunk) -> (b: bool)
        ensures
            b == self@.chunks.contains(chunk@),
    {
        let mut i: usize = 0;
        while i < self.chunks.len()
            invariant
                i <= self.chunks@.len(),
                self@.chunks == self.chunks@.map_values(|c: Chunk| c@),
                forall|k: int| 0 <= k < i ==> self@.chunks[k] != chunk@,
            decreases self.chunks.len() - i,
        {
            if self.chunks[i].same(chunk) {
                assert(self@.chunks[i as int] == chunk@);
                return true;
            }
            i = i + 1;
        }
        false
    }

    fn holds_work(&self, work: &Work) -> (b: bool)
        ensures
            b == self@.work.contains(work@),
    {
        let mut i: usize = 0;
        while i < self.work.len()
            invariant
                i <= self.work@.len(),
                self@.work == self.work@.map_values(|w: Work| w@),
                forall|k: int| 0 <= k < i ==> self@.work[k] != work@,
            decreases self.work.len() - i,
        {
            if self.work[i].same(work) {
                assert(self@.work[i as int] == work@);
                return true;
            }
            i = i + 1;
        }
        false
    }

    fn holds_dispatch(&self, dispatch: &Dispatch) -> (b: bool)
        ensures
            b == self@.asks.contains(dispatch@),
    {
        let mut i: usize = 0;
        while i < self.asks.len()
            invariant
                i <= self.asks@.len(),
                self@.asks == self.asks@.map_values(|d: Dispatch| d@),
                forall|k: int| 0 <= k < i ==> self@.asks[k] != dispatch@,
            decreases self.asks.len() - i,
        {
            if self.asks[i].same(dispatch) {
                assert(self@.asks[i as int] == dispatch@);
                return true;
            }
            i = i + 1;
        }
        false
    }

    /// Fold one line of the log in. Applying the same record twice changes
    /// nothing, because the log may honestly deliver it twice. A proposal that is no longer open is
    /// refused, and so is a record about a revision it never saw or an answer
    /// to a note it does not carry; a refusal changes nothing.
    pub fn apply(&mut self, record: Record) -> (r: Result<(), Error>)
        ensures
            proposal_wf(final(self)@),
            match apply_spec(old(self)@, record@) {
                Ok(p) => r is Ok && final(self)@ == p,
                Err(e) => (r matches Err(x) && x@ == e) && final(self)@ == old(self)@,
            },
    {
        proof {
            use_type_invariant(&*self);
            Proposal::lemma_wf(*self);
        }
        self.must_be_open()?;
        let ghost before = self@;
        let ghost view = record@;
        match record {
            Record::Comment(comment) => {
                if !self.knows(comment.revision()) {
                    return Err(Error::UnknownRevision(comment.revision().duplicate()));
                }
                if !self.knows_comment(comment.id()) {
                    proof {
                        lemma_apply_keeps_wf(before, view);
                    }
                    let ghost added = comment@;
                    let mut held: Vec<Comment> = Vec::new();
                    std::mem::swap(&mut held, &mut self.comments);
                    held.push(comment);
                    assert(held@.map_values(|x: Comment| x@) =~= before.comments.push(added));
                    self.comments = held;
                }
            },
            Record::Rationale(rationale) => {
                if !self.knows(rationale.revision()) {
                    return Err(Error::UnknownRevision(rationale.revision().duplicate()));
                }
                if !self.knows_rationale(rationale.id()) {
                    proof {
                        lemma_apply_keeps_wf(before, view);
                    }
                    let ghost added = rationale@;
                    let mut held: Vec<Rationale> = Vec::new();
                    std::mem::swap(&mut held, &mut self.rationale);
                    held.push(rationale);
                    assert(held@.map_values(|x: Rationale| x@) =~= before.rationale.push(added));
                    self.rationale = held;
                }
            },
            Record::Reply(reply) => {
                if !self.knows_comment(reply.target()) {
                    return Err(Error::UnknownComment(reply.target().duplicate()));
                }
                if !self.knows_answer(reply.id()) {
                    proof {
                        lemma_apply_keeps_wf(before, view);
                    }
                    let ghost added = reply@;
                    let mut held: Vec<Reply> = Vec::new();
                    std::mem::swap(&mut held, &mut self.answers);
                    held.push(reply);
                    assert(held@.map_values(|x: Reply| x@) =~= before.answers.push(added));
                    self.answers = held;
                }
            },
            Record::Resolve(resolution) => {
                if !self.knows_comment(resolution.target()) {
                    return Err(Error::UnknownComment(resolution.target().duplicate()));
                }
                if !self.resolves(resolution.target()) {
                    proof {
                        lemma_apply_keeps_wf(before, view);
                    }
                    let mut held: Vec<RecordId> = Vec::new();
                    std::mem::swap(&mut held, &mut self.resolved);
                    held.push(resolution.target().duplicate());
                    assert(held@.map_values(|x: RecordId| x@) =~= before.resolved.push(resolution@.target));
                    self.resolved = held;
                }
            },
            Record::Check(check) => {
                if !self.knows(check.revision()) {
                    return Err(Error::UnknownRevision(check.revision().duplicate()));
                }
                proof {
                    lemma_put_check_ascending(before.checks, check@);
                    lemma_apply_keeps_wf(before, view);
                }
                let mut held: Vec<Check> = Vec::new();
                std::mem::swap(&mut held, &mut self.checks);
                put_check_into(&mut held, check);
                self.checks = held;
            },
            Record::Chunk(chunk) => {
                if !self.holds_chunk(&chunk) {
                    proof {
                        lemma_apply_keeps_wf(before, view);
                    }
                    let ghost added = chunk@;
                    let mut held: Vec<Chunk> = Vec::new();
                    std::mem::swap(&mut held, &mut self.chunks);
                    held.push(chunk);
                    assert(held@.map_values(|x: Chunk| x@) =~= before.chunks.push(added));
                    self.chunks = held;
                }
            },
            Record::Work(work) => {
                if !self.holds_work(&work) {
                    proof {
                        lemma_apply_keeps_wf(before, view);
                    }
                    let ghost added = work@;
                    let mut held: Vec<Work> = Vec::new();
                    std::mem::swap(&mut held, &mut self.work);
                    held.push(work);
                    assert(held@.map_values(|x: Work| x@) =~= before.work.push(added));
                    self.work = held;
                }
            },
            Record::Dispatch(dispatch) => {
                if !self.holds_dispatch(&dispatch) {
                    proof {
                        lemma_apply_keeps_wf(before, view);
                    }
                    let ghost added = dispatch@;
                    let mut held: Vec<Dispatch> = Vec::new();
                    std::mem::swap(&mut held, &mut self.asks);
                    held.push(dispatch);
                    assert(held@.map_values(|x: Dispatch| x@) =~= before.asks.push(added));
                    self.asks = held;
                }
            },
        }
        proof {
            lemma_apply_keeps_wf(before, view);
        }
        Ok(())
    }

    /// Fold a whole log in, answers last.
    ///
    /// A resolution and a reply name a note by its id, so the note has to be
    /// folded before they are, whatever order the log delivered them in. The
    /// proposal keeps whatever folded before a refusal; the caller is expected
    /// to abandon it.
    pub fn fold(&mut self, records: Vec<Record>) -> (r: Result<(), Error>)
        ensures
            proposal_wf(final(self)@),
            final(self)@ == fold_spec(old(self)@, record_views(records@)).0,
            match fold_spec(old(self)@, record_views(records@)).1 {
                None => r is Ok,
                Some(e) => r matches Err(x) && x@ == e,
            },
    {
        proof {
            use_type_invariant(&*self);
            Proposal::lemma_wf(*self);
        }
        let ghost views = record_views(records@);
        let ghost not_answer = |x: RecordView| !is_answer(x);
        let ghost answer = |x: RecordView| is_answer(x);
        let mut others: Vec<Record> = Vec::new();
        let mut answers: Vec<Record> = Vec::new();
        let mut i: usize = 0;
        while i < records.len()
            invariant
                i <= records@.len(),
                views == record_views(records@),
                not_answer == (|x: RecordView| !is_answer(x)),
                answer == (|x: RecordView| is_answer(x)),
                record_views(others@) == views.take(i as int).filter(not_answer),
                record_views(answers@) == views.take(i as int).filter(answer),
            decreases records.len() - i,
        {
            reveal_with_fuel(Seq::<_>::filter, 1);
            assert(views.take(i + 1).drop_last() =~= views.take(i as int));
            assert(views.take(i + 1).last() == views[i as int]);
            let ghost old_others = others@;
            let ghost old_answers = answers@;
            let record = records[i].duplicate();
            if record.is_answer_record() {
                answers.push(record);
                assert(record_views(answers@) =~= record_views(old_answers).push(views[i as int]));
                assert(record_views(others@) =~= record_views(old_others));
            } else {
                others.push(record);
                assert(record_views(others@) =~= record_views(old_others).push(views[i as int]));
                assert(record_views(answers@) =~= record_views(old_answers));
            }
            i = i + 1;
        }
        assert(views.take(records@.len() as int) =~= views);
        self.apply_each(&others)?;
        self.apply_each(&answers)
    }

    /// Fold records in order, stopping at the first refusal.
    fn apply_each(&mut self, records: &Vec<Record>) -> (r: Result<(), Error>)
        ensures
            proposal_wf(final(self)@),
            final(self)@ == apply_all(old(self)@, record_views(records@)).0,
            match apply_all(old(self)@, record_views(records@)).1 {
                None => r is Ok,
                Some(e) => r matches Err(x) && x@ == e,
            },
    {
        proof {
            use_type_invariant(&*self);
            Proposal::lemma_wf(*self);
        }
        let ghost start = self@;
        let ghost views = record_views(records@);
        let mut j: usize = 0;
        while j < records.len()
            invariant
                j <= records@.len(),
                start == old(self)@,
                views == record_views(records@),
                proposal_wf(self@),
                apply_all(start, views.take(j as int)) == (self@, None::<ErrorView>),
            decreases records.len() - j,
        {
            assert(views.take(j + 1).drop_last() =~= views.take(j as int));
            assert(views.take(j + 1).last() == views[j as int]);
            let record = records[j].duplicate();
            assert(record@ == views[j as int]);
            let ghost prev = self@;
            let applied = self.apply(record);
            if applied.is_err() {
                proof {
                    assert(apply_spec(prev, views[j as int]) is Err);
                    assert(self@ == prev);
                    assert(apply_all(start, views.take(j + 1)) == (prev, Some(apply_spec(prev, views[j as int])->Err_0)));
                    lemma_apply_all_error_persists(start, views.take(j + 1), views);
                }
                return applied;
            }
            j = j + 1;
        }
        assert(views.take(records@.len() as int) =~= views);
        Ok(())
    }

    /// Point the proposal at another branch. Nothing else moves: the base is
    /// where the work was cut from and stays true whatever it lands on. A
    /// proposal that is no longer open is refused.
    pub fn retarget(&mut self, target: Branch) -> (r: Result<(), Error>)
        ensures
            proposal_wf(final(self)@),
            old(self)@.state != State::Open ==> (r matches Err(e) && e@ == ErrorView::NotOpen(
                old(self)@.state,
            ) && final(self)@ == old(self)@),
            old(self)@.state == State::Open ==> (r is Ok && final(self)@ == (ProposalView {
                target: target@,
                ..old(self)@
            })),
    {
        proof {
            use_type_invariant(&*self);
            Proposal::lemma_wf(*self);
        }
        self.must_be_open()?;
        self.target = target;
        Ok(())
    }

    /// Record that the head revision reached the target branch, because the
    /// log says it did. This runs no gate: reading the log is not the moment
    /// to re-decide whether something that already landed was allowed to.
    pub fn mark_landed(&mut self, at: Timestamp)
        ensures
            proposal_wf(final(self)@),
            final(self)@ == (ProposalView {
                state: State::Landed,
                ended_at: Some(at@),
                ..old(self)@
            }),
    {
        proof {
            use_type_invariant(&*self);
            Proposal::lemma_wf(*self);
        }
        self.state = State::Landed;
        self.ended_at = Some(at);
    }

    /// Record that the proposal was given up on, because the log says it was.
    pub fn mark_abandoned(&mut self, at: Timestamp)
        ensures
            proposal_wf(final(self)@),
            final(self)@ == (ProposalView {
                state: State::Abandoned,
                ended_at: Some(at@),
                ..old(self)@
            }),
    {
        proof {
            use_type_invariant(&*self);
            Proposal::lemma_wf(*self);
        }
        self.state = State::Abandoned;
        self.ended_at = Some(at);
    }

    /// Give up on a proposal, which is how something that did not get in stays
    /// visible instead of disappearing. A proposal that is no longer open is
    /// refused.
    pub fn abandon(&mut self) -> (r: Result<(), Error>)
        ensures
            proposal_wf(final(self)@),
            old(self)@.state != State::Open ==> (r matches Err(e) && e@ == ErrorView::NotOpen(
                old(self)@.state,
            ) && final(self)@ == old(self)@),
            old(self)@.state == State::Open ==> (r is Ok && final(self)@ == (ProposalView {
                state: State::Abandoned,
                ..old(self)@
            })),
    {
        proof {
            use_type_invariant(&*self);
            Proposal::lemma_wf(*self);
        }
        self.must_be_open()?;
        self.state = State::Abandoned;
        Ok(())
    }
}

impl Record {
    /// Whether the record names a note: a reply or a resolution.
    pub fn is_answer_record(&self) -> (b: bool)
        ensures
            b == is_answer(self@),
    {
        match self {
            Record::Reply(_) | Record::Resolve(_) => true,
            _ => false,
        }
    }
}

} // verus!
