//! What a proposal adds up to: the derived answers both surfaces read.
//!
//! Nothing here is stored. Whether a proposal is open, whether an agent is on
//! it, whether it is waiting for one, which notes block a landing: all of it
//! is a fold over the records, computed on demand, so it cannot disagree with
//! the log.

use vstd::prelude::*;

use super::{head_of, proposal_wf, Proposal, ProposalView, Revision, RevisionView, State};
use crate::branch::Branch;
use crate::check::{Check, CheckName, CheckStatus, CheckView};
use crate::chunk::Chunk;
use crate::comment::{Comment, CommentView};
use crate::errors::{Error, ErrorView};
use crate::identity::{ProposalId, RecordId, Sha};
use crate::rationale::{Rationale, RationaleView};
use crate::reply::{Reply, ReplyView};
use crate::number::{decimal, push_decimal};
use crate::text::copy_str;
use crate::timestamp::{timestamp_text, Timestamp};
use crate::work::{
    activity, activity_spec, work_views, Activity, DispatchView, Phase, Work,
    WorkView, task_word,
};

verus! {

/// The shortest true thing that can be said about the checks on the head
/// revision, for a column in a list.
#[derive(Debug, Clone, Copy, PartialEq, Eq)]
pub enum CheckSummary {
    /// Nothing has run on the head.
    NoChecks,
    /// Everything that ran said yes.
    Passing,
    /// This many said no.
    Failed(usize),
}

/// The notes on the head revision that nobody has resolved.
pub open spec fn open_comments_of(p: ProposalView) -> Seq<CommentView> {
    p.comments.filter(
        |c: CommentView| c.revision == head_of(p).sha && !p.resolved.contains(c.id),
    )
}

/// Every note nobody has resolved, from any revision.
pub open spec fn conversation_of(p: ProposalView) -> Seq<CommentView> {
    p.comments.filter(|c: CommentView| !p.resolved.contains(c.id))
}

/// The results recorded against the head revision, ascending by name.
pub open spec fn checks_on_head(p: ProposalView) -> Seq<CheckView> {
    p.checks.filter(|c: CheckView| c.revision == head_of(p).sha)
}

/// The results on the head revision that said no.
pub open spec fn failing_of(p: ProposalView) -> Seq<CheckView> {
    checks_on_head(p).filter(|c: CheckView| c.status == CheckStatus::Failed)
}

/// The author's explanations of the head revision.
pub open spec fn rationale_on_head(p: ProposalView) -> Seq<RationaleView> {
    p.rationale.filter(|r: RationaleView| r.revision == head_of(p).sha)
}

/// Whether a work line is about a commit, no earlier than a moment when one is given.
pub open spec fn work_is_about(w: WorkView, sha: Seq<char>, since: Option<i64>) -> bool {
    w.revision == sha && match since {
        Some(t) => w.at >= t,
        None => true,
    }
}

/// The work lines about a commit, no earlier than a moment when one is given.
pub open spec fn work_about_spec(work: Seq<WorkView>, sha: Seq<char>, since: Option<i64>) -> Seq<
    WorkView,
> {
    work.filter(|w: WorkView| work_is_about(w, sha, since))
}

/// The work lines about the head revision.
pub open spec fn work_on_head(p: ProposalView) -> Seq<WorkView> {
    work_about_spec(p.work, head_of(p).sha, None)
}

/// The check column's one word.
pub open spec fn summary_of(p: ProposalView) -> CheckSummary {
    if checks_on_head(p).len() == 0 {
        CheckSummary::NoChecks
    } else if failing_of(p).len() > 0 {
        CheckSummary::Failed(failing_of(p).len() as usize)
    } else {
        CheckSummary::Passing
    }
}

/// The first result among `checks` under `name`.
pub open spec fn named_check(checks: Seq<CheckView>, name: Seq<char>) -> Option<CheckView>
    decreases checks.len(),
{
    if checks.len() == 0 {
        None
    } else if checks[0].name == name {
        Some(checks[0])
    } else {
        named_check(checks.drop_first(), name)
    }
}

/// The first required check that is missing from `ran` or said no.
pub open spec fn gate_refusal(ran: Seq<CheckView>, required: Seq<Seq<char>>) -> Option<ErrorView>
    decreases required.len(),
{
    if required.len() == 0 {
        None
    } else {
        match named_check(ran, required[0]) {
            None => Some(ErrorView::CheckMissing(required[0])),
            Some(c) => if c.status != CheckStatus::Passed {
                Some(ErrorView::CheckFailed(required[0]))
            } else {
                gate_refusal(ran, required.drop_first())
            },
        }
    }
}

/// Why a proposal cannot land, or nothing when it can: it is not open, the
/// head still has notes nobody resolved, or a required check is missing from
/// the head or said no there.
pub open spec fn landing_refusal(p: ProposalView, required: Seq<Seq<char>>) -> Option<ErrorView> {
    if p.state != State::Open {
        Some(ErrorView::NotOpen(p.state))
    } else if open_comments_of(p).len() > 0 {
        Some(
            ErrorView::OpenComments {
                count: open_comments_of(p).len() as usize,
                revision: head_of(p).number,
            },
        )
    } else {
        gate_refusal(checks_on_head(p), required)
    }
}

/// The names of a run of check names.
pub open spec fn name_views(names: Seq<CheckName>) -> Seq<Seq<char>> {
    names.map_values(|n: CheckName| n@)
}

/// The views of borrowed notes.
pub open spec fn comment_views(v: Seq<&Comment>) -> Seq<CommentView> {
    v.map_values(|c: &Comment| c@)
}

/// The views of borrowed results.
pub open spec fn check_views(v: Seq<&Check>) -> Seq<CheckView> {
    v.map_values(|c: &Check| c@)
}

/// The views of borrowed explanations.
pub open spec fn rationale_views(v: Seq<&Rationale>) -> Seq<RationaleView> {
    v.map_values(|r: &Rationale| r@)
}

/// The views of borrowed answers.
pub open spec fn reply_views(v: Seq<&Reply>) -> Seq<ReplyView> {
    v.map_values(|r: &Reply| r@)
}

/// `x` placed after every answer in `sorted` that is not later than it.
pub open spec fn insert_by_at(sorted: Seq<ReplyView>, x: ReplyView) -> Seq<ReplyView>
    decreases sorted.len(),
{
    if sorted.len() == 0 || sorted.last().at <= x.at {
        sorted.push(x)
    } else {
        insert_by_at(sorted.drop_last(), x).push(sorted.last())
    }
}

/// Answers ordered oldest first, answers sharing a moment kept in log order:
/// a stable sort by moment.
pub open spec fn sort_by_at(s: Seq<ReplyView>) -> Seq<ReplyView>
    decreases s.len(),
{
    if s.len() == 0 {
        s
    } else {
        insert_by_at(sort_by_at(s.drop_last()), s.last())
    }
}

/// The thread under a note, oldest first.
pub open spec fn thread_of(p: ProposalView, note: Seq<char>) -> Seq<ReplyView> {
    sort_by_at(p.answers.filter(|r: ReplyView| r.target == note))
}

/// The latest moment among asks.
pub open spec fn latest_ask(asks: Seq<DispatchView>) -> i64
    decreases asks.len(),
{
    if asks.len() <= 1 {
        if asks.len() == 1 {
            asks[0].at
        } else {
            0
        }
    } else {
        let rest = latest_ask(asks.drop_last());
        if asks.last().at > rest {
            asks.last().at
        } else {
            rest
        }
    }
}

/// Whether the head revision is waiting for an agent: somebody handed it over
/// and nothing has picked it up since, or the last pick-up was a claim handed
/// back.
pub open spec fn dispatched_of(p: ProposalView) -> bool {
    let asked = p.asks.filter(|d: DispatchView| d.revision == head_of(p).sha);
    if asked.len() == 0 {
        false
    } else {
        let since = work_about_spec(p.work, head_of(p).sha, Some(latest_ask(asked)));
        match activity_spec(since) {
            None => true,
            Some(a) => a.phase == Phase::Cleared,
        }
    }
}

/// `HH:MM` out of a moment, which is what a chip has room for.
pub open spec fn clock_of(at: i64) -> Seq<char> {
    timestamp_text(at as int).subrange(11, 16)
}

/// The one sentence both the terminal and the browser say about who is on a
/// proposal.
pub open spec fn agent_line_of(p: ProposalView) -> Seq<char> {
    match activity_spec(work_on_head(p)) {
        Some(a) => if a.phase == Phase::Started {
            a.agent + " is "@ + task_word(a.task) + " since "@ + clock_of(a.since)
        } else if a.phase == Phase::Failed {
            task_word(a.task) + " failed: "@ + match a.note {
                Some(n) => n,
                None => Seq::empty(),
            }
        } else if dispatched_of(p) {
            "waiting for an agent"@
        } else {
            "no agent on it"@
        },
        None => if dispatched_of(p) {
            "waiting for an agent"@
        } else {
            "no agent on it"@
        },
    }
}

/// The revision carrying a commit, the first one if any does.
pub open spec fn revision_index(revisions: Seq<RevisionView>, sha: Seq<char>) -> int
    decreases revisions.len(),
{
    if revisions.len() == 0 {
        -1
    } else if revisions[0].sha == sha {
        0
    } else {
        let rest = revision_index(revisions.drop_first(), sha);
        if rest < 0 {
            -1
        } else {
            rest + 1
        }
    }
}

proof fn lemma_revision_index(revisions: Seq<RevisionView>, sha: Seq<char>)
    ensures
        -1 <= revision_index(revisions, sha) < revisions.len(),
        revision_index(revisions, sha) >= 0 ==> revisions[revision_index(revisions, sha)].sha
            == sha,
        revision_index(revisions, sha) >= 0 ==> forall|k: int|
            0 <= k < revision_index(revisions, sha) ==> #[trigger] revisions[k].sha != sha,
        revision_index(revisions, sha) < 0 ==> forall|k: int|
            0 <= k < revisions.len() ==> #[trigger] revisions[k].sha != sha,
    decreases revisions.len(),
{
    if revisions.len() > 0 && revisions[0].sha != sha {
        let rest = revisions.drop_first();
        lemma_revision_index(rest, sha);
        assert forall|k: int| 1 <= k < revisions.len() implies revisions[k] == rest[k - 1] by {}
    }
}

/// The summary as a column of a list shows it.
pub open spec fn summary_text(s: CheckSummary) -> Seq<char> {
    match s {
        CheckSummary::NoChecks => "no checks"@,
        CheckSummary::Passing => "passing"@,
        CheckSummary::Failed(n) => decimal(n as nat) + " failed"@,
    }
}

impl CheckSummary {
    /// The summary as a column of a list shows it: `no checks`, `passing`, or
    /// how many failed.
    pub fn to_string(&self) -> (s: String)
        ensures
            s@ == summary_text(*self),
    {
        match self {
            CheckSummary::NoChecks => copy_str("no checks"),
            CheckSummary::Passing => copy_str("passing"),
            CheckSummary::Failed(n) => {
                let mut s = String::new();
                push_decimal(&mut s, *n as u64);
                s.append(" failed");
                s
            },
        }
    }
}

impl Proposal {
    /// What the proposal is called.
    pub fn id(&self) -> (i: &ProposalId)
        ensures
            i@ == self@.id,
    {
        &self.id
    }

    /// What a person calls it.
    pub fn title(&self) -> (s: &str)
        ensures
            s@ == self@.title,
    {
        self.title.as_str()
    }

    /// The branch it lands on.
    pub fn target(&self) -> (b: &Branch)
        ensures
            b@ == self@.target,
    {
        &self.target
    }

    /// The commit it was cut from.
    pub fn base(&self) -> (s: &Sha)
        ensures
            s@ == self@.base,
    {
        &self.base
    }

    /// Where it is in its life.
    pub fn state(&self) -> (s: State)
        ensures
            s == self@.state,
    {
        self.state
    }

    /// When it opened.
    pub fn opened_at(&self) -> (t: Timestamp)
        ensures
            t@ == self@.opened_at,
    {
        self.opened_at
    }

    /// When it landed or was given up on, when the log said so.
    pub fn ended_at(&self) -> (t: Option<Timestamp>)
        ensures
            match t {
                Some(x) => self@.ended_at == Some(x@),
                None => self@.ended_at is None,
            },
    {
        self.ended_at
    }

    /// Every attempt, oldest first.
    pub fn revisions(&self) -> (v: Vec<&Revision>)
        ensures
            v@.map_values(|r: &Revision| r@) == self@.revisions,
    {
        let mut v: Vec<&Revision> = Vec::new();
        v.push(&self.first);
        let mut i: usize = 0;
        while i < self.later.len()
            invariant
                i <= self.later@.len(),
                v@.len() == i + 1,
                v@[0]@ == self.first@,
                forall|k: int| 0 <= k < i ==> (#[trigger] v@[k + 1])@ == self.later@[k]@,
            decreases self.later.len() - i,
        {
            v.push(&self.later[i]);
            i = i + 1;
        }
        assert(v@.map_values(|r: &Revision| r@) =~= self@.revisions) by {
            assert forall|k: int| 0 <= k < v@.len() implies v@.map_values(|r: &Revision| r@)[k]
                == self@.revisions[k] by {
                if k > 0 {
                    assert(v@[(k - 1) + 1]@ == self.later@[k - 1]@);
                }
            }
        }
        v
    }

    /// The latest revision, the one being reviewed.
    pub fn head(&self) -> (r: &Revision)
        ensures
            r@ == head_of(self@),
    {
        let n = self.later.len();
        if n == 0 {
            &self.first
        } else {
            assert(self@.revisions.last() == self.later@[n - 1]@);
            &self.later[n - 1]
        }
    }

    /// The revision carrying that commit, if the proposal carries it at all.
    pub fn revision_of(&self, sha: &Sha) -> (r: Option<&Revision>)
        ensures
            match r {
                Some(x) => revision_index(self@.revisions, sha@) >= 0 && x@ == self@.revisions[revision_index(self@.revisions, sha@)],
                None => revision_index(self@.revisions, sha@) < 0,
            },
    {
        let all = self.revisions();
        let mut i: usize = 0;
        while i < all.len()
            invariant
                i <= all@.len(),
                all@.map_values(|r: &Revision| r@) == self@.revisions,
                forall|k: int| 0 <= k < i ==> (#[trigger] self@.revisions[k]).sha != sha@,
            decreases all.len() - i,
        {
            assert(self@.revisions[i as int] == all@[i as int]@);
            if all[i].sha().same(sha) {
                proof {
                    lemma_revision_index(self@.revisions, sha@);
                    let ri = revision_index(self@.revisions, sha@);
                    if ri < 0 {
                        assert(self@.revisions[i as int].sha != sha@);
                    } else if ri > i {
                        assert(self@.revisions[i as int].sha != sha@);
                    } else if ri < i {
                        assert(self@.revisions[ri].sha != sha@);
                    }
                }
                return Some(all[i]);
            }
            i = i + 1;
        }
        proof {
            lemma_revision_index(self@.revisions, sha@);
            let ri = revision_index(self@.revisions, sha@);
            if ri >= 0 {
                assert(self@.revisions[ri].sha != sha@);
            }
        }
        None
    }

    /// The notes on the head revision that nobody has resolved. They are what
    /// stands between the proposal and the trunk.
    pub fn open_comments(&self) -> (v: Vec<&Comment>)
        ensures
            comment_views(v@) == open_comments_of(self@),
    {
        let head = self.head().sha();
        let ghost pred = |c: CommentView| c.revision == head_of(self@).sha && !self@.resolved.contains(c.id);
        let mut v: Vec<&Comment> = Vec::new();
        let mut i: usize = 0;
        while i < self.comments.len()
            invariant
                i <= self.comments@.len(),
                head@ == head_of(self@).sha,
                pred == (|c: CommentView| c.revision == head_of(self@).sha && !self@.resolved.contains(c.id)),
                comment_views(v@) == self@.comments.take(i as int).filter(pred),
            decreases self.comments.len() - i,
        {
            reveal_with_fuel(Seq::<_>::filter, 1);
            assert(self@.comments.take(i + 1).drop_last() =~= self@.comments.take(i as int));
            assert(self@.comments.take(i + 1).last() == self.comments@[i as int]@);
            let c = &self.comments[i];
            let ghost before = v@;
            if c.revision().same(head) && !self.resolves(c.id()) {
                v.push(c);
                assert(comment_views(v@) =~= comment_views(before).push(c@));
            }
            i = i + 1;
        }
        assert(self@.comments.take(self@.comments.len() as int) =~= self@.comments);
        v
    }

    /// Every note nobody has resolved, from any revision.
    ///
    /// [`Proposal::open_comments`] is the subset that blocks; this is the
    /// subset you read, because a question that fell off the head when
    /// somebody committed is still a question nobody answered.
    pub fn conversation(&self) -> (v: Vec<&Comment>)
        ensures
            comment_views(v@) == conversation_of(self@),
    {
        let ghost pred = |c: CommentView| !self@.resolved.contains(c.id);
        let mut v: Vec<&Comment> = Vec::new();
        let mut i: usize = 0;
        while i < self.comments.len()
            invariant
                i <= self.comments@.len(),
                pred == (|c: CommentView| !self@.resolved.contains(c.id)),
                comment_views(v@) == self@.comments.take(i as int).filter(pred),
            decreases self.comments.len() - i,
        {
            reveal_with_fuel(Seq::<_>::filter, 1);
            assert(self@.comments.take(i + 1).drop_last() =~= self@.comments.take(i as int));
            assert(self@.comments.take(i + 1).last() == self.comments@[i as int]@);
            let c = &self.comments[i];
            let ghost before = v@;
            if !self.resolves(c.id()) {
                v.push(c);
                assert(comment_views(v@) =~= comment_views(before).push(c@));
            }
            i = i + 1;
        }
        assert(self@.comments.take(self@.comments.len() as int) =~= self@.comments);
        v
    }

    /// Every note, resolved or not, in log order.
    pub fn comments(&self) -> (s: &[Comment])
        ensures
            s@.map_values(|c: Comment| c@) == self@.comments,
    {
        self.comments.as_slice()
    }

    /// Whether somebody said that note was answered.
    pub fn is_resolved(&self, id: &RecordId) -> (b: bool)
        ensures
            b == self@.resolved.contains(id@),
    {
        self.resolves(id)
    }

    /// The replies to a note, oldest first, which is the thread.
    pub fn answers(&self, note: &RecordId) -> (v: Vec<&Reply>)
        ensures
            reply_views(v@) == thread_of(self@, note@),
    {
        let ghost pred = |r: ReplyView| r.target == note@;
        let ghost unsorted = self@.answers.filter(pred);
        let mut v: Vec<&Reply> = Vec::new();
        let mut i: usize = 0;
        while i < self.answers.len()
            invariant
                i <= self.answers@.len(),
                pred == (|r: ReplyView| r.target == note@),
                reply_views(v@) == sort_by_at(self@.answers.take(i as int).filter(pred)),
            decreases self.answers.len() - i,
        {
            reveal_with_fuel(Seq::<_>::filter, 1);
            assert(self@.answers.take(i + 1).drop_last() =~= self@.answers.take(i as int));
            assert(self@.answers.take(i + 1).last() == self.answers@[i as int]@);
            let r = &self.answers[i];
            let ghost f1 = self@.answers.take(i + 1).filter(pred);
            let ghost f0 = self@.answers.take(i as int).filter(pred);
            if r.target().same(note) {
                assert(f1 == f0.push(r@));
                assert(f1.drop_last() =~= f0);
                insert_reply(&mut v, r);
            } else {
                assert(f1 == f0);
            }
            i = i + 1;
        }
        assert(self@.answers.take(self@.answers.len() as int) =~= self@.answers);
        v
    }

    /// The results recorded against the head revision, ascending by name.
    ///
    /// An older revision's result is not carried forward, because it ran on
    /// other code.
    pub fn checks(&self) -> (v: Vec<&Check>)
        ensures
            check_views(v@) == checks_on_head(self@),
    {
        let head = self.head().sha();
        let ghost pred = |c: CheckView| c.revision == head_of(self@).sha;
        let mut v: Vec<&Check> = Vec::new();
        let mut i: usize = 0;
        while i < self.checks.len()
            invariant
                i <= self.checks@.len(),
                head@ == head_of(self@).sha,
                pred == (|c: CheckView| c.revision == head_of(self@).sha),
                check_views(v@) == self@.checks.take(i as int).filter(pred),
            decreases self.checks.len() - i,
        {
            reveal_with_fuel(Seq::<_>::filter, 1);
            assert(self@.checks.take(i + 1).drop_last() =~= self@.checks.take(i as int));
            assert(self@.checks.take(i + 1).last() == self.checks@[i as int]@);
            let c = &self.checks[i];
            let ghost before = v@;
            if c.revision().same(head) {
                v.push(c);
                assert(check_views(v@) =~= check_views(before).push(c@));
            }
            i = i + 1;
        }
        assert(self@.checks.take(self@.checks.len() as int) =~= self@.checks);
        v
    }

    /// The checks on the head revision that said no.
    pub fn failing(&self) -> (v: Vec<&Check>)
        ensures
            check_views(v@) == failing_of(self@),
    {
        let ran = self.checks();
        let ghost pred = |c: CheckView| c.status == CheckStatus::Failed;
        let mut v: Vec<&Check> = Vec::new();
        let mut i: usize = 0;
        while i < ran.len()
            invariant
                i <= ran@.len(),
                pred == (|c: CheckView| c.status == CheckStatus::Failed),
                check_views(v@) == check_views(ran@).take(i as int).filter(pred),
            decreases ran.len() - i,
        {
            reveal_with_fuel(Seq::<_>::filter, 1);
            assert(check_views(ran@).take(i + 1).drop_last() =~= check_views(ran@).take(i as int));
            assert(check_views(ran@).take(i + 1).last() == ran@[i as int]@);
            let c = ran[i];
            let ghost before = v@;
            if !c.passed() {
                v.push(c);
                assert(check_views(v@) =~= check_views(before).push(c@));
            }
            i = i + 1;
        }
        assert(check_views(ran@).take(ran@.len() as int) =~= check_views(ran@));
        v
    }

    /// The one word a list column can carry about the checks.
    pub fn check_summary(&self) -> (s: CheckSummary)
        ensures
            s == summary_of(self@),
    {
        if self.checks().len() == 0 {
            return CheckSummary::NoChecks;
        }
        let failing = self.failing().len();
        if failing > 0 {
            CheckSummary::Failed(failing)
        } else {
            CheckSummary::Passing
        }
    }

    /// The decisions the author is explaining, in the order they were written,
    /// which is the order they should be read in.
    pub fn chunks(&self) -> (s: &[Chunk])
        ensures
            s@.map_values(|c: Chunk| c@) == self@.chunks,
    {
        self.chunks.as_slice()
    }

    /// The author explaining the head revision.
    pub fn rationale(&self) -> (v: Vec<&Rationale>)
        ensures
            rationale_views(v@) == rationale_on_head(self@),
    {
        let head = self.head().sha();
        let ghost pred = |r: RationaleView| r.revision == head_of(self@).sha;
        let mut v: Vec<&Rationale> = Vec::new();
        let mut i: usize = 0;
        while i < self.rationale.len()
            invariant
                i <= self.rationale@.len(),
                head@ == head_of(self@).sha,
                pred == (|r: RationaleView| r.revision == head_of(self@).sha),
                rationale_views(v@) == self@.rationale.take(i as int).filter(pred),
            decreases self.rationale.len() - i,
        {
            reveal_with_fuel(Seq::<_>::filter, 1);
            assert(self@.rationale.take(i + 1).drop_last() =~= self@.rationale.take(i as int));
            assert(self@.rationale.take(i + 1).last() == self.rationale@[i as int]@);
            let r = &self.rationale[i];
            let ghost before = v@;
            if r.revision().same(head) {
                v.push(r);
                assert(rationale_views(v@) =~= rationale_views(before).push(r@));
            }
            i = i + 1;
        }
        assert(self@.rationale.take(self@.rationale.len() as int) =~= self@.rationale);
        v
    }

    /// Every line an agent left on this proposal, on any revision.
    pub fn work(&self) -> (s: &[Work])
        ensures
            work_views(s@) == self@.work,
    {
        self.work.as_slice()
    }

    /// The work lines about one revision with a moment no earlier than `since`.
    fn work_about(&self, sha: &Sha, since: Option<Timestamp>) -> (v: Vec<Work>)
        ensures
            work_views(v@) == work_about_spec(
                self@.work,
                sha@,
                match since {
                    Some(t) => Some(t@),
                    None => None,
                },
            ),
    {
        let ghost moment = match since {
            Some(t) => Some(t@),
            None => None,
        };
        let ghost pred = |w: WorkView| work_is_about(w, sha@, moment);
        let mut v: Vec<Work> = Vec::new();
        let mut i: usize = 0;
        while i < self.work.len()
            invariant
                i <= self.work@.len(),
                moment == match since {
                    Some(t) => Some(t@),
                    None => None,
                },
                pred == (|w: WorkView| work_is_about(w, sha@, moment)),
                work_views(v@) == self@.work.take(i as int).filter(pred),
            decreases self.work.len() - i,
        {
            reveal_with_fuel(Seq::<_>::filter, 1);
            assert(self@.work.take(i + 1).drop_last() =~= self@.work.take(i as int));
            assert(self@.work.take(i + 1).last() == self.work@[i as int]@);
            let w = &self.work[i];
            let ghost before = v@;
            let late_enough = match since {
                Some(t) => w.at().not_before(t),
                None => true,
            };
            if w.revision().same(sha) && late_enough {
                v.push(w.duplicate());
                assert(work_views(v@) =~= work_views(before).push(w@));
            }
            i = i + 1;
        }
        assert(self@.work.take(self@.work.len() as int) =~= self@.work);
        v
    }

    /// What the work log on the head revision adds up to.
    ///
    /// Head-scoped on purpose. A rebase that failed on revision one must not
    /// leave revision four reading as failed forever.
    pub fn activity(&self) -> (a: Option<Activity>)
        ensures
            match (a, activity_spec(work_on_head(self@))) {
                (Some(x), Some(y)) => x@ == y,
                (None, None) => true,
                _ => false,
            },
    {
        let head_sha = self.head().sha();
        let head = self.work_about(head_sha, None);
        let slice = head.as_slice();
        assert(work_views(slice@) == work_on_head(self@));
        activity(slice)
    }

    /// Whether the head revision is waiting for an agent: somebody handed it
    /// over and nothing has picked it up since. A claim handed back leaves the
    /// ask standing; anything else answered it, including a failure, which
    /// waits for a person to ask again.
    pub fn dispatched(&self) -> (b: bool)
        ensures
            b == dispatched_of(self@),
    {
        let head = self.head().sha();
        let ghost pred = |d: DispatchView| d.revision == head_of(self@).sha;
        let mut latest: Option<Timestamp> = None;
        let mut i: usize = 0;
        while i < self.asks.len()
            invariant
                i <= self.asks@.len(),
                head@ == head_of(self@).sha,
                pred == (|d: DispatchView| d.revision == head_of(self@).sha),
                match latest {
                    None => self@.asks.take(i as int).filter(pred).len() == 0,
                    Some(t) => self@.asks.take(i as int).filter(pred).len() > 0 && t@ == latest_ask(
                        self@.asks.take(i as int).filter(pred),
                    ),
                },
            decreases self.asks.len() - i,
        {
            reveal_with_fuel(Seq::<_>::filter, 1);
            assert(self@.asks.take(i + 1).drop_last() =~= self@.asks.take(i as int));
            assert(self@.asks.take(i + 1).last() == self.asks@[i as int]@);
            let d = &self.asks[i];
            let ghost f = self@.asks.take(i + 1).filter(pred);
            if !d.revision().same(head) {
                assert(f == self@.asks.take(i as int).filter(pred));
            }
            if d.revision().same(head) {
                assert(f == self@.asks.take(i as int).filter(pred).push(d@));
                assert(f.drop_last() =~= self@.asks.take(i as int).filter(pred));
                latest = match latest {
                    None => Some(d.at()),
                    Some(t) => if d.at().unix() > t.unix() {
                        Some(d.at())
                    } else {
                        Some(t)
                    },
                };
            }
            i = i + 1;
        }
        assert(self@.asks.take(self@.asks.len() as int) =~= self@.asks);
        match latest {
            None => false,
            Some(asked) => {
                let since = self.work_about(head, Some(asked));
                match activity(since.as_slice()) {
                    None => true,
                    Some(latest_work) => match latest_work.phase() {
                        Phase::Cleared => true,
                        _ => false,
                    },
                }
            },
        }
    }

    /// The one sentence both the terminal and the browser say about who is on
    /// this proposal.
    pub fn agent_line(&self) -> (s: String)
        ensures
            s@ == agent_line_of(self@),
    {
        let current = self.activity();
        match current {
            Some(a) => {
                if a.working() {
                    let mut s = copy_str(a.agent().as_str());
                    s.append(" is ");
                    s.append(a.task().as_str());
                    s.append(" since ");
                    s.append(clock(a.since()).as_str());
                    return s;
                }
                if a.failed() {
                    let mut s = copy_str(a.task().as_str());
                    s.append(" failed: ");
                    match a.note() {
                        Some(n) => s.append(n),
                        None => {},
                    }
                    assert(s@ =~= agent_line_of(self@));
                    return s;
                }
            },
            None => {},
        }
        if self.dispatched() {
            copy_str("waiting for an agent")
        } else {
            copy_str("no agent on it")
        }
    }

    /// Why the proposal cannot land, and nothing when it can.
    ///
    /// The required checks are the ones the repository declares; a proposal
    /// that declares none is gated only by the review. A check that ran but
    /// nobody required does not block. Refused: a proposal that is not open, a
    /// head that still has notes on it, or a required check that is missing
    /// or failed.
    pub fn landable(&self, required: &[CheckName]) -> (r: Result<(), Error>)
        ensures
            match landing_refusal(self@, name_views(required@)) {
                None => r is Ok,
                Some(e) => r matches Err(x) && x@ == e,
            },
    {
        if !self.state.is_open() {
            return Err(Error::NotOpen(self.state));
        }
        let open = self.open_comments().len();
        if open > 0 {
            return Err(Error::OpenComments { count: open, revision: self.head().number() });
        }
        let ran = self.checks();
        let ghost names = name_views(required@);
        let mut i: usize = 0;
        assert(names.skip(0) =~= names);
        while i < required.len()
            invariant
                i <= required@.len(),
                names == name_views(required@),
                self@.state == State::Open,
                open_comments_of(self@).len() == 0,
                check_views(ran@) == checks_on_head(self@),
                gate_refusal(check_views(ran@), names) == gate_refusal(
                    check_views(ran@),
                    names.skip(i as int),
                ),
            decreases required.len() - i,
        {
            let name = &required[i];
            let found = find_named(&ran, name);
            assert(names.skip(i as int)[0] == name@);
            assert(names.skip(i as int).drop_first() =~= names.skip(i + 1));
            match found {
                None => return Err(Error::CheckMissing(name.duplicate())),
                Some(check) => {
                    if !check.passed() {
                        return Err(Error::CheckFailed(name.duplicate()));
                    }
                },
            }
            i = i + 1;
        }
        assert(names.skip(required@.len() as int) =~= Seq::<Seq<char>>::empty());
        Ok(())
    }

    /// Ask whether the proposal may land and, if it may, land it.
    pub fn land(&mut self, required: &[CheckName]) -> (r: Result<(), Error>)
        ensures
            proposal_wf(final(self)@),
            match landing_refusal(old(self)@, name_views(required@)) {
                None => r is Ok && final(self)@ == (ProposalView {
                    state: State::Landed,
                    ..old(self)@
                }),
                Some(e) => (r matches Err(x) && x@ == e) && final(self)@ == old(self)@,
            },
    {
        proof {
            use_type_invariant(&*self);
            Proposal::lemma_wf(*self);
        }
        self.landable(required)?;
        self.state = State::Landed;
        Ok(())
    }
}

/// `HH:MM` out of a moment.
fn clock(at: Timestamp) -> (s: String)
    ensures
        s@ == clock_of(at@),
{
    let text = at.to_string();
    let v = crate::text::chars_of(text.as_str());
    proof {
        crate::timestamp::lemma_timestamp_text_len(at@ as int);
    }
    crate::text::string_of(v.as_slice(), 11, 16)
}

/// The first result among `ran` under `name`.
fn find_named<'a>(ran: &Vec<&'a Check>, name: &CheckName) -> (r: Option<&'a Check>)
    ensures
        match (r, named_check(check_views(ran@), name@)) {
            (Some(x), Some(y)) => x@ == y,
            (None, None) => true,
            _ => false,
        },
{
    let ghost views = check_views(ran@);
    let mut i: usize = 0;
    assert(views.skip(0) =~= views);
    while i < ran.len()
        invariant
            i <= ran@.len(),
            views == check_views(ran@),
            named_check(views, name@) == named_check(views.skip(i as int), name@),
        decreases ran.len() - i,
    {
        assert(views.skip(i as int)[0] == ran@[i as int]@);
        assert(views.skip(i as int).drop_first() =~= views.skip(i + 1));
        if ran[i].name().same(name) {
            return Some(ran[i]);
        }
        i = i + 1;
    }
    None
}

/// Place an answer after every answer in `v` that is not later than it.
fn insert_reply<'a>(v: &mut Vec<&'a Reply>, r: &'a Reply)
    ensures
        reply_views(final(v)@) == insert_by_at(reply_views(old(v)@), r@),
{
    let ghost before = reply_views(v@);
    let mut k = v.len();
    assert(before.take(k as int) =~= before);
    assert(before.skip(k as int) =~= Seq::<ReplyView>::empty());
    while k > 0 && v[k - 1].at().unix() > r.at().unix()
        invariant
            k <= v@.len(),
            v@ == old(v)@,
            before == reply_views(v@),
            insert_by_at(before, r@) == insert_by_at(before.take(k as int), r@) + before.skip(
                k as int,
            ),
        decreases k,
    {
        assert(before.take(k as int).drop_last() =~= before.take(k - 1));
        assert(before.take(k as int).last() == before[k - 1]);
        assert(before.skip(k - 1) =~= seq![before[k - 1]] + before.skip(k as int));
        assert(insert_by_at(before.take(k as int), r@) == insert_by_at(before.take(k - 1), r@).push(
            before[k - 1],
        ));
        assert(insert_by_at(before.take(k - 1), r@).push(before[k - 1]) + before.skip(k as int)
            =~= insert_by_at(before.take(k - 1), r@) + before.skip(k - 1));
        k = k - 1;
    }
    assert(insert_by_at(before.take(k as int), r@) == before.take(k as int).push(r@));
    v.insert(k, r);
    assert(reply_views(v@) =~= before.take(k as int).push(r@) + before.skip(k as int));
}

} // verus!
