//! What holds of every proposal, whatever the log delivered: the rules that
//! span more than one call.

use vstd::prelude::*;

use super::views::{
    agent_line_of, checks_on_head, conversation_of, dispatched_of, gate_refusal, insert_by_at,
    landing_refusal, latest_ask, named_check, open_comments_of, rationale_on_head, sort_by_at,
    work_about_spec, work_is_about, work_on_head,
};
use super::{
    apply_spec, check_position, fold_spec, has_comment, has_rationale, has_reply, head_of,
    is_answer, knows_revision, proposal_wf, put_check, revision_number, ProposalView,
    RevisionView, State,
};
use crate::check::{CheckStatus, CheckView};
use crate::comment::CommentView;
use crate::errors::ErrorView;
use crate::rationale::RationaleView;
use crate::record::RecordView;
use crate::reply::ReplyView;
use crate::text::text_lt;
use crate::work::{activity_spec, law_latest_wins, latest_index, DispatchView, Phase, WorkView};

verus! {

/// Recording the same result twice records it once.
proof fn lemma_put_check_twice(checks: Seq<CheckView>, c: CheckView)
    ensures
        put_check(put_check(checks, c), c) == put_check(checks, c),
{
    super::lemma_check_position(checks, c.name);
    let i = check_position(checks, c.name);
    let once = put_check(checks, c);
    assert(once[i] == c);
    assert forall|k: int| 0 <= k < i implies once[k] == checks[k] by {}
    lemma_position_stops_at(once, c.name, i);
    assert(once.update(i, c) =~= once);
}

/// The position of a name is where the first result not sorting before it
/// stands.
proof fn lemma_position_stops_at(checks: Seq<CheckView>, name: Seq<char>, i: int)
    requires
        0 <= i < checks.len(),
        forall|k: int| 0 <= k < i ==> text_lt(#[trigger] checks[k].name, name),
        checks[i].name == name,
    ensures
        check_position(checks, name) == i,
    decreases i,
{
    crate::text::lemma_text_lt_strict(name, name);
    if i > 0 {
        let rest = checks.drop_first();
        assert forall|k: int| 0 <= k < i - 1 implies text_lt(#[trigger] rest[k].name, name) by {
            assert(rest[k] == checks[k + 1]);
        }
        lemma_position_stops_at(rest, name, i - 1);
    }
}

/// Applying the same record twice changes nothing more than applying it
/// once, whatever its kind: the log may honestly deliver a line twice.
pub proof fn law_apply_twice_is_apply_once(p: ProposalView, r: RecordView)
    requires
        proposal_wf(p),
        apply_spec(p, r) is Ok,
    ensures
        apply_spec(apply_spec(p, r)->Ok_0, r) == apply_spec(p, r),
{
    let q = apply_spec(p, r)->Ok_0;
    match r {
        RecordView::Comment(c) => {
            if !has_comment(p, c.id) {
                assert(q.comments[p.comments.len() as int].id == c.id);
            }
        },
        RecordView::Rationale(x) => {
            if !has_rationale(p.rationale, x.id) {
                assert(q.rationale[p.rationale.len() as int].id == x.id);
            }
        },
        RecordView::Reply(x) => {
            if !has_reply(p.answers, x.id) {
                assert(q.answers[p.answers.len() as int].id == x.id);
            }
        },
        RecordView::Resolve(x) => {
            if !p.resolved.contains(x.target) {
                assert(q.resolved[p.resolved.len() as int] == x.target);
            }
        },
        RecordView::Check(c) => {
            lemma_put_check_twice(p.checks, c);
        },
        RecordView::Chunk(c) => {
            if !p.chunks.contains(c) {
                assert(q.chunks[p.chunks.len() as int] == c);
            }
        },
        RecordView::Work(w) => {
            if !p.work.contains(w) {
                assert(q.work[p.work.len() as int] == w);
            }
        },
        RecordView::Dispatch(d) => {
            if !p.asks.contains(d) {
                assert(q.asks[p.asks.len() as int] == d);
            }
        },
    }
}

/// A note left on the head revision, which nobody has resolved, blocks a
/// landing whatever checks are required.
pub proof fn law_note_on_head_blocks_landing(p: ProposalView, c: CommentView, required: Seq<Seq<char>>)
    requires
        proposal_wf(p),
        p.state == State::Open,
        c.revision == head_of(p).sha,
        !has_comment(p, c.id),
        !p.resolved.contains(c.id),
    ensures
        apply_spec(p, RecordView::Comment(c)) is Ok,
        open_comments_of(apply_spec(p, RecordView::Comment(c))->Ok_0).len() >= 1,
        landing_refusal(apply_spec(p, RecordView::Comment(c))->Ok_0, required) == Some(
            ErrorView::OpenComments {
                count: open_comments_of(apply_spec(p, RecordView::Comment(c))->Ok_0).len() as usize,
                revision: head_of(p).number,
            },
        ),
{
    assert(p.revisions[p.revisions.len() - 1].sha == c.revision);
    assert(knows_revision(p, c.revision));
    let q = apply_spec(p, RecordView::Comment(c))->Ok_0;
    reveal_with_fuel(Seq::<_>::filter, 1);
    assert(q.comments.drop_last() =~= p.comments);
}

/// Resolving a note takes it out of the way: no note carrying that id is open
/// on the head or left in the conversation.
pub proof fn law_resolution_unblocks(p: ProposalView, x: crate::resolution::ResolutionView)
    requires
        proposal_wf(p),
        apply_spec(p, RecordView::Resolve(x)) is Ok,
    ensures
        forall|k: int|
            0 <= k < open_comments_of(apply_spec(p, RecordView::Resolve(x))->Ok_0).len() ==> (
            #[trigger] open_comments_of(apply_spec(p, RecordView::Resolve(x))->Ok_0)[k]).id
                != x.target,
        forall|k: int|
            0 <= k < conversation_of(apply_spec(p, RecordView::Resolve(x))->Ok_0).len() ==> (
            #[trigger] conversation_of(apply_spec(p, RecordView::Resolve(x))->Ok_0)[k]).id
                != x.target,
{
    let q = apply_spec(p, RecordView::Resolve(x))->Ok_0;
    assert(q.resolved.contains(x.target)) by {
        if !p.resolved.contains(x.target) {
            assert(q.resolved[p.resolved.len() as int] == x.target);
        }
    }
    let open_pred = |c: CommentView| c.revision == head_of(q).sha && !q.resolved.contains(c.id);
    let talk_pred = |c: CommentView| !q.resolved.contains(c.id);
    assert forall|k: int| 0 <= k < open_comments_of(q).len() implies (
    #[trigger] open_comments_of(q)[k]).id != x.target by {
        q.comments.lemma_filter_pred(open_pred, k);
    }
    assert forall|k: int| 0 <= k < conversation_of(q).len() implies (
    #[trigger] conversation_of(q)[k]).id != x.target by {
        q.comments.lemma_filter_pred(talk_pred, k);
    }
}

/// A new revision starts clean: nothing left on an older revision blocks it,
/// no result from an older revision counts on it, and no explanation of an
/// older revision is read on it; every unresolved note is still there to read.
pub proof fn law_new_revision_starts_clean(p: ProposalView, sha: Seq<char>)
    requires
        proposal_wf(p),
        !knows_revision(p, sha),
    ensures
        ({
            let q = ProposalView {
                revisions: p.revisions.push(
                    RevisionView { number: revision_number(p.revisions.len() as int), sha },
                ),
                ..p
            };
            &&& head_of(q).sha == sha
            &&& open_comments_of(q).len() == 0
            &&& checks_on_head(q).len() == 0
            &&& rationale_on_head(q).len() == 0
            &&& conversation_of(q) == conversation_of(p)
        }),
{
    let q = ProposalView {
        revisions: p.revisions.push(
            RevisionView { number: revision_number(p.revisions.len() as int), sha },
        ),
        ..p
    };
    assert(head_of(q).sha == sha);
    let open_pred = |c: CommentView| c.revision == head_of(q).sha && !q.resolved.contains(c.id);
    assert(q.comments.all(|c: CommentView| !open_pred(c))) by {
        assert forall|i: int| 0 <= i < q.comments.len() implies !open_pred(#[trigger] q.comments[i]) by {
            assert(knows_revision(p, p.comments[i].revision));
        }
    }
    q.comments.lemma_all_neg_filter_empty(open_pred);
    let check_pred = |c: CheckView| c.revision == head_of(q).sha;
    assert(q.checks.all(|c: CheckView| !check_pred(c))) by {
        assert forall|i: int| 0 <= i < q.checks.len() implies !check_pred(#[trigger] q.checks[i]) by {
            assert(knows_revision(p, p.checks[i].revision));
        }
    }
    q.checks.lemma_all_neg_filter_empty(check_pred);
    let why_pred = |r: RationaleView| r.revision == head_of(q).sha;
    assert(q.rationale.all(|r: RationaleView| !why_pred(r))) by {
        assert forall|i: int| 0 <= i < q.rationale.len() implies !why_pred(#[trigger] q.rationale[i]) by {
            assert(knows_revision(p, p.rationale[i].revision));
        }
    }
    q.rationale.lemma_all_neg_filter_empty(why_pred);
}

/// A proposal that landed or was given up on takes nothing more: every record
/// and every landing is refused as no longer open.
pub proof fn law_ended_takes_nothing(p: ProposalView, r: RecordView, required: Seq<Seq<char>>)
    requires
        p.state != State::Open,
    ensures
        apply_spec(p, r) == Err::<ProposalView, ErrorView>(ErrorView::NotOpen(p.state)),
        landing_refusal(p, required) == Some(ErrorView::NotOpen(p.state)),
{
}

/// A proposal that may land has a passing result on its head under every name
/// the repository requires; with nothing required, only its state and its
/// open notes decide.
pub proof fn law_landing_needs_every_required_check(p: ProposalView, required: Seq<Seq<char>>)
    requires
        landing_refusal(p, required) is None,
    ensures
        p.state == State::Open,
        open_comments_of(p).len() == 0,
        forall|k: int|
            0 <= k < required.len() ==> (named_check(checks_on_head(p), #[trigger] required[k]) matches Some(c)
                && c.status == CheckStatus::Passed),
        landing_refusal(p, Seq::empty()) is None,
{
    lemma_gate_passes(checks_on_head(p), required);
}

proof fn lemma_gate_passes(ran: Seq<CheckView>, required: Seq<Seq<char>>)
    requires
        gate_refusal(ran, required) is None,
    ensures
        forall|k: int|
            0 <= k < required.len() ==> (named_check(ran, #[trigger] required[k]) matches Some(c)
                && c.status == CheckStatus::Passed),
    decreases required.len(),
{
    if required.len() > 0 {
        lemma_gate_passes(ran, required.drop_first());
        assert forall|k: int| 0 <= k < required.len() implies (named_check(ran, #[trigger] required[k]) matches Some(c)
            && c.status == CheckStatus::Passed) by {
            if k > 0 {
                assert(required[k] == required.drop_first()[k - 1]);
            }
        }
    }
}

proof fn lemma_filter_twice(s: Seq<RecordView>, pred: spec_fn(RecordView) -> bool)
    ensures
        s.filter(pred).filter(pred) == s.filter(pred),
    decreases s.len(),
{
    reveal_with_fuel(Seq::<_>::filter, 1);
    if s.len() > 0 {
        lemma_filter_twice(s.drop_last(), pred);
        let f = s.drop_last().filter(pred);
        if pred(s.last()) {
            assert(s.filter(pred).drop_last() =~= f);
        }
    }
}

proof fn lemma_filter_disjoint(
    s: Seq<RecordView>,
    pred: spec_fn(RecordView) -> bool,
    other: spec_fn(RecordView) -> bool,
)
    requires
        forall|x: RecordView| #[trigger] pred(x) ==> !other(x),
    ensures
        s.filter(pred).filter(other).len() == 0,
    decreases s.len(),
{
    reveal_with_fuel(Seq::<_>::filter, 1);
    if s.len() > 0 {
        lemma_filter_disjoint(s.drop_last(), pred, other);
        if pred(s.last()) {
            assert(s.filter(pred).drop_last() =~= s.drop_last().filter(pred));
        }
    }
}

/// Folding a log takes every answer after every other record: a log whose
/// answers came first folds exactly as the same log with its answers moved to
/// the end.
pub proof fn law_fold_takes_answers_last(p: ProposalView, records: Seq<RecordView>)
    ensures
        fold_spec(p, records) == fold_spec(
            p,
            records.filter(|r: RecordView| !is_answer(r)) + records.filter(
                |r: RecordView| is_answer(r),
            ),
        ),
{
    let na = |r: RecordView| !is_answer(r);
    let a = |r: RecordView| is_answer(r);
    let first = records.filter(na);
    let second = records.filter(a);
    Seq::filter_distributes_over_add(first, second, na);
    Seq::filter_distributes_over_add(first, second, a);
    lemma_filter_twice(records, na);
    lemma_filter_twice(records, a);
    lemma_filter_disjoint(records, a, na);
    lemma_filter_disjoint(records, na, a);
    assert(second.filter(na) =~= Seq::<RecordView>::empty());
    assert(first.filter(a) =~= Seq::<RecordView>::empty());
    assert((first + second).filter(na) =~= first);
    assert((first + second).filter(a) =~= second);
}

proof fn lemma_insert_by_at_sorted(s: Seq<ReplyView>, x: ReplyView)
    requires
        forall|i: int, j: int| 0 <= i < j < s.len() ==> (#[trigger] s[i]).at <= (#[trigger] s[j]).at,
    ensures
        forall|i: int, j: int|
            0 <= i < j < insert_by_at(s, x).len() ==> (#[trigger] insert_by_at(s, x)[i]).at <= (
            #[trigger] insert_by_at(s, x)[j]).at,
        insert_by_at(s, x).len() == s.len() + 1,
        forall|i: int| 0 <= i < insert_by_at(s, x).len() ==> (#[trigger] insert_by_at(s, x)[i]).at
            <= (if s.len() > 0 && s.last().at > x.at {
            s.last().at
        } else {
            x.at
        }),
    decreases s.len(),
{
    if s.len() > 0 && s.last().at > x.at {
        let d = s.drop_last();
        lemma_insert_by_at_sorted(d, x);
        let inner = insert_by_at(d, x);
        assert forall|i: int| 0 <= i < inner.len() implies (#[trigger] inner[i]).at <= s.last().at by {
            if d.len() > 0 && d.last().at > x.at {
                assert(d.last().at <= s.last().at);
            }
        }
    }
}

/// The thread under a note reads oldest first.
pub proof fn law_thread_is_oldest_first(answers: Seq<ReplyView>)
    ensures
        sort_by_at(answers).len() == answers.len(),
        forall|i: int, j: int|
            0 <= i < j < sort_by_at(answers).len() ==> (#[trigger] sort_by_at(answers)[i]).at <= (
            #[trigger] sort_by_at(answers)[j]).at,
    decreases answers.len(),
{
    if answers.len() > 0 {
        law_thread_is_oldest_first(answers.drop_last());
        lemma_insert_by_at_sorted(sort_by_at(answers.drop_last()), answers.last());
    }
}

/// The moment a revision was asked for is the latest moment among its asks:
/// no ask is later, and one ask is that late.
pub proof fn law_the_latest_ask_counts(asks: Seq<DispatchView>)
    requires
        asks.len() > 0,
    ensures
        forall|k: int| 0 <= k < asks.len() ==> (#[trigger] asks[k]).at <= latest_ask(asks),
        exists|k: int| 0 <= k < asks.len() && (#[trigger] asks[k]).at == latest_ask(asks),
    decreases asks.len(),
{
    if asks.len() > 1 {
        let init = asks.drop_last();
        law_the_latest_ask_counts(init);
        let j = choose|k: int| 0 <= k < init.len() && (#[trigger] init[k]).at == latest_ask(init);
        assert forall|k: int| 0 <= k < asks.len() implies (#[trigger] asks[k]).at <= latest_ask(
            asks,
        ) by {
            if k < init.len() {
                assert(init[k] == asks[k]);
            }
        }
        if asks.last().at > latest_ask(init) {
            assert(asks[asks.len() - 1].at == latest_ask(asks));
        } else {
            assert(asks[j] == init[j]);
        }
    } else {
        assert(asks[0].at == latest_ask(asks));
    }
}

/// An ask on the head that is later than every work line on the head is
/// still waiting: the head reads as dispatched, and unless somebody has it in
/// hand or it failed, the agent line says it waits for an agent.
pub proof fn law_an_unanswered_ask_waits(p: ProposalView, d: DispatchView)
    requires
        p.asks.contains(d),
        d.revision == head_of(p).sha,
        forall|w: WorkView|
            #[trigger] p.work.contains(w) && w.revision == head_of(p).sha ==> w.at < d.at,
    ensures
        dispatched_of(p),
        match activity_spec(work_on_head(p)) {
            Some(a) => a.phase != Phase::Started && a.phase != Phase::Failed,
            None => true,
        } ==> agent_line_of(p) == "waiting for an agent"@,
{
    let sha = head_of(p).sha;
    let pred = |x: DispatchView| x.revision == sha;
    let asked = p.asks.filter(pred);
    let k = choose|k: int| 0 <= k < p.asks.len() && p.asks[k] == d;
    p.asks.lemma_filter_contains(pred, k);
    assert(asked.contains(d));
    let j = choose|j: int| 0 <= j < asked.len() && asked[j] == d;
    law_the_latest_ask_counts(asked);
    assert(asked[j].at <= latest_ask(asked));
    let t = latest_ask(asked);
    let wpred = |w: WorkView| work_is_about(w, sha, Some(t));
    let since = p.work.filter(wpred);
    assert(since == work_about_spec(p.work, sha, Some(t)));
    if since.len() > 0 {
        p.work.lemma_filter_pred(wpred, 0);
        assert(since.contains(since[0]));
        p.work.lemma_filter_contains_rev(wpred, since[0]);
        assert(since[0].at < d.at);
    }
    assert(since.len() == 0);
    assert(activity_spec(since).is_none());
}

/// An ask that work on the head has picked up is no longer waiting: when a
/// work line on the head is no earlier than every ask on the head, and no
/// work line on the head from then on hands a claim back, the head does not
/// read as dispatched. A finish or a failure waits for a person to ask again.
pub proof fn law_an_answered_ask_does_not_wait(p: ProposalView, w: WorkView)
    requires
        p.work.contains(w),
        w.revision == head_of(p).sha,
        forall|d: DispatchView|
            #[trigger] p.asks.contains(d) && d.revision == head_of(p).sha ==> d.at <= w.at,
        forall|x: WorkView|
            #[trigger] p.work.contains(x) && x.revision == head_of(p).sha && x.at >= w.at
                ==> x.phase != Phase::Cleared,
    ensures
        !dispatched_of(p),
{
    let sha = head_of(p).sha;
    let pred = |x: DispatchView| x.revision == sha;
    let asked = p.asks.filter(pred);
    if asked.len() > 0 {
        law_the_latest_ask_counts(asked);
        let j = choose|j: int| 0 <= j < asked.len() && (#[trigger] asked[j]).at == latest_ask(asked);
        assert(asked.contains(asked[j]));
        p.asks.lemma_filter_contains_rev(pred, asked[j]);
        p.asks.lemma_filter_pred(pred, j);
        let t = latest_ask(asked);
        assert(t <= w.at);
        let wpred = |x: WorkView| work_is_about(x, sha, Some(t));
        let since = p.work.filter(wpred);
        assert(since == work_about_spec(p.work, sha, Some(t)));
        let k = choose|k: int| 0 <= k < p.work.len() && p.work[k] == w;
        p.work.lemma_filter_contains(wpred, k);
        assert(since.contains(w));
        let m = choose|m: int| 0 <= m < since.len() && since[m] == w;
        law_latest_wins(since);
        let top = since[latest_index(since)];
        assert(top.at >= w.at);
        p.work.lemma_filter_pred(wpred, latest_index(since));
        assert(since.contains(top));
        p.work.lemma_filter_contains_rev(wpred, top);
        assert(top.phase != Phase::Cleared);
    }
}

} // verus!
