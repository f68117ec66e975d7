//! The review as one instruction, in the exact words an agent reads on stdin.
//!
//! Somebody reading the patch leaves notes for an hour and hands them over once, rather than
//! relaying them one at a time. Both texts are built from the conversation and
//! not from the blocking set: a question that fell off the head when somebody
//! committed is still a question nobody answered.
//!
//! Both are empty when the conversation is empty, because there is nothing to
//! say.

use vstd::prelude::*;

use crate::chunk::{Chunk, ChunkView};
use crate::comment::{Comment, CommentView};
use crate::identity::{short_of, ProposalId, Sha};
use crate::number::{decimal, push_decimal};
use crate::proposal::views::{
    comment_views, conversation_of, open_comments_of, reply_views, thread_of,
};
use crate::proposal::{head_of, Proposal, ProposalView};
use crate::reply::{Reply, ReplyView};
use crate::span::anchor_text;
use crate::text::copy_str;

verus! {

/// A word, with an `s` unless there is exactly one.
pub open spec fn plural_of(count: nat, word: Seq<char>) -> Seq<char> {
    if count == 1 {
        word
    } else {
        word + "s"@
    }
}

/// What was already said under a note, one indented line per answer.
pub open spec fn answer_lines(answers: Seq<ReplyView>) -> Seq<char>
    decreases answers.len(),
{
    if answers.len() == 0 {
        Seq::empty()
    } else {
        answer_lines(answers.drop_last()) + "    "@ + answers.last().author + ": "@
            + answers.last().body + "\n"@
    }
}

/// One note as the review hands it over: where, which, what, what was already
/// said under it, and for a person the command that resolves it.
pub open spec fn note_block(p: ProposalView, c: CommentView, shown: bool) -> Seq<char> {
    "\n"@ + anchor_text(c.anchor) + "  [note "@ + c.id + "]\n  "@ + c.body + "\n"@
        + answer_lines(thread_of(p, c.id)) + (if shown {
        "  githerb resolve "@ + p.id + " "@ + c.id + "\n"@
    } else {
        Seq::empty()
    })
}

/// The notes, one block after another.
pub open spec fn note_blocks(p: ProposalView, notes: Seq<CommentView>, shown: bool) -> Seq<char>
    decreases notes.len(),
{
    if notes.len() == 0 {
        Seq::empty()
    } else {
        note_blocks(p, notes.drop_last(), shown) + note_block(p, notes.last(), shown)
    }
}

/// The heading of a review: which proposal, where to, which revision, and how
/// many notes.
pub open spec fn review_heading(p: ProposalView) -> Seq<char> {
    let n = conversation_of(p).len();
    "Review of "@ + p.id + " onto "@ + p.target + ", revision "@ + decimal(
        head_of(p).number as nat,
    ) + ". "@ + decimal(n) + " "@ + plural_of(n, "note"@) + " to apply.\n"@
}

/// The review of every unresolved note, then the closing; nothing when
/// nothing is unresolved.
pub open spec fn review_text(p: ProposalView, shown: bool, closing: Seq<char>) -> Seq<char> {
    if conversation_of(p).len() == 0 {
        Seq::empty()
    } else {
        review_heading(p) + note_blocks(p, conversation_of(p), shown) + "\n"@ + closing
    }
}

/// What a person is told to do once every note is dealt with.
pub open spec fn handover_closing(p: ProposalView) -> Seq<char> {
    "Apply each note and resolve it, then: githerb revise "@ + p.id + "\n"@
}

/// What a person copies: the review with the commands that answer it.
pub open spec fn handover_text(p: ProposalView) -> Seq<char> {
    review_text(p, true, handover_closing(p))
}

/// What a runner's agent is told to do once every note is dealt with.
pub open spec fn runner_closing() -> Seq<char> {
    "Then, for the notes that asked for a change, make it here and commit.\nDo not push, do not rebase, and do not run githerb: the commit you leave here\nis read back as the next revision.\n"@
}

/// How a runner's agent answers a note.
pub open spec fn runner_preamble() -> Seq<char> {
    "Answer every note below, in words, by running this once per note:\n\n  printf '%s\\n' '{\"note\":\"<id>\",\"say\":\"<one line, plain, no markdown>\"}' >> \"$GITHERB_ANSWERS\"\n\nThat is the only way anything you say reaches the person who asked. A note you\nanswered by changing code still gets a line saying what you changed.\n\n"@
}

/// One line per settled decision.
pub open spec fn decision_lines(chunks: Seq<ChunkView>) -> Seq<char>
    decreases chunks.len(),
{
    if chunks.len() == 0 {
        Seq::empty()
    } else {
        decision_lines(chunks.drop_last()) + "- "@ + chunks.last().title + ": "@
            + chunks.last().decision + "\n"@
    }
}

/// What the proposal already settled, while something on the head is open.
pub open spec fn decisions_text(p: ProposalView) -> Seq<char> {
    if p.chunks.len() == 0 || open_comments_of(p).len() == 0 {
        Seq::empty()
    } else {
        "What this proposal already decided, and is not up for debate:\n"@ + decision_lines(
            p.chunks,
        ) + "\n"@
    }
}

/// What a runner hands its agent: how to answer, what is settled, the review
/// without the commands; nothing when nothing is unresolved.
pub open spec fn brief_text(p: ProposalView) -> Seq<char> {
    let notes = review_text(p, false, runner_closing());
    if notes.len() == 0 {
        Seq::empty()
    } else {
        runner_preamble() + decisions_text(p) + notes
    }
}

/// What a rebase that stopped hands to an agent.
pub open spec fn conflict_text(id: Seq<char>, onto: Seq<char>) -> Seq<char> {
    "A rebase of "@ + id + " onto "@ + short_of(onto)
        + " stopped on a conflict.\nResolve every conflict in this worktree, keeping what the proposal is for, then\ngit add the files and run git rebase --continue until the rebase is finished.\nChange nothing else.\n"@
}

/// Both hand-overs are empty exactly when no note is left unresolved, from
/// any revision: a note that fell off the head is still handed over.
pub proof fn law_nothing_unresolved_hands_over_nothing(p: ProposalView)
    ensures
        (handover_text(p).len() == 0) == (conversation_of(p).len() == 0),
        (brief_text(p).len() == 0) == (conversation_of(p).len() == 0),
{
    if conversation_of(p).len() > 0 {
        assert(review_heading(p).len() > 0);
    }
}

/// Whether `t` occurs in `s` as a run of consecutive characters.
pub open spec fn occurs(s: Seq<char>, t: Seq<char>) -> bool {
    exists|i: int| 0 <= i && i + t.len() <= s.len() && #[trigger] s.subrange(i, i + t.len()) == t
}

proof fn lemma_occurs_self(t: Seq<char>)
    ensures
        occurs(t, t),
{
    let z: int = 0;
    assert(t.subrange(z, z + t.len()) =~= t);
}

proof fn lemma_occurs_left(a: Seq<char>, b: Seq<char>, t: Seq<char>)
    requires
        occurs(a, t),
    ensures
        occurs(a + b, t),
{
    let i = choose|i: int| 0 <= i && i + t.len() <= a.len() && #[trigger] a.subrange(i, i + t.len()) == t;
    assert((a + b).subrange(i, i + t.len()) =~= a.subrange(i, i + t.len()));
}

proof fn lemma_occurs_right(a: Seq<char>, b: Seq<char>, t: Seq<char>)
    requires
        occurs(b, t),
    ensures
        occurs(a + b, t),
{
    let i = choose|i: int| 0 <= i && i + t.len() <= b.len() && #[trigger] b.subrange(i, i + t.len()) == t;
    assert((a + b).subrange(a.len() + i, a.len() + i + t.len()) =~= b.subrange(i, i + t.len()));
}

proof fn lemma_occurs_trans(s: Seq<char>, t: Seq<char>, u: Seq<char>)
    requires
        occurs(s, t),
        occurs(t, u),
    ensures
        occurs(s, u),
{
    let i = choose|i: int| 0 <= i && i + t.len() <= s.len() && #[trigger] s.subrange(i, i + t.len()) == t;
    let j = choose|j: int| 0 <= j && j + u.len() <= t.len() && #[trigger] t.subrange(j, j + u.len()) == u;
    assert(s.subrange(i + j, i + j + u.len()) =~= t.subrange(j, j + u.len()));
}

/// Where a note is, which note it is and what it says, as a hand-over
/// writes it.
pub open spec fn note_core(c: CommentView) -> Seq<char> {
    anchor_text(c.anchor) + "  [note "@ + c.id + "]\n  "@ + c.body + "\n"@
}

proof fn lemma_block_carries_core(p: ProposalView, c: CommentView, shown: bool)
    ensures
        occurs(note_block(p, c, shown), note_core(c)),
{
    let rest = answer_lines(thread_of(p, c.id)) + (if shown {
        "  githerb resolve "@ + p.id + " "@ + c.id + "\n"@
    } else {
        Seq::empty()
    });
    assert(note_block(p, c, shown) =~= "\n"@ + note_core(c) + rest);
    lemma_occurs_self(note_core(c));
    lemma_occurs_right("\n"@, note_core(c), note_core(c));
    lemma_occurs_left("\n"@ + note_core(c), rest, note_core(c));
}

proof fn lemma_blocks_carry(
    p: ProposalView,
    notes: Seq<CommentView>,
    shown: bool,
    k: int,
    t: Seq<char>,
)
    requires
        0 <= k < notes.len(),
        occurs(note_block(p, notes[k], shown), t),
    ensures
        occurs(note_blocks(p, notes, shown), t),
    decreases notes.len(),
{
    let init = note_blocks(p, notes.drop_last(), shown);
    let last = note_block(p, notes.last(), shown);
    if k == notes.len() - 1 {
        lemma_occurs_right(init, last, t);
    } else {
        assert(notes.drop_last()[k] == notes[k]);
        lemma_blocks_carry(p, notes.drop_last(), shown, k, t);
        lemma_occurs_left(init, last, t);
    }
}

proof fn lemma_review_carries(
    p: ProposalView,
    shown: bool,
    closing: Seq<char>,
    k: int,
    t: Seq<char>,
)
    requires
        0 <= k < conversation_of(p).len(),
        occurs(note_block(p, conversation_of(p)[k], shown), t),
    ensures
        occurs(review_text(p, shown, closing), t),
{
    let conv = conversation_of(p);
    lemma_blocks_carry(p, conv, shown, k, t);
    lemma_occurs_right(review_heading(p), note_blocks(p, conv, shown), t);
    lemma_occurs_left(review_heading(p) + note_blocks(p, conv, shown), "\n"@, t);
    lemma_occurs_left(review_heading(p) + note_blocks(p, conv, shown) + "\n"@, closing, t);
}

#[verifier::spinoff_prover]
proof fn lemma_brief_is_not_handover(p: ProposalView)
    requires
        conversation_of(p).len() > 0,
    ensures
        brief_text(p) != handover_text(p),
{
    reveal_strlit("Review of ");
    reveal_strlit(
        "Answer every note below, in words, by running this once per note:\n\n  printf '%s\\n' '{\"note\":\"<id>\",\"say\":\"<one line, plain, no markdown>\"}' >> \"$GITHERB_ANSWERS\"\n\nThat is the only way anything you say reaches the person who asked. A note you\nanswered by changing code still gets a line saying what you changed.\n\n",
    );
    let notes = review_text(p, false, runner_closing());
    assert(review_heading(p).len() > 0);
    let pre = runner_preamble() + decisions_text(p);
    assert(brief_text(p) == pre + notes);
    assert(runner_preamble()[0] == 'A');
    assert((pre + notes)[0] == 'A');
    assert(handover_text(p)[0] == review_heading(p)[0]);
    assert(review_heading(p)[0] == 'R');
}

#[verifier::spinoff_prover]
proof fn lemma_both_carry(p: ProposalView, k: int, t: Seq<char>)
    requires
        0 <= k < conversation_of(p).len(),
        occurs(note_block(p, conversation_of(p)[k], false), t),
        occurs(note_block(p, conversation_of(p)[k], true), t),
    ensures
        occurs(brief_text(p), t),
        occurs(handover_text(p), t),
{
    let notes = review_text(p, false, runner_closing());
    lemma_review_carries(p, false, runner_closing(), k, t);
    lemma_review_carries(p, true, handover_closing(p), k, t);
    assert(notes.len() > 0);
    let pre = runner_preamble() + decisions_text(p);
    assert(brief_text(p) == pre + notes);
    lemma_occurs_right(pre, notes, t);
}

/// The brief an agent reads and the hand-over a person copies say the same
/// notes: both are empty exactly when nothing is unresolved, and otherwise
/// they differ, and each carries every unresolved note, from any revision,
/// with where it is, which note it is and what it says.
pub proof fn law_the_brief_carries_every_note(p: ProposalView)
    ensures
        (brief_text(p).len() == 0) == (handover_text(p).len() == 0),
        conversation_of(p).len() > 0 ==> brief_text(p) != handover_text(p),
        forall|k: int|
            0 <= k < conversation_of(p).len() ==> occurs(
                brief_text(p),
                note_core(#[trigger] conversation_of(p)[k]),
            ) && occurs(handover_text(p), note_core(conversation_of(p)[k])),
{
    law_nothing_unresolved_hands_over_nothing(p);
    if conversation_of(p).len() > 0 {
        lemma_brief_is_not_handover(p);
    }
    assert forall|k: int| 0 <= k < conversation_of(p).len() implies occurs(
        brief_text(p),
        note_core(#[trigger] conversation_of(p)[k]),
    ) && occurs(handover_text(p), note_core(conversation_of(p)[k])) by {
        let c = conversation_of(p)[k];
        lemma_block_carries_core(p, c, false);
        lemma_block_carries_core(p, c, true);
        lemma_both_carry(p, k, note_core(c));
    }
}

/// One answer as it stands under a note: indented, who said it, what they said.
pub open spec fn answer_line(r: ReplyView) -> Seq<char> {
    "    "@ + r.author + ": "@ + r.body + "\n"@
}

/// The answers under a note are one line per answer, in the order of the
/// thread: one answer gives its own line, and two runs of answers one after
/// the other give their lines one after the other.
pub proof fn law_one_line_per_answer(a: Seq<ReplyView>, b: Seq<ReplyView>, r: ReplyView)
    ensures
        answer_lines(seq![r]) == answer_line(r),
        answer_lines(a + b) == answer_lines(a) + answer_lines(b),
    decreases b.len(),
{
    let one = seq![r];
    assert(one.drop_last() =~= Seq::<ReplyView>::empty());
    assert(one.last() == r);
    assert(answer_lines(one.drop_last()) == Seq::<char>::empty());
    assert(answer_lines(one) == answer_lines(one.drop_last()) + "    "@ + r.author + ": "@ + r.body
        + "\n"@);
    assert(answer_lines(one) =~= answer_line(r));
    if b.len() == 0 {
        assert(a + b =~= a);
        assert(answer_lines(a) + answer_lines(b) =~= answer_lines(a));
    } else {
        law_one_line_per_answer(a, b.drop_last(), r);
        assert((a + b).drop_last() =~= a + b.drop_last());
        assert((a + b).last() == b.last());
        assert(answer_lines(a + b) =~= answer_lines(a) + answer_lines(b.drop_last()) + answer_line(
            b.last(),
        ));
        assert(answer_lines(b) =~= answer_lines(b.drop_last()) + answer_line(b.last()));
    }
}

proof fn lemma_lines_carry(answers: Seq<ReplyView>, j: int)
    requires
        0 <= j < answers.len(),
    ensures
        occurs(answer_lines(answers), answer_line(answers[j])),
    decreases answers.len(),
{
    let init = answers.drop_last();
    assert(answer_lines(answers) =~= answer_lines(init) + answer_line(answers.last()));
    if j == answers.len() - 1 {
        lemma_occurs_self(answer_line(answers[j]));
        lemma_occurs_right(answer_lines(init), answer_line(answers.last()), answer_line(answers[j]));
    } else {
        assert(init[j] == answers[j]);
        lemma_lines_carry(init, j);
        lemma_occurs_left(answer_lines(init), answer_line(answers.last()), answer_line(answers[j]));
    }
}

proof fn lemma_block_carries_answers(p: ProposalView, c: CommentView, shown: bool, j: int)
    requires
        0 <= j < thread_of(p, c.id).len(),
    ensures
        occurs(note_block(p, c, shown), note_core(c) + answer_lines(thread_of(p, c.id))),
        occurs(note_block(p, c, shown), answer_line(thread_of(p, c.id)[j])),
{
    let said = note_core(c) + answer_lines(thread_of(p, c.id));
    let tail = if shown {
        "  githerb resolve "@ + p.id + " "@ + c.id + "\n"@
    } else {
        Seq::empty()
    };
    assert(note_block(p, c, shown) =~= "\n"@ + said + tail);
    lemma_occurs_self(said);
    lemma_occurs_right("\n"@, said, said);
    lemma_occurs_left("\n"@ + said, tail, said);
    lemma_lines_carry(thread_of(p, c.id), j);
    lemma_occurs_right(note_core(c), answer_lines(thread_of(p, c.id)), answer_line(thread_of(p, c.id)[j]));
    lemma_occurs_trans(note_block(p, c, shown), said, answer_line(thread_of(p, c.id)[j]));
}

/// Both hand-overs carry, under every unresolved note, every answer in its
/// thread: the note is followed at once by its answers, one line each, and
/// each answer's line is in the text.
pub proof fn law_the_hand_over_carries_every_answer(p: ProposalView, k: int, j: int)
    requires
        0 <= k < conversation_of(p).len(),
        0 <= j < thread_of(p, conversation_of(p)[k].id).len(),
    ensures
        occurs(
            handover_text(p),
            note_core(conversation_of(p)[k]) + answer_lines(thread_of(p, conversation_of(p)[k].id)),
        ),
        occurs(
            brief_text(p),
            note_core(conversation_of(p)[k]) + answer_lines(thread_of(p, conversation_of(p)[k].id)),
        ),
        occurs(handover_text(p), answer_line(thread_of(p, conversation_of(p)[k].id)[j])),
        occurs(brief_text(p), answer_line(thread_of(p, conversation_of(p)[k].id)[j])),
{
    let c = conversation_of(p)[k];
    lemma_block_carries_answers(p, c, false, j);
    lemma_block_carries_answers(p, c, true, j);
    lemma_both_carry(p, k, note_core(c) + answer_lines(thread_of(p, c.id)));
    lemma_both_carry(p, k, answer_line(thread_of(p, c.id)[j]));
}

/// What a person copies from the browser button, and what `githerb handover`
/// prints.
pub fn handover(proposal: &Proposal) -> (s: String)
    ensures
        s@ == handover_text(proposal@),
{
    let mut closing = copy_str("Apply each note and resolve it, then: githerb revise ");
    closing.append(proposal.id().as_str());
    closing.append("\n");
    body(proposal, true, closing.as_str())
}

/// The same notes handed to an agent by a runner, which records the revision
/// itself. An agent told to record it too records it first, and then the
/// runner is the one that looks like it failed.
pub fn brief(proposal: &Proposal) -> (s: String)
    ensures
        s@ == brief_text(proposal@),
{
    let notes = body(
        proposal,
        false,
        "Then, for the notes that asked for a change, make it here and commit.\nDo not push, do not rebase, and do not run githerb: the commit you leave here\nis read back as the next revision.\n",
    );
    if notes.as_str().is_empty() {
        return notes;
    }
    let mut text = copy_str(
        "Answer every note below, in words, by running this once per note:\n\n  printf '%s\\n' '{\"note\":\"<id>\",\"say\":\"<one line, plain, no markdown>\"}' >> \"$GITHERB_ANSWERS\"\n\nThat is the only way anything you say reaches the person who asked. A note you\nanswered by changing code still gets a line saying what you changed.\n\n",
    );
    let settled = decisions(proposal);
    text.append(settled.as_str());
    text.append(notes.as_str());
    text
}

/// What a rebase that stopped hands to an agent. It is not a review: nothing
/// is open, there is only a conflict somebody has to resolve.
pub fn conflict_brief(id: &ProposalId, onto: &Sha) -> (s: String)
    ensures
        s@ == conflict_text(id@, onto@),
{
    let mut s = copy_str("A rebase of ");
    s.append(id.as_str());
    s.append(" onto ");
    let short = onto.short();
    s.append(short.as_str());
    s.append(
        " stopped on a conflict.\nResolve every conflict in this worktree, keeping what the proposal is for, then\ngit add the files and run git rebase --continue until the rebase is finished.\nChange nothing else.\n",
    );
    s
}

/// What the proposal already settled.
///
/// The agent answering the notes is a new process with no memory of the one
/// that wrote the code, so the reasoning travels with the work or it gets
/// re-litigated every revision.
fn decisions(proposal: &Proposal) -> (s: String)
    ensures
        s@ == decisions_text(proposal@),
{
    let chunks = proposal.chunks();
    let open = proposal.open_comments();
    assert(comment_views(open@).len() == open@.len());
    if chunks.len() == 0 || open.len() == 0 {
        return String::new();
    }
    let ghost views = chunks@.map_values(|c: Chunk| c@);
    let mut text = copy_str("What this proposal already decided, and is not up for debate:\n");
    let ghost head = text@;
    let mut i: usize = 0;
    while i < chunks.len()
        invariant
            i <= chunks@.len(),
            views == chunks@.map_values(|c: Chunk| c@),
            text@ == head + decision_lines(views.take(i as int)),
        decreases chunks.len() - i,
    {
        let chunk = &chunks[i];
        text.append("- ");
        text.append(chunk.title());
        text.append(": ");
        text.append(chunk.decision());
        text.append("\n");
        assert(views.take(i + 1).drop_last() =~= views.take(i as int));
        i = i + 1;
    }
    text.append("\n");
    assert(views.take(chunks@.len() as int) =~= views);
    text
}

fn plural(count: usize, word: &str) -> (s: String)
    ensures
        s@ == plural_of(count as nat, word@),
{
    let mut s = copy_str(word);
    if count != 1 {
        s.append("s");
    }
    s
}

fn push_answers(text: &mut String, answers: &Vec<&Reply>)
    ensures
        final(text)@ == old(text)@ + answer_lines(reply_views(answers@)),
{
    let ghost views = reply_views(answers@);
    let ghost start = text@;
    let mut i: usize = 0;
    while i < answers.len()
        invariant
            i <= answers@.len(),
            views == reply_views(answers@),
            text@ == start + answer_lines(views.take(i as int)),
        decreases answers.len() - i,
    {
        let answer = answers[i];
        text.append("    ");
        text.append(answer.author().as_str());
        text.append(": ");
        text.append(answer.body());
        text.append("\n");
        assert(views.take(i + 1).drop_last() =~= views.take(i as int));
        i = i + 1;
    }
    assert(views.take(answers@.len() as int) =~= views);
}

fn push_note(text: &mut String, proposal: &Proposal, comment: &Comment, shown: bool)
    ensures
        final(text)@ == old(text)@ + note_block(proposal@, comment@, shown),
{
    text.append("\n");
    let anchor = comment.anchor().to_string();
    text.append(anchor.as_str());
    text.append("  [note ");
    text.append(comment.id().as_str());
    text.append("]\n  ");
    text.append(comment.body());
    text.append("\n");
    // What was already said under it, so the answer continues the thread
    // instead of starting it again.
    let answers = proposal.answers(comment.id());
    push_answers(text, &answers);
    if shown {
        text.append("  githerb resolve ");
        text.append(proposal.id().as_str());
        text.append(" ");
        text.append(comment.id().as_str());
        text.append("\n");
    }
}

fn body(proposal: &Proposal, shown: bool, closing: &str) -> (s: String)
    ensures
        s@ == review_text(proposal@, shown, closing@),
{
    let open = proposal.conversation();
    if open.len() == 0 {
        return String::new();
    }
    let ghost p = proposal@;
    let ghost notes = comment_views(open@);
    let mut text = copy_str("Review of ");
    text.append(proposal.id().as_str());
    text.append(" onto ");
    text.append(proposal.target().as_str());
    text.append(", revision ");
    push_decimal(&mut text, proposal.head().number() as u64);
    text.append(". ");
    push_decimal(&mut text, open.len() as u64);
    text.append(" ");
    let word = plural(open.len(), "note");
    text.append(word.as_str());
    text.append(" to apply.\n");
    let ghost heading = text@;
    assert(heading =~= review_heading(p));
    let mut i: usize = 0;
    while i < open.len()
        invariant
            i <= open@.len(),
            p == proposal@,
            notes == comment_views(open@),
            text@ == heading + note_blocks(p, notes.take(i as int), shown),
        decreases open.len() - i,
    {
        push_note(&mut text, proposal, open[i], shown);
        assert(notes.take(i + 1).drop_last() =~= notes.take(i as int));
        i = i + 1;
    }
    assert(notes.take(open@.len() as int) =~= notes);
    text.append("\n");
    text.append(closing);
    text
}

} // verus!
