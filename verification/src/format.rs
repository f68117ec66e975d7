//! What the terminal reads: a listing, a proposal, a thread.
//!
//! The columns are fixed on purpose. A listing that lines up is one a person
//! can scan for the one row that is different, and both surfaces say the same
//! sentence about who is on a proposal, so the browser and the terminal never
//! disagree.

use vstd::prelude::*;

use crate::check::{status_word, Check, CheckView};
use crate::comment::{Comment, CommentView};
use crate::identity::short_of;
use crate::number::{decimal, push_decimal};
use crate::proposal::views::{
    agent_line_of, check_views, checks_on_head, comment_views, conversation_of,
    open_comments_of, summary_of, summary_text,
};
use crate::proposal::{head_of, state_word, Proposal, ProposalView, Revision, RevisionView};
use crate::record::{Record, RecordView};
use crate::text::{copy_str, pad_left, pad_right, push_left_aligned, push_right_aligned};
use crate::wire::annotation::record_line;
use crate::wire::line::render_line;

verus! {

/// Whether a thread shows only what is still in the way.
#[derive(Debug, Clone, Copy, PartialEq, Eq)]
pub enum Scope {
    /// The notes on the head revision that nobody resolved: what blocks.
    Open,
    /// Every note nobody resolved, from any revision: what to read.
    All,
}

/// Whether a thread is for a person or for a program.
#[derive(Debug, Clone, Copy, PartialEq, Eq)]
pub enum Shape {
    /// One readable line per note.
    Text,
    /// The wire bytes, one record per line, for an agent to read.
    Json,
}

/// One row of a listing: name, state, head, how many notes block, the checks,
/// and where it lands, in fixed columns.
pub open spec fn list_row(p: ProposalView) -> Seq<char> {
    pad_right(p.id, 44) + " "@ + pad_right(state_word(p.state), 9) + " r"@ + decimal(
        head_of(p).number as nat,
    ) + "  "@ + pad_left(decimal(open_comments_of(p).len()), 2) + " open  "@ + pad_right(
        summary_text(summary_of(p)),
        8,
    ) + " onto "@ + p.target + "\n"@
}

/// The rows of a listing, in order.
pub open spec fn list_rows(ps: Seq<ProposalView>) -> Seq<char>
    decreases ps.len(),
{
    if ps.len() == 0 {
        Seq::empty()
    } else {
        list_rows(ps.drop_last()) + list_row(ps.last())
    }
}

/// Every proposal, one row each; a sentence when there are none.
pub open spec fn list_text(ps: Seq<ProposalView>) -> Seq<char> {
    if ps.len() == 0 {
        "no proposals yet\n"@
    } else {
        list_rows(ps)
    }
}

/// A listing is one row per proposal, in order: one proposal gives its own
/// row, and two runs of proposals one after the other give their rows one
/// after the other.
pub proof fn law_one_row_per_proposal(a: Seq<ProposalView>, b: Seq<ProposalView>, p: ProposalView)
    ensures
        list_rows(seq![p]) == list_row(p),
        list_rows(a + b) == list_rows(a) + list_rows(b),
    decreases b.len(),
{
    let one = seq![p];
    assert(one.drop_last() =~= Seq::<ProposalView>::empty());
    assert(one.last() == p);
    assert(list_rows(one.drop_last()) == Seq::<char>::empty());
    assert(list_rows(one) =~= list_row(p));
    if b.len() == 0 {
        assert(a + b =~= a);
        assert(list_rows(a) + list_rows(b) =~= list_rows(a));
    } else {
        law_one_row_per_proposal(a, b.drop_last(), p);
        assert((a + b).drop_last() =~= a + b.drop_last());
        assert((a + b).last() == b.last());
        assert(list_rows(a + b) =~= list_rows(a) + list_rows(b.drop_last()) + list_row(b.last()));
    }
}

/// A listing of some proposals holds the row of each of them where it
/// belongs: after the rows of those before it and before the rows of those
/// after it.
pub proof fn law_the_listing_shows_every_proposal(ps: Seq<ProposalView>, k: int)
    requires
        0 <= k < ps.len(),
    ensures
        list_text(ps) == list_rows(ps.take(k)) + list_row(ps[k]) + list_rows(ps.skip(k + 1)),
{
    let before = ps.take(k);
    let after = ps.skip(k + 1);
    assert(ps =~= before + seq![ps[k]] + after);
    law_one_row_per_proposal(before + seq![ps[k]], after, ps[k]);
    law_one_row_per_proposal(before, seq![ps[k]], ps[k]);
}

/// One revision as `show` lists it.
pub open spec fn revision_row(r: RevisionView) -> Seq<char> {
    "  r"@ + pad_right(decimal(r.number as nat), 3) + " "@ + short_of(r.sha) + "\n"@
}

/// Every revision, oldest first.
pub open spec fn revision_rows(rs: Seq<RevisionView>) -> Seq<char>
    decreases rs.len(),
{
    if rs.len() == 0 {
        Seq::empty()
    } else {
        revision_rows(rs.drop_last()) + revision_row(rs.last())
    }
}

/// One result as `show` lists it.
pub open spec fn check_row(c: CheckView) -> Seq<char> {
    pad_right(c.name, 16) + " "@ + status_word(c.status) + " in "@ + decimal(c.seconds as nat)
        + "s\n"@
}

/// Every result, in order.
pub open spec fn check_rows(cs: Seq<CheckView>) -> Seq<char>
    decreases cs.len(),
{
    if cs.len() == 0 {
        Seq::empty()
    } else {
        check_rows(cs.drop_last()) + check_row(cs.last())
    }
}

/// Where a note is, as `show` writes it: one line, or `start:end`.
pub open spec fn range_text(c: CommentView) -> Seq<char> {
    if c.anchor.span.end > c.anchor.span.start {
        decimal(c.anchor.span.start as nat) + ":"@ + decimal(c.anchor.span.end as nat)
    } else {
        decimal(c.anchor.span.start as nat)
    }
}

/// A note the way `show` prints it: where it is, then what it says.
pub open spec fn thread_text(c: CommentView) -> Seq<char> {
    c.id + "  "@ + c.anchor.file + ":"@ + range_text(c) + "\n  "@ + c.body + "\n"@
}

/// The notes, one after another.
pub open spec fn thread_texts(cs: Seq<CommentView>) -> Seq<char>
    decreases cs.len(),
{
    if cs.len() == 0 {
        Seq::empty()
    } else {
        thread_texts(cs.drop_last()) + thread_text(cs.last())
    }
}

/// One proposal: what it is, where it goes, its revisions, what ran on the
/// head, who is on it, and what is still in the way.
pub open spec fn show_text(p: ProposalView) -> Seq<char> {
    p.id + "\n"@ + p.title + "\n\nonto "@ + p.target + ", cut from "@ + short_of(p.base)
        + "\nstate "@ + state_word(p.state) + ", revision "@ + decimal(head_of(p).number as nat)
        + " of "@ + decimal(p.revisions.len()) + "\n\n"@ + revision_rows(p.revisions) + "\n"@
        + check_rows(checks_on_head(p)) + (if checks_on_head(p).len() > 0 {
        "\n"@
    } else {
        Seq::empty()
    }) + agent_line_of(p) + "\n\n"@ + (if open_comments_of(p).len() == 0 {
        "nothing open\n"@
    } else {
        thread_texts(open_comments_of(p))
    })
}

/// One note in the shape asked for: a readable line, or its wire line.
pub open spec fn note_text(c: CommentView, shape: Shape) -> Seq<char> {
    match shape {
        Shape::Text => c.id + "  "@ + c.anchor.file + ":"@ + decimal(c.anchor.span.start as nat)
            + "  "@ + c.body + "\n"@,
        Shape::Json => render_line(record_line(RecordView::Comment(c))) + "\n"@,
    }
}

/// The notes in the shape asked for, one after another.
pub open spec fn note_texts(cs: Seq<CommentView>, shape: Shape) -> Seq<char>
    decreases cs.len(),
{
    if cs.len() == 0 {
        Seq::empty()
    } else {
        note_texts(cs.drop_last(), shape) + note_text(cs.last(), shape)
    }
}

/// The notes a scope covers.
pub open spec fn scoped(p: ProposalView, scope: Scope) -> Seq<CommentView> {
    match scope {
        Scope::Open => open_comments_of(p),
        Scope::All => conversation_of(p),
    }
}

/// One result as `check` reports it while it goes.
pub open spec fn check_line_text(c: CheckView) -> Seq<char> {
    pad_right(c.name, 16) + " "@ + pad_right(status_word(c.status), 7) + " "@ + decimal(
        c.seconds as nat,
    ) + "s"@
}

fn push_row(text: &mut String, proposal: &Proposal)
    ensures
        final(text)@ == old(text)@ + list_row(proposal@),
{
    push_left_aligned(text, proposal.id().as_str(), 44);
    text.append(" ");
    push_left_aligned(text, proposal.state().as_str(), 9);
    text.append(" r");
    push_decimal(text, proposal.head().number() as u64);
    text.append("  ");
    let open = proposal.open_comments();
    let mut count = String::new();
    push_decimal(&mut count, open.len() as u64);
    push_right_aligned(text, count.as_str(), 2);
    text.append(" open  ");
    let summary = proposal.check_summary().to_string();
    push_left_aligned(text, summary.as_str(), 8);
    text.append(" onto ");
    text.append(proposal.target().as_str());
    text.append("\n");
    assert(comment_views(open@).len() == open@.len());
}

/// Every proposal, one row each.
pub fn list(proposals: &[Proposal]) -> (s: String)
    ensures
        s@ == list_text(proposals@.map_values(|p: Proposal| p@)),
{
    let ghost ps = proposals@.map_values(|p: Proposal| p@);
    if proposals.len() == 0 {
        return copy_str("no proposals yet\n");
    }
    let mut text = String::new();
    let mut i: usize = 0;
    while i < proposals.len()
        invariant
            i <= proposals@.len(),
            ps == proposals@.map_values(|p: Proposal| p@),
            text@ == list_rows(ps.take(i as int)),
        decreases proposals.len() - i,
    {
        push_row(&mut text, &proposals[i]);
        assert(ps.take(i + 1).drop_last() =~= ps.take(i as int));
        i = i + 1;
    }
    assert(ps.take(proposals@.len() as int) =~= ps);
    text
}

fn push_revisions(text: &mut String, revisions: &Vec<&Revision>)
    ensures
        final(text)@ == old(text)@ + revision_rows(revisions@.map_values(|r: &Revision| r@)),
{
    let ghost rs = revisions@.map_values(|r: &Revision| r@);
    let ghost start = text@;
    let mut i: usize = 0;
    while i < revisions.len()
        invariant
            i <= revisions@.len(),
            rs == revisions@.map_values(|r: &Revision| r@),
            text@ == start + revision_rows(rs.take(i as int)),
        decreases revisions.len() - i,
    {
        let revision = revisions[i];
        text.append("  r");
        let mut number = String::new();
        push_decimal(&mut number, revision.number() as u64);
        push_left_aligned(text, number.as_str(), 3);
        text.append(" ");
        let short = revision.sha().short();
        text.append(short.as_str());
        text.append("\n");
        assert(rs.take(i + 1).drop_last() =~= rs.take(i as int));
        i = i + 1;
    }
    assert(rs.take(revisions@.len() as int) =~= rs);
}

fn push_checks(text: &mut String, checks: &Vec<&Check>)
    ensures
        final(text)@ == old(text)@ + check_rows(check_views(checks@)),
{
    let ghost cs = check_views(checks@);
    let ghost start = text@;
    let mut i: usize = 0;
    while i < checks.len()
        invariant
            i <= checks@.len(),
            cs == check_views(checks@),
            text@ == start + check_rows(cs.take(i as int)),
        decreases checks.len() - i,
    {
        let check = checks[i];
        push_left_aligned(text, check.name().as_str(), 16);
        text.append(" ");
        text.append(check.status().as_str());
        text.append(" in ");
        push_decimal(text, check.seconds() as u64);
        text.append("s\n");
        assert(cs.take(i + 1).drop_last() =~= cs.take(i as int));
        i = i + 1;
    }
    assert(cs.take(checks@.len() as int) =~= cs);
}

fn push_thread_line(text: &mut String, comment: &Comment)
    ensures
        final(text)@ == old(text)@ + thread_text(comment@),
{
    let span = comment.anchor().span();
    text.append(comment.id().as_str());
    text.append("  ");
    text.append(comment.anchor().file().as_str());
    text.append(":");
    push_decimal(text, span.start() as u64);
    if span.end() > span.start() {
        text.append(":");
        push_decimal(text, span.end() as u64);
    }
    text.append("\n  ");
    text.append(comment.body());
    text.append("\n");
}

/// One proposal: what it is, where it goes, what ran on it and what is still
/// in the way.
pub fn show(proposal: &Proposal) -> (s: String)
    ensures
        s@ == show_text(proposal@),
{
    let ghost p = proposal@;
    let revisions = proposal.revisions();
    let mut text = copy_str(proposal.id().as_str());
    text.append("\n");
    text.append(proposal.title());
    text.append("\n\nonto ");
    text.append(proposal.target().as_str());
    text.append(", cut from ");
    let base = proposal.base().short();
    text.append(base.as_str());
    text.append("\nstate ");
    text.append(proposal.state().as_str());
    text.append(", revision ");
    push_decimal(&mut text, proposal.head().number() as u64);
    text.append(" of ");
    push_decimal(&mut text, revisions.len() as u64);
    text.append("\n\n");
    assert(revisions@.map_values(|r: &Revision| r@).len() == revisions@.len());
    push_revisions(&mut text, &revisions);
    text.append("\n");
    let checks = proposal.checks();
    push_checks(&mut text, &checks);
    if checks.len() > 0 {
        text.append("\n");
    }
    assert(check_views(checks@).len() == checks@.len());
    let agent = proposal.agent_line();
    text.append(agent.as_str());
    text.append("\n\n");
    let open = proposal.open_comments();
    let ghost head = text@;
    assert(comment_views(open@).len() == open@.len());
    if open.len() == 0 {
        text.append("nothing open\n");
        assert(text@ =~= show_text(p));
        return text;
    }
    let ghost notes = comment_views(open@);
    let mut i: usize = 0;
    while i < open.len()
        invariant
            i <= open@.len(),
            notes == comment_views(open@),
            text@ == head + thread_texts(notes.take(i as int)),
        decreases open.len() - i,
    {
        push_thread_line(&mut text, open[i]);
        assert(notes.take(i + 1).drop_last() =~= notes.take(i as int));
        i = i + 1;
    }
    assert(notes.take(open@.len() as int) =~= notes);
    assert(text@ =~= show_text(p));
    text
}

fn push_note(text: &mut String, comment: &Comment, shape: Shape)
    ensures
        final(text)@ == old(text)@ + note_text(comment@, shape),
{
    match shape {
        Shape::Text => {
            text.append(comment.id().as_str());
            text.append("  ");
            text.append(comment.anchor().file().as_str());
            text.append(":");
            push_decimal(text, comment.anchor().span().start() as u64);
            text.append("  ");
            text.append(comment.body());
            text.append("\n");
        },
        Shape::Json => {
            let line = Record::Comment(comment.duplicate()).to_line();
            text.append(line.as_str());
            text.append("\n");
        },
    }
}

/// The notes on a proposal, for a person or for an agent.
pub fn comments(proposal: &Proposal, scope: Scope, shape: Shape) -> (s: String)
    ensures
        s@ == note_texts(scoped(proposal@, scope), shape),
{
    let notes = match scope {
        Scope::Open => proposal.open_comments(),
        Scope::All => proposal.conversation(),
    };
    let ghost views = comment_views(notes@);
    let mut text = String::new();
    let mut i: usize = 0;
    while i < notes.len()
        invariant
            i <= notes@.len(),
            views == comment_views(notes@),
            text@ == note_texts(views.take(i as int), shape),
        decreases notes.len() - i,
    {
        push_note(&mut text, notes[i], shape);
        assert(views.take(i + 1).drop_last() =~= views.take(i as int));
        i = i + 1;
    }
    assert(views.take(notes@.len() as int) =~= views);
    text
}

/// One result, as `check` reports it while it goes.
pub fn check_line(check: &Check) -> (s: String)
    ensures
        s@ == check_line_text(check@),
{
    let mut s = String::new();
    push_left_aligned(&mut s, check.name().as_str(), 16);
    s.append(" ");
    push_left_aligned(&mut s, check.status().as_str(), 7);
    s.append(" ");
    push_decimal(&mut s, check.seconds() as u64);
    s.append("s");
    s
}

} // verus!
