//! Every proposal in the repository, rebuilt from the log in one pass.
//!
//! The whole store is three reads: the refs, the event notes and the
//! annotation notes. Everything after that is folding text that is already in
//! memory, which is what this module does: it takes what the reads found,
//! each note already split into lines and each line into its fields, and
//! rebuilds every proposal from it.
//!
//! A snapshot remembers the fingerprint it was read at. That is what lets a
//! caller keep one and ask whether anything moved instead of reading it all
//! again.

use vstd::prelude::*;

use crate::branch::Branch;
use crate::errors::{Error as CoreError, ErrorView as CoreErrorView};
use crate::identity::{proposal_id_result, sha_result, ProposalId, Sha};
use crate::lifecycle::{Event, EventKind, EventView};
use crate::patch::{has_prefix, line_end, u32_text};
use crate::proposal::{
    apply_all, apply_spec, fold_spec, is_answer, knows_revision, proposal_wf, record_views, revision_number, Proposal,
    ProposalView, Revision, RevisionView, State,
};
use crate::record::{Record, RecordView};
use crate::text::{chars_of, copy_str, string_of, text_less, text_lt, trim, trimmed};
use crate::timestamp::Timestamp;
use crate::usecase::error::{Error, ErrorView};
use crate::wire::annotation::record_from_line;
use crate::wire::event::{event_from_line, EventLine, EventLineView};
use crate::wire::line::{Line, LineView};

verus! {

/// Where the revisions of every proposal live: `<this>/<id>/<n>`.
pub const PROPOSAL_REFS: &'static str = "refs/githerb/proposals";

/// What the proposal log is called in a refusal.
pub const PROPOSAL_LOG: &'static str = "proposal log";

/// What the annotation log is called in a refusal.
pub const ANNOTATION_LOG: &'static str = "annotation log";

// ---------------------------------------------------------------------------
// Notes, as the caller hands them over.

/// The lines of a note that say anything, each trimmed, from `pos` on.
pub open spec fn note_lines_from(text: Seq<char>, pos: int) -> Seq<Seq<char>>
    decreases text.len() + 1 - pos,
{
    if pos < 0 || pos >= text.len() {
        Seq::empty()
    } else {
        let e = line_end(text, pos);
        proof {
            crate::patch::lemma_line_end(text, pos);
        }
        let line = trimmed(text.subrange(pos, e));
        let rest = note_lines_from(text, e + 1);
        if line.len() == 0 {
            rest
        } else {
            seq![line] + rest
        }
    }
}

/// The lines of a note that say anything, each trimmed.
pub open spec fn note_lines_of(text: Seq<char>) -> Seq<Seq<char>> {
    note_lines_from(text, 0)
}

/// The lines of a note that say anything, each trimmed: what is read of a
/// note, one line to a record.
pub fn note_lines(text: &str) -> (v: Vec<String>)
    ensures
        v@.map_values(|s: String| s@) == note_lines_of(text@),
{
    let chars = chars_of(text);
    let mut pos: usize = 0;
    let mut v: Vec<String> = Vec::new();
    assert(v@.map_values(|s: String| s@) =~= Seq::<Seq<char>>::empty());
    while pos < chars.len()
        invariant
            pos <= chars@.len(),
            chars@ == text@,
            note_lines_of(text@) == v@.map_values(|s: String| s@) + note_lines_from(
                chars@,
                pos as int,
            ),
        decreases chars.len() - pos,
    {
        proof {
            crate::patch::lemma_line_end(chars@, pos as int);
        }
        let mut e = pos;
        while e < chars.len() && chars[e] != '\n'
            invariant
                pos <= e <= chars@.len(),
                line_end(chars@, pos as int) == line_end(chars@, e as int),
            decreases chars.len() - e,
        {
            e = e + 1;
        }
        let raw = string_of(chars.as_slice(), pos, e);
        let line = trim(raw.as_str());
        let ghost before = v@.map_values(|s: String| s@);
        let ghost rest = note_lines_from(chars@, e + 1);
        assert(note_lines_from(chars@, pos as int) == (if line@.len() == 0 {
            rest
        } else {
            seq![line@] + rest
        }));
        if !line.as_str().is_empty() {
            v.push(line);
            assert(v@.map_values(|s: String| s@) =~= before.push(trimmed(raw@)));
            assert(before + (seq![trimmed(raw@)] + rest) =~= before.push(trimmed(raw@)) + rest);
        }
        pos = if e < chars.len() {
            e + 1
        } else {
            e
        };
        assert(note_lines_from(chars@, pos as int) == rest);
    }
    assert(note_lines_from(chars@, pos as int) =~= Seq::<Seq<char>>::empty());
    assert(v@.map_values(|s: String| s@) + Seq::<Seq<char>>::empty() =~= v@.map_values(
        |s: String| s@,
    ));
    v
}

/// A line of a note: its fields, or the text when it is not a line this
/// build can split into fields.
pub open spec fn read_view<L: View>(r: Result<L, String>) -> Result<L::V, Seq<char>> {
    match r {
        Ok(l) => Ok(l@),
        Err(raw) => Err(raw@),
    }
}

/// The proposal log attached to one object.
#[derive(Debug, Clone)]
pub struct EventNote {
    /// The object the note is attached to.
    pub object: String,
    /// Its lines, each split into fields or kept as text.
    pub lines: Vec<Result<EventLine, String>>,
}

/// The annotation log attached to one object.
#[derive(Debug, Clone)]
pub struct RecordNote {
    /// The object the note is attached to.
    pub object: String,
    /// Its lines, each split into fields or kept as text.
    pub lines: Vec<Result<Line, String>>,
}

/// The lines of a proposal log, as views.
pub open spec fn event_lines(v: Seq<Result<EventLine, String>>) -> Seq<Result<EventLineView, Seq<char>>> {
    v.map_values(|r: Result<EventLine, String>| read_view(r))
}

/// The lines of an annotation log, as views.
pub open spec fn record_lines(v: Seq<Result<Line, String>>) -> Seq<Result<LineView, Seq<char>>> {
    v.map_values(|r: Result<Line, String>| read_view(r))
}

/// The proposal log on an object: the first note attached to it, or nothing.
pub open spec fn event_note_of(notes: Seq<EventNote>, object: Seq<char>) -> Seq<
    Result<EventLineView, Seq<char>>,
>
    decreases notes.len(),
{
    if notes.len() == 0 {
        Seq::empty()
    } else if notes[0].object@ == object {
        event_lines(notes[0].lines@)
    } else {
        event_note_of(notes.drop_first(), object)
    }
}

/// The annotation log on an object: the first note attached to it, or nothing.
pub open spec fn record_note_of(notes: Seq<RecordNote>, object: Seq<char>) -> Seq<
    Result<LineView, Seq<char>>,
>
    decreases notes.len(),
{
    if notes.len() == 0 {
        Seq::empty()
    } else if notes[0].object@ == object {
        record_lines(notes[0].lines@)
    } else {
        record_note_of(notes.drop_first(), object)
    }
}

/// What reading a proposal log gives: every event in order, a kind from a
/// newer build passed over, anything else refused as a line of that log.
pub open spec fn read_events(lines: Seq<Result<EventLineView, Seq<char>>>, object: Seq<char>) -> Result<
    Seq<EventView>,
    ErrorView,
>
    decreases lines.len(),
{
    if lines.len() == 0 {
        Ok(Seq::empty())
    } else {
        match read_events(lines.drop_last(), object) {
            Err(e) => Err(e),
            Ok(done) => {
                let read = match lines.last() {
                    Err(raw) => Err(CoreErrorView::Malformed(raw)),
                    Ok(l) => event_from_line(l),
                };
                match read {
                    Ok(x) => Ok(done.push(x)),
                    Err(CoreErrorView::UnknownKind(_)) => Ok(done),
                    Err(e) => Err(ErrorView::Log { log: PROPOSAL_LOG@, object, source: e }),
                }
            },
        }
    }
}

/// What reading an annotation log gives: every record in order, a kind from
/// a newer build passed over, anything else refused as a line of that log.
pub open spec fn read_records(lines: Seq<Result<LineView, Seq<char>>>, object: Seq<char>) -> Result<
    Seq<RecordView>,
    ErrorView,
>
    decreases lines.len(),
{
    if lines.len() == 0 {
        Ok(Seq::empty())
    } else {
        match read_records(lines.drop_last(), object) {
            Err(e) => Err(e),
            Ok(done) => {
                let read = match lines.last() {
                    Err(raw) => Err(CoreErrorView::Malformed(raw)),
                    Ok(l) => record_from_line(l),
                };
                match read {
                    Ok(x) => Ok(done.push(x)),
                    Err(CoreErrorView::UnknownKind(_)) => Ok(done),
                    Err(e) => Err(ErrorView::Log { log: ANNOTATION_LOG@, object, source: e }),
                }
            },
        }
    }
}

proof fn lemma_read_events_error_persists(
    lines: Seq<Result<EventLineView, Seq<char>>>,
    k: int,
    object: Seq<char>,
)
    requires
        0 <= k <= lines.len(),
        read_events(lines.take(k), object) is Err,
    ensures
        read_events(lines, object) == read_events(lines.take(k), object),
    decreases lines.len(),
{
    if k < lines.len() {
        assert(lines.drop_last().take(k) =~= lines.take(k));
        lemma_read_events_error_persists(lines.drop_last(), k, object);
    } else {
        assert(lines.take(k) =~= lines);
    }
}

proof fn lemma_read_records_error_persists(
    lines: Seq<Result<LineView, Seq<char>>>,
    k: int,
    object: Seq<char>,
)
    requires
        0 <= k <= lines.len(),
        read_records(lines.take(k), object) is Err,
    ensures
        read_records(lines, object) == read_records(lines.take(k), object),
    decreases lines.len(),
{
    if k < lines.len() {
        assert(lines.drop_last().take(k) =~= lines.take(k));
        lemma_read_records_error_persists(lines.drop_last(), k, object);
    } else {
        assert(lines.take(k) =~= lines);
    }
}

fn event_note<'a>(notes: &'a [EventNote], object: &Sha) -> (v: &'a [Result<EventLine, String>])
    ensures
        event_lines(v@) == event_note_of(notes@, object@),
{
    let mut i: usize = 0;
    assert(notes@.skip(0) =~= notes@);
    while i < notes.len()
        invariant
            i <= notes@.len(),
            event_note_of(notes@, object@) == event_note_of(notes@.skip(i as int), object@),
        decreases notes.len() - i,
    {
        assert(notes@.skip(i as int)[0] == notes@[i as int]);
        if same_text_of(notes[i].object.as_str(), object.as_str()) {
            return notes[i].lines.as_slice();
        }
        assert(notes@.skip(i as int).drop_first() =~= notes@.skip(i + 1));
        i = i + 1;
    }
    let empty: &[Result<EventLine, String>] = &[];
    assert(event_lines(empty@) =~= Seq::<Result<EventLineView, Seq<char>>>::empty());
    empty
}

fn record_note<'a>(notes: &'a [RecordNote], object: &Sha) -> (v: &'a [Result<Line, String>])
    ensures
        record_lines(v@) == record_note_of(notes@, object@),
{
    let mut i: usize = 0;
    assert(notes@.skip(0) =~= notes@);
    while i < notes.len()
        invariant
            i <= notes@.len(),
            record_note_of(notes@, object@) == record_note_of(notes@.skip(i as int), object@),
        decreases notes.len() - i,
    {
        assert(notes@.skip(i as int)[0] == notes@[i as int]);
        if same_text_of(notes[i].object.as_str(), object.as_str()) {
            return notes[i].lines.as_slice();
        }
        assert(notes@.skip(i as int).drop_first() =~= notes@.skip(i + 1));
        i = i + 1;
    }
    let empty: &[Result<Line, String>] = &[];
    assert(record_lines(empty@) =~= Seq::<Result<LineView, Seq<char>>>::empty());
    empty
}

fn same_text_of(a: &str, b: &str) -> (r: bool)
    ensures
        r == (a@ == b@),
{
    crate::text::same_text(a, b)
}

/// Read one proposal log, skipping what a newer build wrote.
///
/// A kind this build does not know came from a newer one and is passed over,
/// which is what keeps an old binary able to open a new proposal. A version
/// it does not speak is refused, because that changes what the fields mean.
fn read_event_log(lines: &[Result<EventLine, String>], object: &Sha) -> (r: Result<Vec<Event>, Error>)
    ensures
        match r {
            Ok(v) => read_events(event_lines(lines@), object@) == Ok::<Seq<EventView>, ErrorView>(
                v@.map_values(|e: Event| e@),
            ),
            Err(e) => read_events(event_lines(lines@), object@) == Err::<Seq<EventView>, ErrorView>(
                e@,
            ),
        },
{
    let ghost views = event_lines(lines@);
    let mut parsed: Vec<Event> = Vec::new();
    let mut i: usize = 0;
    assert(views.take(0) =~= Seq::<Result<EventLineView, Seq<char>>>::empty());
    assert(parsed@.map_values(|e: Event| e@) =~= Seq::<EventView>::empty());
    while i < lines.len()
        invariant
            i <= lines@.len(),
            views == event_lines(lines@),
            read_events(views.take(i as int), object@) == Ok::<Seq<EventView>, ErrorView>(
                parsed@.map_values(|e: Event| e@),
            ),
        decreases lines.len() - i,
    {
        assert(views.take(i + 1).drop_last() =~= views.take(i as int));
        assert(views.take(i + 1).last() == read_view(lines@[i as int]));
        let read = match &lines[i] {
            Err(raw) => Err(CoreError::Malformed(copy_str(raw.as_str()))),
            Ok(line) => Event::from_line(line),
        };
        match read {
            Ok(event) => {
                let ghost before = parsed@.map_values(|e: Event| e@);
                parsed.push(event);
                assert(parsed@.map_values(|e: Event| e@) =~= before.push(event@));
            },
            Err(CoreError::UnknownKind(_)) => {},
            Err(e) => {
                proof {
                    lemma_read_events_error_persists(views, i + 1, object@);
                }
                return Err(Error::Log { log: PROPOSAL_LOG, object: object.duplicate(), source: e });
            },
        }
        i = i + 1;
    }
    assert(views.take(lines@.len() as int) =~= views);
    Ok(parsed)
}

/// Read one annotation log, skipping what a newer build wrote.
fn read_record_log(lines: &[Result<Line, String>], object: &Sha) -> (r: Result<Vec<Record>, Error>)
    ensures
        match r {
            Ok(v) => read_records(record_lines(lines@), object@) == Ok::<Seq<RecordView>, ErrorView>(
                record_views(v@),
            ),
            Err(e) => read_records(record_lines(lines@), object@) == Err::<
                Seq<RecordView>,
                ErrorView,
            >(e@),
        },
{
    let ghost views = record_lines(lines@);
    let mut parsed: Vec<Record> = Vec::new();
    let mut i: usize = 0;
    assert(views.take(0) =~= Seq::<Result<LineView, Seq<char>>>::empty());
    assert(record_views(parsed@) =~= Seq::<RecordView>::empty());
    while i < lines.len()
        invariant
            i <= lines@.len(),
            views == record_lines(lines@),
            read_records(views.take(i as int), object@) == Ok::<Seq<RecordView>, ErrorView>(
                record_views(parsed@),
            ),
        decreases lines.len() - i,
    {
        assert(views.take(i + 1).drop_last() =~= views.take(i as int));
        assert(views.take(i + 1).last() == read_view(lines@[i as int]));
        let read = match &lines[i] {
            Err(raw) => Err(CoreError::Malformed(copy_str(raw.as_str()))),
            Ok(line) => Record::from_line(line),
        };
        match read {
            Ok(record) => {
                let ghost before = record_views(parsed@);
                parsed.push(record);
                assert(record_views(parsed@) =~= before.push(record@));
            },
            Err(CoreError::UnknownKind(_)) => {},
            Err(e) => {
                proof {
                    lemma_read_records_error_persists(views, i + 1, object@);
                }
                return Err(
                    Error::Log { log: ANNOTATION_LOG, object: object.duplicate(), source: e },
                );
            },
        }
        i = i + 1;
    }
    assert(views.take(lines@.len() as int) =~= views);
    Ok(parsed)
}

// ---------------------------------------------------------------------------
// Refs.

/// Where the last slash of a text is, if it has one.
pub open spec fn last_slash(s: Seq<char>) -> Option<int>
    decreases s.len(),
{
    if s.len() == 0 {
        None
    } else if s.last() == '/' {
        Some(s.len() - 1)
    } else {
        last_slash(s.drop_last())
    }
}

/// `<refs>/<id>/<n>` cut into the id and the number's text.
pub open spec fn ref_parts(name: Seq<char>) -> Option<(Seq<char>, Seq<char>)> {
    if !has_prefix(name, PROPOSAL_REFS@) {
        None
    } else {
        let rest = name.skip(PROPOSAL_REFS@.len() as int);
        if rest.len() == 0 || rest[0] != '/' {
            None
        } else {
            let tail = rest.drop_first();
            match last_slash(tail) {
                None => None,
                Some(i) => Some((tail.take(i), tail.skip(i + 1))),
            }
        }
    }
}

/// What a revision ref says: which proposal, and which revision of it. A
/// ref that is not shaped like one, or whose basename is not a number, is
/// not a revision.
pub open spec fn split_ref_of(name: Seq<char>) -> Result<(Seq<char>, u32), ErrorView> {
    match ref_parts(name) {
        None => Err(ErrorView::NotARevision(name)),
        Some((id, number)) => match u32_text(number) {
            None => Err(ErrorView::NotARevision(name)),
            Some(n) => match proposal_id_result(id) {
                Err(e) => Err(ErrorView::Review(e)),
                Ok(i) => Ok((i, n)),
            },
        },
    }
}

/// Where a proposal goes among groups sorted by name: the first group whose
/// name does not sort before it.
pub open spec fn group_position(groups: Seq<(Seq<char>, Seq<RevisionView>)>, id: Seq<char>) -> int
    decreases groups.len(),
{
    if groups.len() == 0 || !text_lt(groups[0].0, id) {
        0
    } else {
        1 + group_position(groups.drop_first(), id)
    }
}

/// The groups with a revision added to its proposal's group, which is made
/// where its name sorts when it is the first.
pub open spec fn put_revision(
    groups: Seq<(Seq<char>, Seq<RevisionView>)>,
    id: Seq<char>,
    r: RevisionView,
) -> Seq<(Seq<char>, Seq<RevisionView>)> {
    let i = group_position(groups, id);
    if 0 <= i < groups.len() && groups[i].0 == id {
        groups.update(i, (id, groups[i].1.push(r)))
    } else {
        groups.insert(i, (id, seq![r]))
    }
}

/// The revisions of every proposal, by name ascending, each in the order the
/// refs listed them; or the refusal of the first ref that is not a revision.
pub open spec fn ref_groups(refs: Seq<(Seq<char>, Seq<char>)>) -> Result<
    Seq<(Seq<char>, Seq<RevisionView>)>,
    ErrorView,
>
    decreases refs.len(),
{
    if refs.len() == 0 {
        Ok(Seq::empty())
    } else {
        match ref_groups(refs.drop_last()) {
            Err(e) => Err(e),
            Ok(g) => match split_ref_of(refs.last().0) {
                Err(e) => Err(e),
                Ok((id, n)) => match sha_result(refs.last().1) {
                    Err(e) => Err(ErrorView::Review(e)),
                    Ok(sha) => Ok(put_revision(g, id, RevisionView { number: n, sha })),
                },
            },
        }
    }
}

/// `r` placed after every revision in `sorted` whose number is not above its
/// own.
pub open spec fn insert_by_number(sorted: Seq<RevisionView>, r: RevisionView) -> Seq<RevisionView>
    decreases sorted.len(),
{
    if sorted.len() == 0 || sorted.last().number <= r.number {
        sorted.push(r)
    } else {
        insert_by_number(sorted.drop_last(), r).push(sorted.last())
    }
}

/// Revisions ascending by number, equal numbers in the order given: a stable
/// sort.
pub open spec fn sort_by_number(s: Seq<RevisionView>) -> Seq<RevisionView>
    decreases s.len(),
{
    if s.len() == 0 {
        s
    } else {
        insert_by_number(sort_by_number(s.drop_last()), s.last())
    }
}

/// Name and sha pairs as characters.
pub open spec fn ref_views(refs: Seq<(String, String)>) -> Seq<(Seq<char>, Seq<char>)> {
    refs.map_values(|p: (String, String)| (p.0@, p.1@))
}

/// The views of proposal groups.
pub open spec fn group_views(groups: Seq<(ProposalId, Vec<Revision>)>) -> Seq<
    (Seq<char>, Seq<RevisionView>),
> {
    groups.map_values(|g: (ProposalId, Vec<Revision>)| (g.0@, g.1@.map_values(|r: Revision| r@)))
}

/// `<refs>/<id>/<n>` split into the two things it says.
fn split_ref(name: &str) -> (r: Result<(ProposalId, u32), Error>)
    ensures
        match r {
            Ok((id, n)) => split_ref_of(name@) == Ok::<(Seq<char>, u32), ErrorView>((id@, n)),
            Err(e) => split_ref_of(name@) == Err::<(Seq<char>, u32), ErrorView>(e@),
        },
{
    let chars = chars_of(name);
    let rest = match crate::patch::strip_prefix_chars(chars.as_slice(), PROPOSAL_REFS) {
        Some(rest) => rest,
        None => {
            return Err(Error::NotARevision(copy_str(name)));
        },
    };
    if rest.len() == 0 || rest[0] != '/' {
        return Err(Error::NotARevision(copy_str(name)));
    }
    let ghost tail = rest@.drop_first();
    let mut k = rest.len();
    assert(tail.take(k - 1) =~= tail);
    while k > 1 && rest[k - 1] != '/'
        invariant
            1 <= k <= rest@.len(),
            tail == rest@.drop_first(),
            last_slash(tail) == last_slash(tail.take(k - 1)),
        decreases k,
    {
        assert(tail.take(k - 1).drop_last() =~= tail.take(k - 2));
        k = k - 1;
    }
    if k <= 1 {
        assert(tail.take(0) =~= Seq::<char>::empty());
        return Err(Error::NotARevision(copy_str(name)));
    }
    let id_text = string_of(rest.as_slice(), 1, k - 1);
    let number_chars = crate::text::chars_of(string_of(rest.as_slice(), k, rest.len()).as_str());
    assert(id_text@ =~= tail.take(k - 2));
    assert(number_chars@ =~= tail.skip(k - 1));
    let number = match crate::patch::u32_of(number_chars.as_slice()) {
        Some(n) => n,
        None => {
            return Err(Error::NotARevision(copy_str(name)));
        },
    };
    match ProposalId::parse(id_text.as_str()) {
        Ok(id) => Ok((id, number)),
        Err(e) => Err(Error::Review(e)),
    }
}

fn insert_revision(v: &mut Vec<Revision>, r: Revision)
    ensures
        final(v)@.map_values(|x: Revision| x@) == insert_by_number(
            old(v)@.map_values(|x: Revision| x@),
            r@,
        ),
{
    let ghost before = v@.map_values(|x: Revision| x@);
    let mut k = v.len();
    assert(before.take(k as int) =~= before);
    assert(before.skip(k as int) =~= Seq::<RevisionView>::empty());
    while k > 0 && v[k - 1].number() > r.number()
        invariant
            k <= v@.len(),
            v@ == old(v)@,
            before == v@.map_values(|x: Revision| x@),
            insert_by_number(before, r@) == insert_by_number(before.take(k as int), r@)
                + before.skip(k as int),
        decreases k,
    {
        assert(before.take(k as int).drop_last() =~= before.take(k - 1));
        assert(before.take(k as int).last() == before[k - 1]);
        assert(before.skip(k - 1) =~= seq![before[k - 1]] + before.skip(k as int));
        assert(insert_by_number(before.take(k - 1), r@).push(before[k - 1]) + before.skip(k as int)
            =~= insert_by_number(before.take(k - 1), r@) + before.skip(k - 1));
        k = k - 1;
    }
    assert(insert_by_number(before.take(k as int), r@) == before.take(k as int).push(r@));
    let ghost rv = r@;
    v.insert(k, r);
    assert(v@.map_values(|x: Revision| x@) =~= before.take(k as int).push(rv) + before.skip(
        k as int,
    ));
}

fn sorted_by_number(revisions: &Vec<Revision>) -> (v: Vec<Revision>)
    ensures
        v@.map_values(|x: Revision| x@) == sort_by_number(revisions@.map_values(|x: Revision| x@)),
{
    let ghost all = revisions@.map_values(|x: Revision| x@);
    let mut v: Vec<Revision> = Vec::new();
    let rest = revisions;
    let mut i: usize = 0;
    let n = rest.len();
    assert(v@.map_values(|x: Revision| x@) =~= sort_by_number(all.take(0)));
    while i < n
        invariant
            i <= n == all.len(),
            rest@.map_values(|x: Revision| x@) == all,
            v@.map_values(|x: Revision| x@) == sort_by_number(all.take(i as int)),
        decreases n - i,
    {
        let r = rest[i].duplicate();
        assert(all.take(i + 1).drop_last() =~= all.take(i as int));
        assert(all[i as int] == rest@[i as int]@);
        insert_revision(&mut v, r);
        i = i + 1;
    }
    assert(all.take(n as int) =~= all);
    v
}

/// The revisions of every proposal, by name ascending, each in the order the
/// refs listed them.
fn revision_groups(refs: &[(String, String)]) -> (r: Result<Vec<(ProposalId, Vec<Revision>)>, Error>)
    ensures
        match r {
            Ok(g) => ref_groups(ref_views(refs@)) == Ok::<
                Seq<(Seq<char>, Seq<RevisionView>)>,
                ErrorView,
            >(group_views(g@)),
            Err(e) => ref_groups(ref_views(refs@)) == Err::<
                Seq<(Seq<char>, Seq<RevisionView>)>,
                ErrorView,
            >(e@),
        },
{
    let ghost all = ref_views(refs@);
    let mut groups: Vec<(ProposalId, Vec<Revision>)> = Vec::new();
    let mut n: usize = 0;
    assert(group_views(groups@) =~= Seq::<(Seq<char>, Seq<RevisionView>)>::empty());
    assert(all.take(0) =~= Seq::<(Seq<char>, Seq<char>)>::empty());
    while n < refs.len()
        invariant
            n <= refs@.len(),
            all == ref_views(refs@),
            ref_groups(all.take(n as int)) == Ok::<Seq<(Seq<char>, Seq<RevisionView>)>, ErrorView>(
                group_views(groups@),
            ),
        decreases refs.len() - n,
    {
        assert(all.take(n + 1).drop_last() =~= all.take(n as int));
        assert(all.take(n + 1).last() == (refs@[n as int].0@, refs@[n as int].1@));
        let (id, number) = match split_ref(refs[n].0.as_str()) {
            Ok(x) => x,
            Err(e) => {
                proof {
                    lemma_ref_groups_error_persists(all, n + 1);
                }
                return Err(e);
            },
        };
        let sha = match Sha::parse(refs[n].1.as_str()) {
            Ok(s) => s,
            Err(e) => {
                proof {
                    lemma_ref_groups_error_persists(all, n + 1);
                }
                return Err(Error::Review(e));
            },
        };
        let revision = Revision::new(number, sha);
        let ghost g = group_views(groups@);
        let mut i: usize = 0;
        assert(g.skip(0) =~= g);
        while i < groups.len() && text_less(groups[i].0.as_str(), id.as_str())
            invariant
                i <= groups@.len(),
                g == group_views(groups@),
                group_position(g, id@) == i + group_position(g.skip(i as int), id@),
            decreases groups.len() - i,
        {
            assert(g.skip(i as int)[0] == g[i as int]);
            assert(g.skip(i as int).drop_first() =~= g.skip(i + 1));
            i = i + 1;
        }
        proof {
            if i < groups@.len() {
                assert(g.skip(i as int)[0] == g[i as int]);
            }
            assert(group_position(g.skip(i as int), id@) == 0);
        }
        let ghost rv = revision@;
        let ghost old_groups = groups@;
        assert(group_position(g, id@) == i);
        if i < groups.len() && groups[i].0.same(&id) {
            assert(g[i as int] == (old_groups[i as int].0@, old_groups[i as int].1@.map_values(
                |r: Revision| r@,
            )));
            let (gid, mut revs) = groups.remove(i);
            let ghost before = revs@;
            revs.push(revision);
            let ghost after = revs@;
            assert(after.map_values(|r: Revision| r@) =~= before.map_values(|r: Revision| r@).push(
                rv,
            ));
            groups.insert(i, (gid, revs));
            let ghost put = put_revision(g, id@, rv);
            assert(put == g.update(i as int, (id@, g[i as int].1.push(rv))));
            assert forall|j: int| 0 <= j < groups@.len() implies #[trigger] group_views(groups@)[j]
                == put[j] by {
                if j != i {
                    assert(groups@[j] == old_groups[j]);
                }
            }
            assert(group_views(groups@) =~= put);
        } else {
            assert(!(i < g.len() && g[i as int].0 == id@));
            let mut revs: Vec<Revision> = Vec::new();
            revs.push(revision);
            let ghost fresh = revs@;
            assert(fresh.map_values(|r: Revision| r@) =~= seq![rv]);
            let ghost idv = id@;
            groups.insert(i, (id, revs));
            let ghost put = put_revision(g, idv, rv);
            assert(put == g.insert(i as int, (idv, seq![rv])));
            assert forall|j: int| 0 <= j < groups@.len() implies #[trigger] group_views(groups@)[j]
                == put[j] by {
                if j < i {
                    assert(groups@[j] == old_groups[j]);
                } else if j > i {
                    assert(groups@[j] == old_groups[j - 1]);
                }
            }
            assert(group_views(groups@) =~= put);
        }
        n = n + 1;
    }
    assert(all.take(refs@.len() as int) =~= all);
    Ok(groups)
}

proof fn lemma_ref_groups_error_persists(refs: Seq<(Seq<char>, Seq<char>)>, k: int)
    requires
        0 <= k <= refs.len(),
        ref_groups(refs.take(k)) is Err,
    ensures
        ref_groups(refs) == ref_groups(refs.take(k)),
    decreases refs.len(),
{
    if k < refs.len() {
        assert(refs.drop_last().take(k) =~= refs.take(k));
        lemma_ref_groups_error_persists(refs.drop_last(), k);
    } else {
        assert(refs.take(k) =~= refs);
    }
}

// ---------------------------------------------------------------------------
// One proposal.

/// The first opening in a log.
pub open spec fn first_opening(log: Seq<EventView>) -> Option<EventView>
    decreases log.len(),
{
    if log.len() == 0 {
        None
    } else if log[0] is Opened {
        Some(log[0])
    } else {
        first_opening(log.drop_first())
    }
}

/// The proposal as the first opening described it, at the head given; not
/// found when nobody opened it.
pub open spec fn opened_of(id: Seq<char>, head: Seq<char>, log: Seq<EventView>) -> Result<
    ProposalView,
    ErrorView,
> {
    match first_opening(log) {
        Some(EventView::Opened { title, target, base, at, .. }) => if trimmed(title).len() == 0 {
            Err(ErrorView::Review(CoreErrorView::NoTitle))
        } else if base == head {
            Err(ErrorView::Review(CoreErrorView::NothingProposed))
        } else {
            Ok(
                ProposalView {
                    id,
                    title: trimmed(title),
                    target,
                    base,
                    state: State::Open,
                    opened_at: at,
                    ended_at: None,
                    revisions: seq![RevisionView { number: 1, sha: head }],
                    comments: Seq::empty(),
                    resolved: Seq::empty(),
                    checks: Seq::empty(),
                    chunks: Seq::empty(),
                    rationale: Seq::empty(),
                    work: Seq::empty(),
                    asks: Seq::empty(),
                    answers: Seq::empty(),
                },
            )
        },
        _ => Err(ErrorView::NotFound(id)),
    }
}

/// Every retarget in a log, as its moment and its branch, in log order.
pub open spec fn retargets(log: Seq<EventView>) -> Seq<(i64, Seq<char>)>
    decreases log.len(),
{
    if log.len() == 0 {
        Seq::empty()
    } else {
        match log.last() {
            EventView::Retargeted { target, at, .. } => retargets(log.drop_last()).push(
                (at, target),
            ),
            _ => retargets(log.drop_last()),
        }
    }
}

/// `m` placed after every move in `sorted` that is not later than it.
pub open spec fn insert_by_moment(sorted: Seq<(i64, Seq<char>)>, m: (i64, Seq<char>)) -> Seq<
    (i64, Seq<char>),
>
    decreases sorted.len(),
{
    if sorted.len() == 0 || sorted.last().0 <= m.0 {
        sorted.push(m)
    } else {
        insert_by_moment(sorted.drop_last(), m).push(sorted.last())
    }
}

/// Every retarget, oldest first. The log is a set once two machines have
/// merged it, so the moment is what orders it; moves of one moment keep
/// their order in the log.
pub open spec fn moves_of(s: Seq<(i64, Seq<char>)>) -> Seq<(i64, Seq<char>)>
    decreases s.len(),
{
    if s.len() == 0 {
        s
    } else {
        insert_by_moment(moves_of(s.drop_last()), s.last())
    }
}

/// The proposal pointed at each branch in turn.
pub open spec fn retarget_all(p: ProposalView, moves: Seq<(i64, Seq<char>)>) -> Result<
    ProposalView,
    ErrorView,
>
    decreases moves.len(),
{
    if moves.len() == 0 {
        Ok(p)
    } else {
        match retarget_all(p, moves.drop_last()) {
            Err(e) => Err(e),
            Ok(q) => if q.state != State::Open {
                Err(ErrorView::Review(CoreErrorView::NotOpen(q.state)))
            } else {
                Ok(ProposalView { target: moves.last().1, ..q })
            },
        }
    }
}

/// The proposal with each later revision added in turn.
pub open spec fn revise_all(p: ProposalView, later: Seq<RevisionView>) -> Result<
    ProposalView,
    ErrorView,
>
    decreases later.len(),
{
    if later.len() == 0 {
        Ok(p)
    } else {
        match revise_all(p, later.drop_last()) {
            Err(e) => Err(e),
            Ok(q) => if q.state != State::Open {
                Err(ErrorView::Review(CoreErrorView::NotOpen(q.state)))
            } else if knows_revision(q, later.last().sha) {
                Err(ErrorView::Review(CoreErrorView::RevisionKnown(later.last().sha)))
            } else {
                Ok(
                    ProposalView {
                        revisions: q.revisions.push(
                            RevisionView {
                                number: revision_number(q.revisions.len() as int),
                                sha: later.last().sha,
                            },
                        ),
                        ..q
                    },
                )
            },
        }
    }
}

/// The proposal with the annotation log of each revision read and folded in
/// turn.
pub open spec fn fold_logs(p: ProposalView, revisions: Seq<RevisionView>, records: Seq<RecordNote>) -> Result<
    ProposalView,
    ErrorView,
>
    decreases revisions.len(),
{
    if revisions.len() == 0 {
        Ok(p)
    } else {
        match fold_logs(p, revisions.drop_last(), records) {
            Err(e) => Err(e),
            Ok(q) => {
                let object = revisions.last().sha;
                match read_records(record_note_of(records, object), object) {
                    Err(e) => Err(e),
                    Ok(rs) => match fold_spec(q, rs).1 {
                        Some(e) => Err(ErrorView::Review(e)),
                        None => Ok(fold_spec(q, rs).0),
                    },
                }
            },
        }
    }
}

/// The first landing or abandoning in a log.
pub open spec fn first_ending(log: Seq<EventView>) -> Option<EventView>
    decreases log.len(),
{
    if log.len() == 0 {
        None
    } else if log[0] is Landed || log[0] is Abandoned {
        Some(log[0])
    } else {
        first_ending(log.drop_first())
    }
}

/// The proposal as whatever ended it left it, if anything did.
pub open spec fn ended_of(p: ProposalView, log: Seq<EventView>) -> ProposalView {
    match first_ending(log) {
        Some(EventView::Landed { at, .. }) => ProposalView {
            state: State::Landed,
            ended_at: Some(at),
            ..p
        },
        Some(EventView::Abandoned { at, .. }) => ProposalView {
            state: State::Abandoned,
            ended_at: Some(at),
            ..p
        },
        _ => p,
    }
}

/// One proposal, from its revisions (ascending) and the two logs attached to
/// them: opened as its first opening says, moved as its retargets say, every
/// later revision added, every annotation log folded, ended as its log says.
#[verifier::opaque]
pub open spec fn rebuilt(
    id: Seq<char>,
    revisions: Seq<RevisionView>,
    events: Seq<EventNote>,
    records: Seq<RecordNote>,
) -> Result<ProposalView, ErrorView> {
    if revisions.len() == 0 {
        Err(ErrorView::NotFound(id))
    } else {
        let first = revisions[0].sha;
        match read_events(event_note_of(events, first), first) {
            Err(e) => Err(e),
            Ok(log) => match opened_of(id, first, log) {
                Err(e) => Err(e),
                Ok(p0) => match retarget_all(p0, moves_of(retargets(log))) {
                    Err(e) => Err(e),
                    Ok(p1) => match revise_all(p1, revisions.drop_first()) {
                        Err(e) => Err(e),
                        Ok(p2) => match fold_logs(p2, revisions, records) {
                            Err(e) => Err(e),
                            Ok(p3) => Ok(ended_of(p3, log)),
                        },
                    },
                },
            },
        }
    }
}

/// The views of events.
pub open spec fn event_views(v: Seq<Event>) -> Seq<EventView> {
    v.map_values(|e: Event| e@)
}

/// The proposal as the first `opened` event described it.
fn opened(id: &ProposalId, head: &Sha, log: &Vec<Event>) -> (r: Result<Proposal, Error>)
    ensures
        match r {
            Ok(p) => opened_of(id@, head@, event_views(log@)) == Ok::<ProposalView, ErrorView>(p@)
                && proposal_wf(p@),
            Err(e) => opened_of(id@, head@, event_views(log@)) == Err::<ProposalView, ErrorView>(
                e@,
            ),
        },
{
    let ghost views = event_views(log@);
    let mut i: usize = 0;
    assert(views.skip(0) =~= views);
    while i < log.len()
        invariant
            i <= log@.len(),
            views == event_views(log@),
            first_opening(views) == first_opening(views.skip(i as int)),
        decreases log.len() - i,
    {
        assert(views.skip(i as int)[0] == log@[i as int]@);
        match &log[i] {
            Event::Opened { title, target, base, at, .. } => {
                return match Proposal::open(
                    id.duplicate(),
                    title.as_str(),
                    target.duplicate(),
                    base.duplicate(),
                    head.duplicate(),
                    *at,
                ) {
                    Ok(p) => Ok(p),
                    Err(e) => Err(Error::Review(e)),
                };
            },
            _ => {},
        }
        assert(views.skip(i as int).drop_first() =~= views.skip(i + 1));
        i = i + 1;
    }
    Err(Error::NotFound(id.duplicate()))
}

fn insert_move<'a>(v: &mut Vec<(Timestamp, &'a Branch)>, m: (Timestamp, &'a Branch))
    ensures
        move_views(final(v)@) == insert_by_moment(move_views(old(v)@), move_view(m)),
{
    let ghost before = move_views(v@);
    let mut k = v.len();
    assert(before.take(k as int) =~= before);
    assert(before.skip(k as int) =~= Seq::<(i64, Seq<char>)>::empty());
    while k > 0 && v[k - 1].0.unix() > m.0.unix()
        invariant
            k <= v@.len(),
            v@ == old(v)@,
            before == move_views(v@),
            insert_by_moment(before, move_view(m)) == insert_by_moment(
                before.take(k as int),
                move_view(m),
            ) + before.skip(k as int),
        decreases k,
    {
        assert(before.take(k as int).drop_last() =~= before.take(k - 1));
        assert(before.take(k as int).last() == before[k - 1]);
        assert(before.skip(k - 1) =~= seq![before[k - 1]] + before.skip(k as int));
        assert(insert_by_moment(before.take(k - 1), move_view(m)).push(before[k - 1])
            + before.skip(k as int) =~= insert_by_moment(before.take(k - 1), move_view(m))
            + before.skip(k - 1));
        k = k - 1;
    }
    assert(insert_by_moment(before.take(k as int), move_view(m)) == before.take(k as int).push(
        move_view(m),
    ));
    v.insert(k, m);
    assert(move_views(v@) =~= before.take(k as int).push(move_view(m)) + before.skip(k as int));
}

/// A move as its moment and branch.
pub open spec fn move_view(m: (Timestamp, &Branch)) -> (i64, Seq<char>) {
    (m.0@, m.1@)
}

/// Moves as moments and branches.
pub open spec fn move_views(v: Seq<(Timestamp, &Branch)>) -> Seq<(i64, Seq<char>)> {
    v.map_values(|m: (Timestamp, &Branch)| move_view(m))
}

/// Every retarget, oldest first.
fn moves(log: &Vec<Event>) -> (v: Vec<(Timestamp, &Branch)>)
    ensures
        move_views(v@) == moves_of(retargets(event_views(log@))),
{
    let ghost views = event_views(log@);
    let mut v: Vec<(Timestamp, &Branch)> = Vec::new();
    let mut i: usize = 0;
    assert(move_views(v@) =~= moves_of(retargets(views.take(0))));
    while i < log.len()
        invariant
            i <= log@.len(),
            views == event_views(log@),
            move_views(v@) == moves_of(retargets(views.take(i as int))),
        decreases log.len() - i,
    {
        assert(views.take(i + 1).drop_last() =~= views.take(i as int));
        assert(views.take(i + 1).last() == log@[i as int]@);
        let ghost prev = retargets(views.take(i as int));
        match &log[i] {
            Event::Retargeted { target, at, .. } => {
                assert(retargets(views.take(i + 1)) == prev.push((at@, target@)));
                assert(prev.push((at@, target@)).drop_last() =~= prev);
                insert_move(&mut v, (*at, target));
            },
            _ => {
                assert(retargets(views.take(i + 1)) == prev);
            },
        }
        i = i + 1;
    }
    assert(views.take(log@.len() as int) =~= views);
    v
}

/// Whatever ended the proposal, if anything did. Whether it might land was answered when
/// it landed; reading it back is not the moment to ask again.
fn end(proposal: &mut Proposal, log: &Vec<Event>)
    ensures
        proposal_wf(final(proposal)@),
        final(proposal)@ == ended_of(old(proposal)@, event_views(log@)),
{
    proof {
        use_type_invariant(&*proposal);
        Proposal::lemma_wf(*proposal);
    }
    let ghost views = event_views(log@);
    let mut i: usize = 0;
    assert(views.skip(0) =~= views);
    while i < log.len()
        invariant
            i <= log@.len(),
            views == event_views(log@),
            proposal@ == old(proposal)@,
            proposal_wf(proposal@),
            first_ending(views) == first_ending(views.skip(i as int)),
        decreases log.len() - i,
    {
        assert(views.skip(i as int)[0] == log@[i as int]@);
        match log[i].kind() {
            EventKind::Landed => {
                proposal.mark_landed(log[i].at());
                return;
            },
            EventKind::Abandoned => {
                proposal.mark_abandoned(log[i].at());
                return;
            },
            _ => {},
        }
        assert(views.skip(i as int).drop_first() =~= views.skip(i + 1));
        i = i + 1;
    }
}

/// One proposal, from its refs and the two logs attached to them.
#[verifier::loop_isolation(false)]
fn rebuild(
    id: &ProposalId,
    revisions: &Vec<Revision>,
    events: &[EventNote],
    records: &[RecordNote],
) -> (r: Result<Proposal, Error>)
    ensures
        match r {
            Ok(p) => rebuilt(
                id@,
                revisions@.map_values(|x: Revision| x@),
                events@,
                records@,
            ) == Ok::<ProposalView, ErrorView>(p@),
            Err(e) => rebuilt(
                id@,
                revisions@.map_values(|x: Revision| x@),
                events@,
                records@,
            ) == Err::<ProposalView, ErrorView>(e@),
        },
{
    proof {
        reveal(rebuilt);
    }
    let ghost revs = revisions@.map_values(|x: Revision| x@);
    if revisions.len() == 0 {
        return Err(Error::NotFound(id.duplicate()));
    }
    let first = revisions[0].sha();
    let lines = event_note(events, first);
    let log = read_event_log(lines, first)?;
    let ghost logv = event_views(log@);
    let mut proposal = opened(id, first, &log)?;
    let ghost p0 = proposal@;
    // Moved, in the order the moves happened.
    let moved = moves(&log);
    let ghost mv = move_views(moved@);
    let mut i: usize = 0;
    assert(mv.take(0) =~= Seq::<(i64, Seq<char>)>::empty());
    while i < moved.len()
        invariant
            i <= moved@.len(),
            mv == move_views(moved@),
            proposal_wf(proposal@),
            retarget_all(p0, mv.take(i as int)) == Ok::<ProposalView, ErrorView>(proposal@),
        decreases moved.len() - i,
    {
        assert(mv.take(i + 1).drop_last() =~= mv.take(i as int));
        assert(mv.take(i + 1).last() == move_view(moved@[i as int]));
        let target = moved[i].1.duplicate();
        match proposal.retarget(target) {
            Ok(()) => {},
            Err(e) => {
                proof {
                    lemma_retarget_error_persists(p0, mv, i + 1);
                }
                return Err(Error::Review(e));
            },
        }
        i = i + 1;
    }
    assert(mv.take(moved@.len() as int) =~= mv);
    let ghost p1 = proposal@;
    // Every later revision, in order.
    let mut j: usize = 1;
    assert(revs.drop_first().take(0) =~= Seq::<RevisionView>::empty());
    while j < revisions.len()
        invariant
            1 <= j <= revisions@.len(),
            revs == revisions@.map_values(|x: Revision| x@),
            proposal_wf(proposal@),
            revise_all(p1, revs.drop_first().take(j - 1)) == Ok::<ProposalView, ErrorView>(
                proposal@,
            ),
        decreases revisions.len() - j,
    {
        assert(revs.drop_first().take(j as int).drop_last() =~= revs.drop_first().take(j - 1));
        assert(revs.drop_first().take(j as int).last() == revisions@[j as int]@);
        match proposal.add_revision(revisions[j].sha().duplicate()) {
            Ok(()) => {},
            Err(e) => {
                proof {
                    lemma_revise_error_persists(p1, revs.drop_first(), j as int);
                }
                return Err(Error::Review(e));
            },
        }
        j = j + 1;
    }
    assert(revs.drop_first().take(revisions@.len() - 1) =~= revs.drop_first());
    let ghost p2 = proposal@;
    // Every annotation log, revision by revision.
    let mut k: usize = 0;
    assert(revs.take(0) =~= Seq::<RevisionView>::empty());
    while k < revisions.len()
        invariant
            k <= revisions@.len(),
            revs == revisions@.map_values(|x: Revision| x@),
            proposal_wf(proposal@),
            fold_logs(p2, revs.take(k as int), records@) == Ok::<ProposalView, ErrorView>(
                proposal@,
            ),
        decreases revisions.len() - k,
    {
        assert(revs.take(k + 1).drop_last() =~= revs.take(k as int));
        assert(revs.take(k + 1).last() == revisions@[k as int]@);
        let object = revisions[k].sha();
        let lines = record_note(records, object);
        let annotations = match read_record_log(lines, object) {
            Ok(a) => a,
            Err(e) => {
                proof {
                    lemma_fold_logs_error_persists(p2, revs, records@, k + 1);
                }
                return Err(e);
            },
        };
        match proposal.fold(annotations) {
            Ok(()) => {},
            Err(e) => {
                proof {
                    lemma_fold_logs_error_persists(p2, revs, records@, k + 1);
                }
                return Err(Error::Review(e));
            },
        }
        k = k + 1;
    }
    assert(revs.take(revisions@.len() as int) =~= revs);
    end(&mut proposal, &log);
    Ok(proposal)
}

proof fn lemma_retarget_error_persists(p: ProposalView, moves: Seq<(i64, Seq<char>)>, k: int)
    requires
        0 <= k <= moves.len(),
        retarget_all(p, moves.take(k)) is Err,
    ensures
        retarget_all(p, moves) == retarget_all(p, moves.take(k)),
    decreases moves.len(),
{
    if k < moves.len() {
        assert(moves.drop_last().take(k) =~= moves.take(k));
        lemma_retarget_error_persists(p, moves.drop_last(), k);
    } else {
        assert(moves.take(k) =~= moves);
    }
}

proof fn lemma_revise_error_persists(p: ProposalView, later: Seq<RevisionView>, k: int)
    requires
        0 <= k <= later.len(),
        revise_all(p, later.take(k)) is Err,
    ensures
        revise_all(p, later) == revise_all(p, later.take(k)),
    decreases later.len(),
{
    if k < later.len() {
        assert(later.drop_last().take(k) =~= later.take(k));
        lemma_revise_error_persists(p, later.drop_last(), k);
    } else {
        assert(later.take(k) =~= later);
    }
}

proof fn lemma_fold_logs_error_persists(
    p: ProposalView,
    revisions: Seq<RevisionView>,
    records: Seq<RecordNote>,
    k: int,
)
    requires
        0 <= k <= revisions.len(),
        fold_logs(p, revisions.take(k), records) is Err,
    ensures
        fold_logs(p, revisions, records) == fold_logs(p, revisions.take(k), records),
    decreases revisions.len(),
{
    if k < revisions.len() {
        assert(revisions.drop_last().take(k) =~= revisions.take(k));
        lemma_fold_logs_error_persists(p, revisions.drop_last(), records, k);
    } else {
        assert(revisions.take(k) =~= revisions);
    }
}

// ---------------------------------------------------------------------------
// Every proposal.

/// Whether `a` may be listed before `b`: it was opened later, or in the same
/// second under a name that does not sort after `b`'s.
pub open spec fn listed_before(a: ProposalView, b: ProposalView) -> bool {
    a.opened_at > b.opened_at || (a.opened_at == b.opened_at && !text_lt(b.id, a.id))
}

/// `p` placed after every proposal in `sorted` that may be listed before it.
pub open spec fn insert_listed(sorted: Seq<ProposalView>, p: ProposalView) -> Seq<ProposalView>
    decreases sorted.len(),
{
    if sorted.len() == 0 || listed_before(sorted.last(), p) {
        sorted.push(p)
    } else {
        insert_listed(sorted.drop_last(), p).push(sorted.last())
    }
}

/// Newest first, and by name when two were opened in the same second, so a
/// listing does not shuffle between reads.
pub open spec fn listing(ps: Seq<ProposalView>) -> Seq<ProposalView>
    decreases ps.len(),
{
    if ps.len() == 0 {
        ps
    } else {
        insert_listed(listing(ps.drop_last()), ps.last())
    }
}

/// Every group rebuilt, in order; or the first refusal.
pub open spec fn rebuild_all(
    groups: Seq<(Seq<char>, Seq<RevisionView>)>,
    events: Seq<EventNote>,
    records: Seq<RecordNote>,
) -> Result<Seq<ProposalView>, ErrorView>
    decreases groups.len(),
{
    if groups.len() == 0 {
        Ok(Seq::empty())
    } else {
        match rebuild_all(groups.drop_last(), events, records) {
            Err(e) => Err(e),
            Ok(ps) => match rebuilt(
                groups.last().0,
                sort_by_number(groups.last().1),
                events,
                records,
            ) {
                Err(e) => Err(e),
                Ok(p) => Ok(ps.push(p)),
            },
        }
    }
}

/// Every proposal the reads found, listed newest first; or the refusal of the
/// first ref that is not a revision, or of the first proposal, by name, that
/// cannot be rebuilt.
pub open spec fn assembled(
    refs: Seq<(Seq<char>, Seq<char>)>,
    events: Seq<EventNote>,
    records: Seq<RecordNote>,
) -> Result<Seq<ProposalView>, ErrorView> {
    match ref_groups(refs) {
        Err(e) => Err(e),
        Ok(g) => match rebuild_all(g, events, records) {
            Err(e) => Err(e),
            Ok(ps) => Ok(listing(ps)),
        },
    }
}

/// Every proposal opened no earlier than the ones after it.
pub open spec fn newest_first(ps: Seq<ProposalView>) -> bool {
    forall|i: int, j: int| 0 <= i < j < ps.len() ==> ps[i].opened_at >= ps[j].opened_at
}

proof fn lemma_insert_listed(sorted: Seq<ProposalView>, p: ProposalView, m: i64)
    ensures
        insert_listed(sorted, p).len() == sorted.len() + 1,
        (forall|k: int| 0 <= k < sorted.len() ==> sorted[k].opened_at >= m) && p.opened_at >= m
            ==> forall|k: int|
            0 <= k < insert_listed(sorted, p).len() ==> #[trigger] insert_listed(
                sorted,
                p,
            )[k].opened_at >= m,
        newest_first(sorted) ==> newest_first(insert_listed(sorted, p)),
    decreases sorted.len(),
{
    if sorted.len() == 0 || listed_before(sorted.last(), p) {
    } else {
        let rest = sorted.drop_last();
        let last = sorted.last();
        lemma_insert_listed(rest, p, m);
        lemma_insert_listed(rest, p, last.opened_at);
        let r = insert_listed(sorted, p);
        assert(r == insert_listed(rest, p).push(last));
        if newest_first(sorted) {
            assert(newest_first(rest));
            assert forall|k: int| 0 <= k < rest.len() implies rest[k].opened_at
                >= last.opened_at by {
                assert(sorted[k] == rest[k]);
            }
        }
    }
}

proof fn lemma_listing_newest_first(ps: Seq<ProposalView>)
    ensures
        listing(ps).len() == ps.len(),
        newest_first(listing(ps)),
    decreases ps.len(),
{
    if ps.len() > 0 {
        lemma_listing_newest_first(ps.drop_last());
        lemma_insert_listed(listing(ps.drop_last()), ps.last(), 0);
    }
}

/// Whatever the reads found, a snapshot lists the newest proposal first:
/// no proposal is listed before one opened later.
pub proof fn law_the_newest_proposal_is_first(
    refs: Seq<(Seq<char>, Seq<char>)>,
    events: Seq<EventNote>,
    records: Seq<RecordNote>,
)
    ensures
        assembled(refs, events, records) matches Ok(ps) ==> newest_first(ps),
{
    if let Ok(g) = ref_groups(refs) {
        if let Ok(ps) = rebuild_all(g, events, records) {
            lemma_listing_newest_first(ps);
        }
    }
}

/// Whether a retarget in a log is a log's latest: no retarget is later, and
/// none written after it shares its moment.
pub open spec fn is_latest_retarget(log: Seq<EventView>, j: int) -> bool {
    &&& 0 <= j < log.len()
    &&& log[j] is Retargeted
    &&& forall|k: int|
        0 <= k < log.len() && #[trigger] log[k] is Retargeted ==> log[k]->Retargeted_at
            <= log[j]->Retargeted_at
    &&& forall|k: int|
        j < k < log.len() && #[trigger] log[k] is Retargeted ==> log[k]->Retargeted_at
            < log[j]->Retargeted_at
}

proof fn lemma_insert_by_moment(sorted: Seq<(i64, Seq<char>)>, m: (i64, Seq<char>))
    ensures
        insert_by_moment(sorted, m).len() == sorted.len() + 1,
        insert_by_moment(sorted, m).contains(m),
        forall|x: (i64, Seq<char>)| sorted.contains(x) ==> #[trigger] insert_by_moment(
            sorted,
            m,
        ).contains(x),
        insert_by_moment(sorted, m).last() == if sorted.len() == 0 || sorted.last().0 <= m.0 {
            m
        } else {
            sorted.last()
        },
    decreases sorted.len(),
{
    let r = insert_by_moment(sorted, m);
    if sorted.len() == 0 || sorted.last().0 <= m.0 {
        assert(r[r.len() - 1] == m);
        assert forall|x: (i64, Seq<char>)| sorted.contains(x) implies #[trigger] r.contains(x) by {
            let k = choose|k: int| 0 <= k < sorted.len() && sorted[k] == x;
            assert(r[k] == x);
        }
    } else {
        let rest = sorted.drop_last();
        lemma_insert_by_moment(rest, m);
        let inner = insert_by_moment(rest, m);
        assert(r == inner.push(sorted.last()));
        let i = choose|i: int| 0 <= i < inner.len() && inner[i] == m;
        assert(r[i] == m);
        assert forall|x: (i64, Seq<char>)| sorted.contains(x) implies #[trigger] r.contains(x) by {
            let k = choose|k: int| 0 <= k < sorted.len() && sorted[k] == x;
            if k == sorted.len() - 1 {
                assert(r[r.len() - 1] == x);
            } else {
                assert(rest[k] == x);
                assert(rest.contains(x));
                assert(inner.contains(x));
                let t = choose|t: int| 0 <= t < inner.len() && inner[t] == x;
                assert(r[t] == x);
            }
        }
    }
}

proof fn lemma_moves_keep(s: Seq<(i64, Seq<char>)>)
    ensures
        moves_of(s).len() == s.len(),
        forall|k: int| 0 <= k < s.len() ==> moves_of(s).contains(#[trigger] s[k]),
    decreases s.len(),
{
    if s.len() > 0 {
        let rest = s.drop_last();
        lemma_moves_keep(rest);
        lemma_insert_by_moment(moves_of(rest), s.last());
        assert forall|k: int| 0 <= k < s.len() implies moves_of(s).contains(#[trigger] s[k]) by {
            if k < s.len() - 1 {
                assert(rest[k] == s[k]);
                assert(moves_of(rest).contains(rest[k]));
            }
        }
    }
}

proof fn lemma_retargets_count(log: Seq<EventView>)
    ensures
        retargets(log).len() == log.filter(|e: EventView| e is Retargeted).len(),
        forall|i: int|
            0 <= i < log.len() && #[trigger] log[i] is Retargeted ==> retargets(log).contains(
                (log[i]->Retargeted_at, log[i]->Retargeted_target),
            ),
    decreases log.len(),
{
    reveal_with_fuel(Seq::<_>::filter, 1);
    if log.len() > 0 {
        let init = log.drop_last();
        lemma_retargets_count(init);
        assert forall|i: int|
            0 <= i < log.len() && #[trigger] log[i] is Retargeted implies retargets(log).contains(
            (log[i]->Retargeted_at, log[i]->Retargeted_target),
        ) by {
            let m = (log[i]->Retargeted_at, log[i]->Retargeted_target);
            if i == log.len() - 1 {
                assert(retargets(log) == retargets(init).push(m));
                assert(retargets(log)[retargets(log).len() - 1] == m);
            } else {
                assert(init[i] == log[i]);
                let t = choose|t: int| 0 <= t < retargets(init).len() && retargets(init)[t] == m;
                if log.last() is Retargeted {
                    assert(retargets(log)[t] == m);
                }
            }
        }
    }
}

/// A snapshot keeps every move of a proposal: the moves it follows are one
/// per retarget in the event log, each retarget's moment and branch among
/// them, oldest first.
pub proof fn law_one_move_per_retarget(log: Seq<EventView>)
    ensures
        moves_of(retargets(log)).len() == log.filter(|e: EventView| e is Retargeted).len(),
        forall|i: int|
            0 <= i < log.len() && #[trigger] log[i] is Retargeted ==> moves_of(
                retargets(log),
            ).contains((log[i]->Retargeted_at, log[i]->Retargeted_target)),
{
    lemma_retargets_count(log);
    let s = retargets(log);
    lemma_moves_keep(s);
    assert forall|i: int|
        0 <= i < log.len() && #[trigger] log[i] is Retargeted implies moves_of(s).contains(
        (log[i]->Retargeted_at, log[i]->Retargeted_target),
    ) by {
        let m = (log[i]->Retargeted_at, log[i]->Retargeted_target);
        let t = choose|t: int| 0 <= t < s.len() && s[t] == m;
        assert(moves_of(s).contains(s[t]));
    }
}

proof fn lemma_latest_move(log: Seq<EventView>)
    ensures
        retargets(log).len() > 0 ==> moves_of(retargets(log)).len() > 0 && exists|j: int|
            is_latest_retarget(log, j) && moves_of(retargets(log)).last() == (
                log[j]->Retargeted_at,
                log[j]->Retargeted_target,
            ),
    decreases log.len(),
{
    if log.len() > 0 {
        let init = log.drop_last();
        let e = log.last();
        let last = log.len() - 1;
        lemma_latest_move(init);
        lemma_retargets_count(init);
        let ri = retargets(init);
        assert forall|k: int| 0 <= k < last implies log[k] == #[trigger] init[k] by {}
        if e is Retargeted {
            let m = (e->Retargeted_at, e->Retargeted_target);
            let s = retargets(log);
            assert(s == ri.push(m));
            assert(s.drop_last() =~= ri);
            assert(moves_of(s) == insert_by_moment(moves_of(ri), m));
            lemma_insert_by_moment(moves_of(ri), m);
            if ri.len() == 0 {
                assert forall|k: int| 0 <= k < last implies !(#[trigger] log[k] is Retargeted) by {
                    if log[k] is Retargeted {
                        assert(init[k] is Retargeted);
                        assert(ri.contains((init[k]->Retargeted_at, init[k]->Retargeted_target)));
                    }
                }
                assert(moves_of(ri).len() == 0);
                assert(is_latest_retarget(log, last));
            } else {
                let j = choose|j: int|
                    is_latest_retarget(init, j) && moves_of(ri).last() == (
                        init[j]->Retargeted_at,
                        init[j]->Retargeted_target,
                    );
                if init[j]->Retargeted_at <= m.0 {
                    assert forall|k: int|
                        0 <= k < log.len() && #[trigger] log[k] is Retargeted implies log[k]->Retargeted_at
                        <= log[last]->Retargeted_at by {
                        if k < last {
                            assert(init[k] is Retargeted);
                        }
                    }
                    assert(is_latest_retarget(log, last));
                } else {
                    assert(log[j] == init[j]);
                    assert forall|k: int|
                        0 <= k < log.len() && #[trigger] log[k] is Retargeted implies log[k]->Retargeted_at
                        <= log[j]->Retargeted_at by {
                        if k < last {
                            assert(init[k] is Retargeted);
                        }
                    }
                    assert forall|k: int|
                        j < k < log.len() && #[trigger] log[k] is Retargeted implies log[k]->Retargeted_at
                        < log[j]->Retargeted_at by {
                        if k < last {
                            assert(init[k] is Retargeted);
                        }
                    }
                    assert(is_latest_retarget(log, j));
                }
            }
        } else {
            assert(retargets(log) == ri);
            if ri.len() > 0 {
                let j = choose|j: int|
                    is_latest_retarget(init, j) && moves_of(ri).last() == (
                        init[j]->Retargeted_at,
                        init[j]->Retargeted_target,
                    );
                assert(log[j] == init[j]);
                assert forall|k: int|
                    0 <= k < log.len() && #[trigger] log[k] is Retargeted implies log[k]->Retargeted_at
                    <= log[j]->Retargeted_at by {
                    if k < last {
                        assert(init[k] is Retargeted);
                    }
                }
                assert forall|k: int|
                    j < k < log.len() && #[trigger] log[k] is Retargeted implies log[k]->Retargeted_at
                    < log[j]->Retargeted_at by {
                    if k < last {
                        assert(init[k] is Retargeted);
                    }
                }
                assert(is_latest_retarget(log, j));
            }
        }
    }
}

proof fn lemma_retarget_all_target(p: ProposalView, moves: Seq<(i64, Seq<char>)>)
    requires
        moves.len() > 0,
    ensures
        retarget_all(p, moves) matches Ok(q) ==> q.target == moves.last().1,
{
}

proof fn lemma_revise_all_target(p: ProposalView, later: Seq<RevisionView>)
    ensures
        revise_all(p, later) matches Ok(q) ==> q.target == p.target,
    decreases later.len(),
{
    if later.len() > 0 {
        lemma_revise_all_target(p, later.drop_last());
    }
}

proof fn lemma_apply_all_target(p: ProposalView, records: Seq<RecordView>)
    ensures
        apply_all(p, records).0.target == p.target,
    decreases records.len(),
{
    if records.len() > 0 {
        lemma_apply_all_target(p, records.drop_last());
        let q = apply_all(p, records.drop_last()).0;
        if let Ok(next) = apply_spec(q, records.last()) {
            assert(next.target == q.target);
        }
    }
}

proof fn lemma_fold_logs_target(p: ProposalView, revisions: Seq<RevisionView>, records: Seq<RecordNote>)
    ensures
        fold_logs(p, revisions, records) matches Ok(q) ==> q.target == p.target,
    decreases revisions.len(),
{
    if revisions.len() > 0 {
        lemma_fold_logs_target(p, revisions.drop_last(), records);
        if let Ok(q) = fold_logs(p, revisions.drop_last(), records) {
            let object = revisions.last().sha;
            if let Ok(rs) = read_records(record_note_of(records, object), object) {
                let first = rs.filter(|r: RecordView| !is_answer(r));
                let second = rs.filter(|r: RecordView| is_answer(r));
                lemma_apply_all_target(q, first);
                lemma_apply_all_target(apply_all(q, first).0, second);
            }
        }
    }
}

/// A proposal that was moved lands where it was moved last: once its event
/// log holds a retarget, the rebuilt proposal points at the branch of the
/// latest retarget by moment, and of retargets sharing that moment, the one
/// written last.
pub proof fn law_the_latest_retarget_wins(
    id: Seq<char>,
    revisions: Seq<RevisionView>,
    events: Seq<EventNote>,
    records: Seq<RecordNote>,
    log: Seq<EventView>,
    i: int,
)
    requires
        revisions.len() > 0,
        read_events(event_note_of(events, revisions[0].sha), revisions[0].sha) == Ok::<
            Seq<EventView>,
            ErrorView,
        >(log),
        0 <= i < log.len(),
        log[i] is Retargeted,
    ensures
        rebuilt(id, revisions, events, records) matches Ok(p) ==> exists|j: int|
            is_latest_retarget(log, j) && p.target == log[j]->Retargeted_target,
{
    reveal(rebuilt);
    lemma_retargets_count(log);
    assert(retargets(log).contains((log[i]->Retargeted_at, log[i]->Retargeted_target)));
    lemma_latest_move(log);
    let moves = moves_of(retargets(log));
    let first = revisions[0].sha;
    if let Ok(p0) = opened_of(id, first, log) {
        lemma_retarget_all_target(p0, moves);
        if let Ok(p1) = retarget_all(p0, moves) {
            lemma_revise_all_target(p1, revisions.drop_first());
            if let Ok(p2) = revise_all(p1, revisions.drop_first()) {
                lemma_fold_logs_target(p2, revisions, records);
            }
        }
    }
}

/// Revisions ascending by number.
pub open spec fn ascending(rs: Seq<RevisionView>) -> bool {
    forall|i: int, j: int| 0 <= i < j < rs.len() ==> rs[i].number <= rs[j].number
}

proof fn lemma_insert_by_number(sorted: Seq<RevisionView>, r: RevisionView, m: u32)
    ensures
        insert_by_number(sorted, r).len() == sorted.len() + 1,
        (forall|k: int| 0 <= k < sorted.len() ==> sorted[k].number <= m) && r.number <= m
            ==> forall|k: int|
            0 <= k < insert_by_number(sorted, r).len() ==> #[trigger] insert_by_number(
                sorted,
                r,
            )[k].number <= m,
        ascending(sorted) ==> ascending(insert_by_number(sorted, r)),
    decreases sorted.len(),
{
    if sorted.len() == 0 || sorted.last().number <= r.number {
    } else {
        let rest = sorted.drop_last();
        let last = sorted.last();
        lemma_insert_by_number(rest, r, m);
        lemma_insert_by_number(rest, r, last.number);
        assert(insert_by_number(sorted, r) == insert_by_number(rest, r).push(last));
        if ascending(sorted) {
            assert(ascending(rest));
            assert forall|k: int| 0 <= k < rest.len() implies rest[k].number <= last.number by {
                assert(sorted[k] == rest[k]);
            }
        }
    }
}

/// However the refs arrived, the revisions of a proposal are put in order
/// of their numbers.
pub proof fn law_revisions_come_back_in_order(rs: Seq<RevisionView>)
    ensures
        sort_by_number(rs).len() == rs.len(),
        ascending(sort_by_number(rs)),
    decreases rs.len(),
{
    if rs.len() > 0 {
        law_revisions_come_back_in_order(rs.drop_last());
        lemma_insert_by_number(sort_by_number(rs.drop_last()), rs.last(), 0);
    }
}

/// The proposal log, whole, as it stood at one fingerprint.
#[derive(Debug, Clone)]
pub struct Snapshot {
    proposals: Vec<Proposal>,
    fingerprint: String,
}

/// What a snapshot holds: every proposal, newest first, and the fingerprint
/// it was read at.
pub struct SnapshotView {
    pub proposals: Seq<ProposalView>,
    pub fingerprint: Seq<char>,
}

impl View for Snapshot {
    type V = SnapshotView;

    closed spec fn view(&self) -> SnapshotView {
        SnapshotView {
            proposals: self.proposals@.map_values(|p: Proposal| p@),
            fingerprint: self.fingerprint@,
        }
    }
}

fn listed_before_exec(a: &Proposal, b: &Proposal) -> (r: bool)
    ensures
        r == listed_before(a@, b@),
{
    let x = a.opened_at().unix();
    let y = b.opened_at().unix();
    x > y || (x == y && !text_less(b.id().as_str(), a.id().as_str()))
}

fn insert_proposal(v: &mut Vec<Proposal>, p: Proposal)
    ensures
        final(v)@.map_values(|x: Proposal| x@) == insert_listed(
            old(v)@.map_values(|x: Proposal| x@),
            p@,
        ),
{
    let ghost before = v@.map_values(|x: Proposal| x@);
    let mut k = v.len();
    assert(before.take(k as int) =~= before);
    assert(before.skip(k as int) =~= Seq::<ProposalView>::empty());
    while k > 0 && !listed_before_exec(&v[k - 1], &p)
        invariant
            k <= v@.len(),
            v@ == old(v)@,
            before == v@.map_values(|x: Proposal| x@),
            insert_listed(before, p@) == insert_listed(before.take(k as int), p@) + before.skip(
                k as int,
            ),
        decreases k,
    {
        assert(before.take(k as int).drop_last() =~= before.take(k - 1));
        assert(before.take(k as int).last() == before[k - 1]);
        assert(before.skip(k - 1) =~= seq![before[k - 1]] + before.skip(k as int));
        assert(insert_listed(before.take(k - 1), p@).push(before[k - 1]) + before.skip(k as int)
            =~= insert_listed(before.take(k - 1), p@) + before.skip(k - 1));
        k = k - 1;
    }
    assert(insert_listed(before.take(k as int), p@) == before.take(k as int).push(p@));
    let ghost pv = p@;
    v.insert(k, p);
    assert(v@.map_values(|x: Proposal| x@) =~= before.take(k as int).push(pv) + before.skip(
        k as int,
    ));
}

proof fn lemma_rebuild_all_error_persists(
    groups: Seq<(Seq<char>, Seq<RevisionView>)>,
    events: Seq<EventNote>,
    records: Seq<RecordNote>,
    k: int,
)
    requires
        0 <= k <= groups.len(),
        rebuild_all(groups.take(k), events, records) is Err,
    ensures
        rebuild_all(groups, events, records) == rebuild_all(groups.take(k), events, records),
    decreases groups.len(),
{
    if k < groups.len() {
        assert(groups.drop_last().take(k) =~= groups.take(k));
        lemma_rebuild_all_error_persists(groups.drop_last(), events, records, k);
    } else {
        assert(groups.take(k) =~= groups);
    }
}

impl Snapshot {
    /// What the repository looked like when this was read. Only equality
    /// means anything.
    pub fn fingerprint(&self) -> (s: &str)
        ensures
            s@ == self@.fingerprint,
    {
        self.fingerprint.as_str()
    }

    /// Every proposal, newest first.
    pub fn proposals(&self) -> (s: &[Proposal])
        ensures
            s@.map_values(|p: Proposal| p@) == self@.proposals,
    {
        self.proposals.as_slice()
    }

    /// One proposal by name: the first listed under it.
    pub fn get(&self, id: &ProposalId) -> (r: Option<&Proposal>)
        ensures
            match r {
                Some(p) => exists|i: int|
                    0 <= i < self@.proposals.len() && self@.proposals[i] == p@ && p@.id == id@
                        && forall|j: int|
                        0 <= j < i ==> (#[trigger] self@.proposals[j]).id != id@,
                None => forall|i: int|
                    0 <= i < self@.proposals.len() ==> (#[trigger] self@.proposals[i]).id != id@,
            },
    {
        let ghost ps = self@.proposals;
        let mut i: usize = 0;
        while i < self.proposals.len()
            invariant
                i <= self.proposals@.len(),
                ps == self.proposals@.map_values(|p: Proposal| p@),
                forall|j: int| 0 <= j < i ==> (#[trigger] ps[j]).id != id@,
            decreases self.proposals.len() - i,
        {
            assert(ps[i as int] == self.proposals@[i as int]@);
            if self.proposals[i].id().same(id) {
                return Some(&self.proposals[i]);
            }
            i = i + 1;
        }
        None
    }

    /// The proposals that have neither landed nor been given up on, in
    /// listing order.
    pub fn open(&self) -> (v: Vec<&Proposal>)
        ensures
            v@.map_values(|p: &Proposal| p@) == self@.proposals.filter(
                |p: ProposalView| p.state == State::Open,
            ),
    {
        let ghost ps = self@.proposals;
        let ghost pred = |p: ProposalView| p.state == State::Open;
        let mut v: Vec<&Proposal> = Vec::new();
        let mut i: usize = 0;
        assert(ps.take(0).filter(pred) =~= Seq::<ProposalView>::empty());
        while i < self.proposals.len()
            invariant
                i <= self.proposals@.len(),
                ps == self.proposals@.map_values(|p: Proposal| p@),
                pred == (|p: ProposalView| p.state == State::Open),
                v@.map_values(|p: &Proposal| p@) == ps.take(i as int).filter(pred),
            decreases self.proposals.len() - i,
        {
            reveal_with_fuel(Seq::<_>::filter, 1);
            assert(ps.take(i + 1).drop_last() =~= ps.take(i as int));
            assert(ps.take(i + 1).last() == self.proposals@[i as int]@);
            let p = &self.proposals[i];
            let ghost before = v@.map_values(|q: &Proposal| q@);
            if matches!(p.state(), State::Open) {
                v.push(p);
                assert(v@.map_values(|q: &Proposal| q@) =~= before.push(p@));
            }
            i = i + 1;
        }
        assert(ps.take(self.proposals@.len() as int) =~= ps);
        v
    }

    /// Rebuild every proposal from what the three reads found: the revision
    /// refs as name and sha, and the two logs as the notes on each object.
    pub fn assemble(
        refs: &[(String, String)],
        events: &[EventNote],
        records: &[RecordNote],
        fingerprint: String,
    ) -> (r: Result<Snapshot, Error>)
        ensures
            match r {
                Ok(s) => assembled(ref_views(refs@), events@, records@) == Ok::<
                    Seq<ProposalView>,
                    ErrorView,
                >(s@.proposals) && s@.fingerprint == fingerprint@,
                Err(e) => assembled(ref_views(refs@), events@, records@) == Err::<
                    Seq<ProposalView>,
                    ErrorView,
                >(e@),
            },
    {
        let groups = revision_groups(refs)?;
        let ghost g = group_views(groups@);
        let mut proposals: Vec<Proposal> = Vec::new();
        let mut i: usize = 0;
        assert(g.take(0) =~= Seq::<(Seq<char>, Seq<RevisionView>)>::empty());
        assert(proposals@.map_values(|x: Proposal| x@) =~= Seq::<ProposalView>::empty());
        let ghost built: Seq<ProposalView> = Seq::empty();
        while i < groups.len()
            invariant
                i <= groups@.len(),
                g == group_views(groups@),
                ref_groups(ref_views(refs@)) == Ok::<
                    Seq<(Seq<char>, Seq<RevisionView>)>,
                    ErrorView,
                >(g),
                rebuild_all(g.take(i as int), events@, records@) == Ok::<
                    Seq<ProposalView>,
                    ErrorView,
                >(built),
                proposals@.map_values(|x: Proposal| x@) == listing(built),
            decreases groups.len() - i,
        {
            assert(g.take(i + 1).drop_last() =~= g.take(i as int));
            assert(g.take(i + 1).last() == g[i as int]);
            let revisions = sorted_by_number(&groups[i].1);
            let p = match rebuild(&groups[i].0, &revisions, events, records) {
                Ok(p) => p,
                Err(e) => {
                    proof {
                        lemma_rebuild_all_error_persists(g, events@, records@, i + 1);
                    }
                    return Err(e);
                },
            };
            proof {
                assert(listing(built.push(p@)) == insert_listed(listing(built), p@)) by {
                    assert(built.push(p@).drop_last() =~= built);
                }
                built = built.push(p@);
            }
            insert_proposal(&mut proposals, p);
            i = i + 1;
        }
        assert(g.take(groups@.len() as int) =~= g);
        Ok(Snapshot { proposals, fingerprint })
    }
}

} // verus!
