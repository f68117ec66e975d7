//! A record to its line, and a line back to a record.
//!
//! Reading runs the real constructors, so every rule in the domain applies on
//! read exactly as it does on write. A version this build does not speak is
//! refused; a kind it does not know is reported by name, and the store skips
//! those rather than failing the load.

use vstd::prelude::*;

use super::line::{
    blank_line, note_id_of, note_line, note_line_view, render_line, reply_id_of, reply_line,
    reply_line_view, resolution_id_of, resolution_line, resolution_line_view, Line, LineView,
    VERSION,
};
use crate::check::{status_word, Check, CheckName, CheckStatus, CheckView};
use crate::chunk::{chunk_refusal, optional_value, Chunk, ChunkView};
use crate::comment::{Comment, CommentView};
use crate::errors::{Error, ErrorView};
use crate::identity::{is_sha_text, nonblank_result, sha_result, Author, FilePath, RecordId, Sha};
use crate::number::{decimal_int, push_int};
use crate::rationale::{Rationale, RationaleView};
use crate::record::{kind_named, kind_word, Kind, Record, RecordView};
use crate::reply::{Reply, ReplyView};
use crate::resolution::{Resolution, ResolutionView};
use crate::span::{is_span, side_word, Anchor, AnchorView, Side, Span, SpanView};
use crate::text::{copy_str, same_text, trimmed};
use crate::calendar::{first_writable, last_writable, law_written_moment_reads_back};
use crate::timestamp::{parse_timestamp, timestamp_text, Timestamp};
use crate::work::{
    kept_note, note_refusal, phase_named, phase_word, task_named, task_word, Dispatch,
    DispatchView, Phase, Task, Work, WorkView,
};

verus! {

/// The line a record serialises to.
pub open spec fn record_line(r: RecordView) -> LineView {
    match r {
        RecordView::Comment(c) => note_line_view(
            Kind::Comment,
            c.id,
            c.revision,
            c.anchor,
            c.body,
            c.author,
            c.at,
        ),
        RecordView::Rationale(c) => note_line_view(
            Kind::Rationale,
            c.id,
            c.revision,
            c.anchor,
            c.body,
            c.author,
            c.at,
        ),
        RecordView::Reply(x) => reply_line_view(x.id, x.target, x.revision, x.body, x.author, x.at),
        RecordView::Resolve(x) => resolution_line_view(x.id, x.target, x.author, x.at),
        RecordView::Check(c) => LineView {
            kind: kind_word(Kind::Check),
            rev: c.revision,
            name: c.name,
            status: status_word(c.status),
            seconds: c.seconds as i64,
            author: c.author,
            at: timestamp_text(c.at as int),
            ..blank_line()
        },
        RecordView::Chunk(c) => LineView {
            kind: kind_word(Kind::Chunk),
            file: match c.anchor {
                Some(a) => a.file,
                None => Seq::empty(),
            },
            side: match c.anchor {
                Some(a) => side_word(a.span.side),
                None => Seq::empty(),
            },
            start: match c.anchor {
                Some(a) => a.span.start as i64,
                None => 0,
            },
            end: match c.anchor {
                Some(a) => a.span.end as i64,
                None => 0,
            },
            title: c.title,
            surface: match c.surface {
                Some(s) => s,
                None => Seq::empty(),
            },
            before: c.before,
            after: c.after,
            decision: c.decision,
            rejected: match c.rejected {
                Some(s) => s,
                None => Seq::empty(),
            },
            ..blank_line()
        },
        RecordView::Work(w) => LineView {
            kind: kind_word(Kind::Work),
            rev: w.revision,
            body: match w.note {
                Some(n) => n,
                None => Seq::empty(),
            },
            task: task_word(w.task),
            phase: phase_word(w.phase),
            author: w.agent,
            at: timestamp_text(w.at as int),
            ..blank_line()
        },
        RecordView::Dispatch(d) => LineView {
            kind: kind_word(Kind::Dispatch),
            rev: d.revision,
            author: d.author,
            at: timestamp_text(d.at as int),
            ..blank_line()
        },
    }
}

/// What reading a side gives.
pub open spec fn side_result(raw: Seq<char>) -> Result<Side, ErrorView> {
    if raw == side_word(Side::Old) {
        Ok(Side::Old)
    } else if raw == side_word(Side::New) {
        Ok(Side::New)
    } else {
        Err(ErrorView::UnknownSide(raw))
    }
}

/// A line number the wire carries as a signed integer. Anything a `u32`
/// cannot hold is a span that covers nothing.
pub open spec fn line_number(value: i64, start: i64, end: i64) -> Result<u32, ErrorView> {
    if 0 <= value <= u32::MAX {
        Ok(value as u32)
    } else {
        Err(ErrorView::EmptySpan { start, end })
    }
}

/// What reading the anchor fields of a line gives: side, then start, then
/// end, then the span, then the file.
pub open spec fn anchor_result(l: LineView) -> Result<AnchorView, ErrorView> {
    match side_result(l.side) {
        Err(e) => Err(e),
        Ok(side) => match line_number(l.start, l.start, l.end) {
            Err(e) => Err(e),
            Ok(start) => match line_number(l.end, l.start, l.end) {
                Err(e) => Err(e),
                Ok(end) => if !is_span(start as int, end as int) {
                    Err(ErrorView::EmptySpan { start: start as i64, end: end as i64 })
                } else {
                    match nonblank_result(l.file, ErrorView::NoFile) {
                        Err(e) => Err(e),
                        Ok(file) => Ok(AnchorView { file, span: SpanView { side, start, end } }),
                    }
                },
            },
        },
    }
}

/// The identity a line carries: none when blank.
pub open spec fn stored_id_result(l: LineView) -> Result<Option<Seq<char>>, ErrorView> {
    if l.id.len() == 0 {
        Ok(None)
    } else {
        match nonblank_result(l.id, ErrorView::NoTarget) {
            Ok(t) => Ok(Some(t)),
            Err(e) => Err(e),
        }
    }
}

/// The moment a line carries. A chunk is the one kind with no moment of its
/// own: it describes the work, not something that happened to it.
pub open spec fn at_result(l: LineView) -> Result<i64, ErrorView> {
    if l.kind == kind_word(Kind::Chunk) {
        Ok(0)
    } else {
        match parse_timestamp(l.at) {
            Some(u) => Ok(u as i64),
            None => Err(ErrorView::Malformed("timestamp "@ + l.at)),
        }
    }
}

/// A blank string on the wire is an absent value in the domain.
pub open spec fn present(value: Seq<char>) -> Option<Seq<char>> {
    if value.len() == 0 {
        None
    } else {
        Some(value)
    }
}

/// The identity a note is known by: the one it carries, or the one derived.
pub open spec fn kept_id(id: Option<Seq<char>>, derived: Seq<char>) -> Seq<char> {
    match id {
        Some(i) => i,
        None => derived,
    }
}

/// What reading a comment or rationale line gives.
pub open spec fn note_from_line(kind: Kind, l: LineView, at: i64) -> Result<CommentView, ErrorView> {
    match stored_id_result(l) {
        Err(e) => Err(e),
        Ok(id) => match sha_result(l.rev) {
            Err(e) => Err(e),
            Ok(rev) => match anchor_result(l) {
                Err(e) => Err(e),
                Ok(anchor) => match nonblank_result(l.author, ErrorView::NoAuthor) {
                    Err(e) => Err(e),
                    Ok(author) => if trimmed(l.body).len() == 0 {
                        Err(ErrorView::NoBody)
                    } else {
                        Ok(
                            CommentView {
                                id: kept_id(
                                    id,
                                    note_id_of(kind, rev, anchor, trimmed(l.body), author, at),
                                ),
                                revision: rev,
                                anchor,
                                body: trimmed(l.body),
                                author,
                                at,
                            },
                        )
                    },
                },
            },
        },
    }
}

/// The explanation a note-shaped view stands for.
pub open spec fn as_rationale(c: CommentView) -> RationaleView {
    RationaleView {
        id: c.id,
        revision: c.revision,
        anchor: c.anchor,
        body: c.body,
        author: c.author,
        at: c.at,
    }
}

/// What reading a reply line gives.
pub open spec fn reply_from_line(l: LineView, at: i64) -> Result<ReplyView, ErrorView> {
    match stored_id_result(l) {
        Err(e) => Err(e),
        Ok(id) => match nonblank_result(l.target, ErrorView::NoTarget) {
            Err(e) => Err(e),
            Ok(target) => match sha_result(l.rev) {
                Err(e) => Err(e),
                Ok(rev) => match nonblank_result(l.author, ErrorView::NoAuthor) {
                    Err(e) => Err(e),
                    Ok(author) => if trimmed(l.body).len() == 0 {
                        Err(ErrorView::NoBody)
                    } else {
                        Ok(
                            ReplyView {
                                id: kept_id(
                                    id,
                                    reply_id_of(target, rev, trimmed(l.body), author, at),
                                ),
                                target,
                                revision: rev,
                                body: trimmed(l.body),
                                author,
                                at,
                            },
                        )
                    },
                },
            },
        },
    }
}

/// What reading a resolution line gives.
pub open spec fn resolution_from_line(l: LineView, at: i64) -> Result<ResolutionView, ErrorView> {
    match stored_id_result(l) {
        Err(e) => Err(e),
        Ok(id) => match nonblank_result(l.target, ErrorView::NoTarget) {
            Err(e) => Err(e),
            Ok(target) => match nonblank_result(l.author, ErrorView::NoAuthor) {
                Err(e) => Err(e),
                Ok(author) => Ok(
                    ResolutionView {
                        id: kept_id(id, resolution_id_of(target, author, at)),
                        target,
                        author,
                        at,
                    },
                ),
            },
        },
    }
}

/// What reading a status gives.
pub open spec fn status_result(raw: Seq<char>) -> Result<CheckStatus, ErrorView> {
    if raw == status_word(CheckStatus::Passed) {
        Ok(CheckStatus::Passed)
    } else if raw == status_word(CheckStatus::Failed) {
        Ok(CheckStatus::Failed)
    } else {
        Err(ErrorView::UnknownStatus(raw))
    }
}

/// How long a check ran, which cannot be negative or beyond a `u32`.
pub open spec fn seconds_result(value: i64) -> Result<u32, ErrorView> {
    if 0 <= value <= u32::MAX {
        Ok(value as u32)
    } else {
        Err(ErrorView::Malformed(decimal_int(value as int) + " seconds"@))
    }
}

/// What reading a check line gives.
pub open spec fn check_from_line(l: LineView, at: i64) -> Result<CheckView, ErrorView> {
    match nonblank_result(l.name, ErrorView::NoCheckName) {
        Err(e) => Err(e),
        Ok(name) => match status_result(l.status) {
            Err(e) => Err(e),
            Ok(status) => match sha_result(l.rev) {
                Err(e) => Err(e),
                Ok(rev) => match seconds_result(l.seconds) {
                    Err(e) => Err(e),
                    Ok(seconds) => match nonblank_result(l.author, ErrorView::NoAuthor) {
                        Err(e) => Err(e),
                        Ok(author) => Ok(
                            CheckView { name, status, revision: rev, seconds, author, at },
                        ),
                    },
                },
            },
        },
    }
}

/// What reading a chunk line gives: it stays unanchored until the line names
/// a file.
pub open spec fn chunk_from_line(l: LineView) -> Result<ChunkView, ErrorView> {
    match chunk_refusal(
        l.title,
        present(l.surface),
        l.before,
        l.after,
        l.decision,
        present(l.rejected),
    ) {
        Some(e) => Err(e@),
        None => {
            let c = ChunkView {
                title: trimmed(l.title),
                surface: optional_value(present(l.surface)),
                before: trimmed(l.before),
                after: trimmed(l.after),
                decision: trimmed(l.decision),
                rejected: optional_value(present(l.rejected)),
                anchor: None,
            };
            if l.file.len() == 0 {
                Ok(c)
            } else {
                match anchor_result(l) {
                    Err(e) => Err(e),
                    Ok(a) => Ok(ChunkView { anchor: Some(a), ..c }),
                }
            }
        },
    }
}

/// What reading a work line gives.
pub open spec fn work_from_line(l: LineView, at: i64) -> Result<WorkView, ErrorView> {
    match sha_result(l.rev) {
        Err(e) => Err(e),
        Ok(rev) => match task_named(l.task) {
            None => Err(ErrorView::UnknownTask(l.task)),
            Some(task) => match phase_named(l.phase) {
                None => Err(ErrorView::UnknownPhase(l.phase)),
                Some(phase) => match nonblank_result(l.author, ErrorView::NoAuthor) {
                    Err(e) => Err(e),
                    Ok(agent) => match note_refusal(present(l.body)) {
                        Some(e) => Err(e@),
                        None => Ok(
                            WorkView {
                                revision: rev,
                                task,
                                phase,
                                agent,
                                note: kept_note(present(l.body)),
                                at,
                            },
                        ),
                    },
                },
            },
        },
    }
}

/// What reading a dispatch line gives.
pub open spec fn dispatch_from_line(l: LineView, at: i64) -> Result<DispatchView, ErrorView> {
    match sha_result(l.rev) {
        Err(e) => Err(e),
        Ok(rev) => match nonblank_result(l.author, ErrorView::NoAuthor) {
            Err(e) => Err(e),
            Ok(author) => Ok(DispatchView { revision: rev, author, at }),
        },
    }
}

/// What reading one line of the annotation log gives: the version first,
/// then the moment, then the kind, then the kind's own fields.
#[verifier::opaque]
pub open spec fn record_from_line(l: LineView) -> Result<RecordView, ErrorView> {
    if l.v != VERSION {
        Err(ErrorView::Version(l.v))
    } else {
        match at_result(l) {
            Err(e) => Err(e),
            Ok(at) => match kind_named(l.kind) {
                None => Err(ErrorView::UnknownKind(l.kind)),
                Some(Kind::Comment) => match note_from_line(Kind::Comment, l, at) {
                    Ok(c) => Ok(RecordView::Comment(c)),
                    Err(e) => Err(e),
                },
                Some(Kind::Rationale) => match note_from_line(Kind::Rationale, l, at) {
                    Ok(c) => Ok(RecordView::Rationale(as_rationale(c))),
                    Err(e) => Err(e),
                },
                Some(Kind::Reply) => match reply_from_line(l, at) {
                    Ok(x) => Ok(RecordView::Reply(x)),
                    Err(e) => Err(e),
                },
                Some(Kind::Resolve) => match resolution_from_line(l, at) {
                    Ok(x) => Ok(RecordView::Resolve(x)),
                    Err(e) => Err(e),
                },
                Some(Kind::Check) => match check_from_line(l, at) {
                    Ok(x) => Ok(RecordView::Check(x)),
                    Err(e) => Err(e),
                },
                Some(Kind::Chunk) => match chunk_from_line(l) {
                    Ok(x) => Ok(RecordView::Chunk(x)),
                    Err(e) => Err(e),
                },
                Some(Kind::Work) => match work_from_line(l, at) {
                    Ok(x) => Ok(RecordView::Work(x)),
                    Err(e) => Err(e),
                },
                Some(Kind::Dispatch) => match dispatch_from_line(l, at) {
                    Ok(x) => Ok(RecordView::Dispatch(x)),
                    Err(e) => Err(e),
                },
            },
        }
    }
}

/// The view of a parsed record.
pub open spec fn record_result(r: Result<Record, Error>) -> Result<RecordView, ErrorView> {
    match r {
        Ok(x) => Ok(x@),
        Err(e) => Err(e@),
    }
}

fn side_of(raw: &str) -> (r: Result<Side, Error>)
    ensures
        match r {
            Ok(s) => side_result(raw@) == Ok::<Side, ErrorView>(s),
            Err(e) => side_result(raw@) == Err::<Side, ErrorView>(e@),
        },
{
    Side::parse(raw)
}

fn line_number_of(value: i64, start: i64, end: i64) -> (r: Result<u32, Error>)
    ensures
        match r {
            Ok(n) => line_number(value, start, end) == Ok::<u32, ErrorView>(n),
            Err(e) => line_number(value, start, end) == Err::<u32, ErrorView>(e@),
        },
{
    if 0 <= value && value <= 4294967295 {
        Ok(value as u32)
    } else {
        Err(Error::EmptySpan { start, end })
    }
}

fn anchor_of(line: &Line) -> (r: Result<Anchor, Error>)
    ensures
        match r {
            Ok(a) => anchor_result(line@) == Ok::<AnchorView, ErrorView>(a@),
            Err(e) => anchor_result(line@) == Err::<AnchorView, ErrorView>(e@),
        },
{
    let side = side_of(line.side.as_str())?;
    let start = line_number_of(line.start, line.start, line.end)?;
    let end = line_number_of(line.end, line.start, line.end)?;
    let span = Span::new(side, start, end)?;
    let file = FilePath::parse(line.file.as_str())?;
    Ok(Anchor::new(file, span))
}

fn stored_id(line: &Line) -> (r: Result<Option<RecordId>, Error>)
    ensures
        match r {
            Ok(Some(i)) => stored_id_result(line@) == Ok::<Option<Seq<char>>, ErrorView>(Some(i@)),
            Ok(None) => stored_id_result(line@) == Ok::<Option<Seq<char>>, ErrorView>(None),
            Err(e) => stored_id_result(line@) == Err::<Option<Seq<char>>, ErrorView>(e@),
        },
{
    if line.id.as_str().is_empty() {
        return Ok(None);
    }
    let id = RecordId::parse(line.id.as_str())?;
    Ok(Some(id))
}

fn optional(value: &str) -> (r: Option<&str>)
    ensures
        crate::text::opt_chars(r) == present(value@),
{
    if value.is_empty() {
        None
    } else {
        Some(value)
    }
}

fn seconds_of(value: i64) -> (r: Result<u32, Error>)
    ensures
        match r {
            Ok(n) => seconds_result(value) == Ok::<u32, ErrorView>(n),
            Err(e) => seconds_result(value) == Err::<u32, ErrorView>(e@),
        },
{
    if 0 <= value && value <= 4294967295 {
        Ok(value as u32)
    } else {
        let mut text = String::new();
        push_int(&mut text, value);
        text.append(" seconds");
        Err(Error::Malformed(text))
    }
}

fn status_of(raw: &str) -> (r: Result<CheckStatus, Error>)
    ensures
        match r {
            Ok(s) => status_result(raw@) == Ok::<CheckStatus, ErrorView>(s),
            Err(e) => status_result(raw@) == Err::<CheckStatus, ErrorView>(e@),
        },
{
    CheckStatus::parse(raw)
}

fn at_of(line: &Line) -> (r: Result<Timestamp, Error>)
    ensures
        match r {
            Ok(t) => at_result(line@) == Ok::<i64, ErrorView>(t@),
            Err(e) => at_result(line@) == Err::<i64, ErrorView>(e@),
        },
{
    if same_text(line.kind.as_str(), "chunk") {
        proof {
            reveal_strlit("chunk");
        }
        return Ok(Timestamp::from_unix(0));
    }
    proof {
        reveal_strlit("chunk");
    }
    match Timestamp::parse(line.at.as_str()) {
        Ok(t) => Ok(t),
        Err(_) => {
            let mut text = copy_str("timestamp ");
            text.append(line.at.as_str());
            Err(Error::Malformed(text))
        },
    }
}

fn note_parts(line: &Line) -> (r: Result<(Option<RecordId>, Sha, Anchor, Author), Error>)
    ensures
        match r {
            Ok((id, rev, anchor, author)) => stored_id_result(line@) == Ok::<
                Option<Seq<char>>,
                ErrorView,
            >(
                match id {
                    Some(i) => Some(i@),
                    None => None,
                },
            ) && sha_result(line@.rev) == Ok::<Seq<char>, ErrorView>(rev@) && anchor_result(
                line@,
            ) == Ok::<AnchorView, ErrorView>(anchor@) && nonblank_result(
                line@.author,
                ErrorView::NoAuthor,
            ) == Ok::<Seq<char>, ErrorView>(author@),
            Err(e) => match stored_id_result(line@) {
                Err(x) => e@ == x,
                Ok(_) => match sha_result(line@.rev) {
                    Err(x) => e@ == x,
                    Ok(_) => match anchor_result(line@) {
                        Err(x) => e@ == x,
                        Ok(_) => nonblank_result(line@.author, ErrorView::NoAuthor) == Err::<
                            Seq<char>,
                            ErrorView,
                        >(e@),
                    },
                },
            },
        },
{
    let id = stored_id(line)?;
    let rev = Sha::parse(line.rev.as_str())?;
    let anchor = anchor_of(line)?;
    let author = Author::parse(line.author.as_str())?;
    Ok((id, rev, anchor, author))
}

impl Record {
    /// The flat line the record serialises to.
    pub fn line(&self) -> (l: Line)
        ensures
            l@ == record_line(self@),
            moment_writable(self@) ==> record_from_line(l@) == Ok::<RecordView, ErrorView>(self@),
    {
        proof {
            match self {
                Record::Comment(x) => {
                    use_type_invariant(x);
                    Comment::lemma_sound(*x);
                },
                Record::Rationale(x) => {
                    use_type_invariant(x);
                    Rationale::lemma_sound(*x);
                },
                Record::Reply(x) => {
                    use_type_invariant(x);
                    Reply::lemma_sound(*x);
                },
                Record::Resolve(x) => {
                    use_type_invariant(x);
                    Resolution::lemma_sound(*x);
                },
                Record::Check(x) => {
                    use_type_invariant(x);
                    Check::lemma_sound(*x);
                },
                Record::Chunk(x) => {
                    use_type_invariant(x);
                    Chunk::lemma_sound(*x);
                },
                Record::Work(x) => {
                    use_type_invariant(x);
                    Work::lemma_sound(*x);
                },
                Record::Dispatch(x) => {
                    use_type_invariant(x);
                    Dispatch::lemma_sound(*x);
                },
            }
            if moment_writable(self@) {
                law_record_reads_back(self@);
            }
        }
        match self {
            Record::Comment(c) => note_line(
                Kind::Comment,
                c.id().as_str(),
                c.revision(),
                c.anchor(),
                c.body(),
                c.author(),
                c.at(),
            ),
            Record::Rationale(c) => note_line(
                Kind::Rationale,
                c.id().as_str(),
                c.revision(),
                c.anchor(),
                c.body(),
                c.author(),
                c.at(),
            ),
            Record::Reply(x) => reply_line(
                x.id().as_str(),
                x.target(),
                x.revision(),
                x.body(),
                x.author(),
                x.at(),
            ),
            Record::Resolve(x) => resolution_line(x.id().as_str(), x.target(), x.author(), x.at()),
            Record::Check(c) => {
                let mut l = Line::blank();
                l.kind = copy_str(Kind::Check.as_str());
                l.rev = copy_str(c.revision().as_str());
                l.name = copy_str(c.name().as_str());
                l.status = copy_str(c.status().as_str());
                l.seconds = c.seconds() as i64;
                l.author = copy_str(c.author().as_str());
                l.at = c.at().to_string();
                l
            },
            Record::Chunk(c) => {
                let mut l = Line::blank();
                l.kind = copy_str(Kind::Chunk.as_str());
                match c.anchor() {
                    Some(a) => {
                        l.file = copy_str(a.file().as_str());
                        l.side = copy_str(a.span().side().as_str());
                        l.start = a.span().start() as i64;
                        l.end = a.span().end() as i64;
                    },
                    None => {},
                }
                l.title = copy_str(c.title());
                match c.surface() {
                    Some(s) => {
                        l.surface = copy_str(s);
                    },
                    None => {},
                }
                l.before = copy_str(c.before());
                l.after = copy_str(c.after());
                l.decision = copy_str(c.decision());
                match c.rejected() {
                    Some(s) => {
                        l.rejected = copy_str(s);
                    },
                    None => {},
                }
                l
            },
            Record::Work(w) => {
                let mut l = Line::blank();
                l.kind = copy_str(Kind::Work.as_str());
                l.rev = copy_str(w.revision().as_str());
                match w.note() {
                    Some(n) => {
                        l.body = copy_str(n);
                    },
                    None => {},
                }
                l.task = copy_str(w.task().as_str());
                l.phase = copy_str(w.phase().as_str());
                l.author = copy_str(w.agent().as_str());
                l.at = w.at().to_string();
                l
            },
            Record::Dispatch(d) => {
                let mut l = Line::blank();
                l.kind = copy_str(Kind::Dispatch.as_str());
                l.rev = copy_str(d.revision().as_str());
                l.author = copy_str(d.author().as_str());
                l.at = d.at().to_string();
                l
            },
        }
    }

    /// Render the record as the single line it is stored as, with no newline.
    pub fn to_line(&self) -> (s: String)
        ensures
            s@ == render_line(record_line(self@)),
    {
        self.line().render()
    }

    /// Read one line of the annotation log, already split into its fields:
    /// a version this build does not speak, a bad moment, a kind it does not
    /// know, or a record any constructor here refuses is refused.
    pub fn from_line(line: &Line) -> (r: Result<Record, Error>)
        ensures
            record_result(r) == record_from_line(line@),
    {
        proof {
            reveal(record_from_line);
        }
        if line.v != VERSION {
            return Err(Error::Version(line.v));
        }
        let at = at_of(line)?;
        let kind = Kind::parse(line.kind.as_str())?;
        match kind {
            Kind::Comment => {
                let (id, rev, anchor, author) = note_parts(line)?;
                let c = Comment::restore(id, rev, anchor, line.body.as_str(), author, at)?;
                Ok(Record::Comment(c))
            },
            Kind::Rationale => {
                let (id, rev, anchor, author) = note_parts(line)?;
                let c = Rationale::restore(id, rev, anchor, line.body.as_str(), author, at)?;
                Ok(Record::Rationale(c))
            },
            Kind::Reply => {
                let id = stored_id(line)?;
                let target = RecordId::parse(line.target.as_str())?;
                let rev = Sha::parse(line.rev.as_str())?;
                let author = Author::parse(line.author.as_str())?;
                let x = Reply::restore(id, target, rev, line.body.as_str(), author, at)?;
                Ok(Record::Reply(x))
            },
            Kind::Resolve => {
                let id = stored_id(line)?;
                let target = RecordId::parse(line.target.as_str())?;
                let author = Author::parse(line.author.as_str())?;
                Ok(Record::Resolve(Resolution::restore(id, target, author, at)))
            },
            Kind::Check => {
                let name = CheckName::parse(line.name.as_str())?;
                let status = status_of(line.status.as_str())?;
                let rev = Sha::parse(line.rev.as_str())?;
                let seconds = seconds_of(line.seconds)?;
                let author = Author::parse(line.author.as_str())?;
                Ok(Record::Check(Check::new(name, status, rev, seconds, author, at)))
            },
            Kind::Chunk => {
                let chunk = Chunk::new(
                    line.title.as_str(),
                    optional(line.surface.as_str()),
                    line.before.as_str(),
                    line.after.as_str(),
                    line.decision.as_str(),
                    optional(line.rejected.as_str()),
                )?;
                if line.file.as_str().is_empty() {
                    return Ok(Record::Chunk(chunk));
                }
                let anchor = anchor_of(line)?;
                Ok(Record::Chunk(chunk.anchored(anchor)))
            },
            Kind::Work => {
                let rev = Sha::parse(line.rev.as_str())?;
                let task = Task::parse(line.task.as_str())?;
                let phase = Phase::parse(line.phase.as_str())?;
                let agent = Author::parse(line.author.as_str())?;
                let work = Work::new(rev, task, phase, agent, optional(line.body.as_str()), at)?;
                Ok(Record::Work(work))
            },
            Kind::Dispatch => {
                let rev = Sha::parse(line.rev.as_str())?;
                let author = Author::parse(line.author.as_str())?;
                Ok(Record::Dispatch(Dispatch::new(rev, author, at)))
            },
        }
    }
}

/// A text a record can carry as it is: not blank, and already trimmed.
pub open spec fn is_text(s: Seq<char>) -> bool {
    s.len() > 0 && trimmed(s) == s
}

/// A moment whose text has a four-digit year.
pub open spec fn writable_moment(at: i64) -> bool {
    first_writable() <= at <= last_writable()
}

/// An anchor a record can carry: a file and a span covering lines.
pub open spec fn writable_anchor(a: AnchorView) -> bool {
    is_text(a.file) && is_span(a.span.start as int, a.span.end as int)
}

/// An optional text a record can carry: absent, or a text.
pub open spec fn writable_option(o: Option<Seq<char>>) -> bool {
    match o {
        Some(s) => is_text(s),
        None => true,
    }
}

/// What every record the constructors make is: its texts trimmed and not
/// blank, its commits full names, its spans covering lines.
pub open spec fn record_sound(r: RecordView) -> bool {
    match r {
        RecordView::Comment(c) => is_text(c.id) && is_sha_text(c.revision) && writable_anchor(
            c.anchor,
        ) && is_text(c.body) && is_text(c.author),
        RecordView::Rationale(c) => is_text(c.id) && is_sha_text(c.revision) && writable_anchor(
            c.anchor,
        ) && is_text(c.body) && is_text(c.author),
        RecordView::Reply(x) => is_text(x.id) && is_text(x.target) && is_sha_text(x.revision)
            && is_text(x.body) && is_text(x.author),
        RecordView::Resolve(x) => is_text(x.id) && is_text(x.target) && is_text(x.author),
        RecordView::Check(c) => is_text(c.name) && is_sha_text(c.revision) && is_text(c.author),
        RecordView::Chunk(c) => chunk_refusal(
            c.title,
            c.surface,
            c.before,
            c.after,
            c.decision,
            c.rejected,
        ) is None && is_text(c.title) && is_text(c.before) && is_text(c.after) && is_text(
            c.decision,
        ) && writable_option(c.surface) && writable_option(c.rejected) && match c.anchor {
            Some(a) => writable_anchor(a),
            None => true,
        },
        RecordView::Work(w) => is_sha_text(w.revision) && is_text(w.agent) && writable_option(
            w.note,
        ) && note_refusal(w.note) is None,
        RecordView::Dispatch(d) => is_sha_text(d.revision) && is_text(d.author),
    }
}

/// Whether the moment a record carries has a four-digit year; a chunk
/// carries none.
pub open spec fn moment_writable(r: RecordView) -> bool {
    match r {
        RecordView::Comment(c) => writable_moment(c.at),
        RecordView::Rationale(c) => writable_moment(c.at),
        RecordView::Reply(x) => writable_moment(x.at),
        RecordView::Resolve(x) => writable_moment(x.at),
        RecordView::Check(c) => writable_moment(c.at),
        RecordView::Chunk(_) => true,
        RecordView::Work(w) => writable_moment(w.at),
        RecordView::Dispatch(d) => writable_moment(d.at),
    }
}

/// What the wire carries without loss: a sound record whose moment has a
/// four-digit year.
pub open spec fn record_writable(r: RecordView) -> bool {
    record_sound(r) && moment_writable(r)
}

proof fn lemma_anchor_reads_back(l: LineView, a: AnchorView)
    requires
        writable_anchor(a),
        l.file == a.file,
        l.side == side_word(a.span.side),
        l.start == a.span.start as i64,
        l.end == a.span.end as i64,
    ensures
        anchor_result(l) == Ok::<AnchorView, ErrorView>(a),
{
    crate::span::law_side_word_round_trip(a.span.side);
    reveal_strlit("old");
    reveal_strlit("new");
}

proof fn lemma_moment_reads_back(l: LineView, at: i64)
    requires
        writable_moment(at),
        l.at == timestamp_text(at as int),
        l.kind != kind_word(Kind::Chunk),
    ensures
        at_result(l) == Ok::<i64, ErrorView>(at),
{
    law_written_moment_reads_back(at as int);
}

#[verifier::spinoff_prover]
#[verifier::rlimit(30)]
proof fn lemma_note_reads_back(r: RecordView)
    requires
        record_writable(r),
        r is Comment || r is Rationale,
    ensures
        record_from_line(record_line(r)) == Ok::<RecordView, ErrorView>(r),
{
    reveal(record_from_line);
    let l = record_line(r);
    crate::record::lemma_kind_words_differ();
    match r {
        RecordView::Comment(c) => {
            lemma_moment_reads_back(l, c.at);
            lemma_anchor_reads_back(l, c.anchor);
            crate::record::law_kind_word_round_trip(Kind::Comment);
        },
        RecordView::Rationale(c) => {
            lemma_moment_reads_back(l, c.at);
            lemma_anchor_reads_back(l, c.anchor);
            crate::record::law_kind_word_round_trip(Kind::Rationale);
        },
        _ => {},
    }
}

#[verifier::spinoff_prover]
#[verifier::rlimit(30)]
proof fn lemma_reply_reads_back(r: RecordView)
    requires
        record_writable(r),
        r is Reply,
    ensures
        record_from_line(record_line(r)) == Ok::<RecordView, ErrorView>(r),
{
    reveal(record_from_line);
    let l = record_line(r);
    crate::record::lemma_kind_words_differ();
    if let RecordView::Reply(x) = r {
        lemma_moment_reads_back(l, x.at);
        crate::record::law_kind_word_round_trip(Kind::Reply);
    }
}

#[verifier::spinoff_prover]
#[verifier::rlimit(30)]
proof fn lemma_resolution_reads_back(r: RecordView)
    requires
        record_writable(r),
        r is Resolve,
    ensures
        record_from_line(record_line(r)) == Ok::<RecordView, ErrorView>(r),
{
    reveal(record_from_line);
    let l = record_line(r);
    crate::record::lemma_kind_words_differ();
    if let RecordView::Resolve(x) = r {
        lemma_moment_reads_back(l, x.at);
        crate::record::law_kind_word_round_trip(Kind::Resolve);
    }
}

#[verifier::spinoff_prover]
#[verifier::rlimit(30)]
proof fn lemma_check_reads_back(r: RecordView)
    requires
        record_writable(r),
        r is Check || r is Dispatch,
    ensures
        record_from_line(record_line(r)) == Ok::<RecordView, ErrorView>(r),
{
    reveal(record_from_line);
    let l = record_line(r);
    crate::record::lemma_kind_words_differ();
    match r {
        RecordView::Check(c) => {
            lemma_moment_reads_back(l, c.at);
            crate::record::law_kind_word_round_trip(Kind::Check);
            crate::check::law_status_word_round_trip(c.status);
        },
        RecordView::Dispatch(d) => {
            lemma_moment_reads_back(l, d.at);
            crate::record::law_kind_word_round_trip(Kind::Dispatch);
        },
        _ => {},
    }
}

#[verifier::spinoff_prover]
#[verifier::rlimit(30)]
proof fn lemma_chunk_reads_back(r: RecordView)
    requires
        record_writable(r),
        r is Chunk,
    ensures
        record_from_line(record_line(r)) == Ok::<RecordView, ErrorView>(r),
{
    reveal(record_from_line);
    let l = record_line(r);
    crate::record::law_kind_word_round_trip(Kind::Chunk);
    match r {
        RecordView::Chunk(c) => {
            match c.anchor {
                Some(a) => {
                    lemma_anchor_reads_back(l, a);
                },
                None => {},
            }
        },
        _ => {},
    }
}

#[verifier::spinoff_prover]
#[verifier::rlimit(30)]
proof fn lemma_work_reads_back(r: RecordView)
    requires
        record_writable(r),
        r is Work,
    ensures
        record_from_line(record_line(r)) == Ok::<RecordView, ErrorView>(r),
{
    reveal(record_from_line);
    let l = record_line(r);
    crate::record::lemma_kind_words_differ();
    crate::record::law_kind_word_round_trip(Kind::Work);
    match r {
        RecordView::Work(w) => {
            lemma_moment_reads_back(l, w.at);
            crate::work::law_task_word_round_trip(w.task);
            crate::work::law_phase_word_round_trip(w.phase);
        },
        _ => {},
    }
}

/// A record written to its line reads back as the same record: the wire
/// loses nothing of any record the constructors make whose moment has a
/// four-digit year.
pub proof fn law_record_reads_back(r: RecordView)
    requires
        record_writable(r),
    ensures
        record_from_line(record_line(r)) == Ok::<RecordView, ErrorView>(r),
{
    match r {
        RecordView::Comment(_) | RecordView::Rationale(_) => lemma_note_reads_back(r),
        RecordView::Reply(_) => lemma_reply_reads_back(r),
        RecordView::Resolve(_) => lemma_resolution_reads_back(r),
        RecordView::Check(_) | RecordView::Dispatch(_) => lemma_check_reads_back(r),
        RecordView::Chunk(_) => lemma_chunk_reads_back(r),
        RecordView::Work(_) => lemma_work_reads_back(r),
    }
}

} // verus!
