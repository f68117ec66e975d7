//! The reasoning, attached to a proposal: the decisions it carries and the
//! lines the author wants to explain before anybody asks.
//!
//! A description arrives as JSON because the writer is usually an agent; the
//! caller reads it into the inputs below, and every field has a ceiling in
//! the core, so a description cannot ramble whichever agent produced it.

use vstd::prelude::*;

use crate::chunk::{chunk_refusal, optional_value, Chunk, ChunkView};
use crate::errors::ErrorView as CoreErrorView;
use crate::identity::{nonblank_result, Author, FilePath, Sha};
use crate::rationale::{Rationale, RationaleView};
use crate::record::Kind;
use crate::span::{is_span, Anchor, AnchorView, Side, Span, SpanView};
use crate::text::{trim, trimmed};
use crate::timestamp::Timestamp;
use crate::usecase::error::{Error, ErrorView};
use crate::wire::annotation::side_result;
use crate::wire::line::note_id_of;

verus! {

/// One reviewable decision, as it arrives. Every field may be left out: a
/// blank text and a zero line are what an absent field reads as.
#[derive(Debug, Clone, Default, PartialEq, Eq)]
pub struct ChunkInput {
    pub title: String,
    pub surface: String,
    pub before: String,
    pub after: String,
    pub decision: String,
    pub rejected: String,
    pub file: String,
    pub side: String,
    pub start: u32,
    pub end: u32,
}

/// The author explaining a few lines, as it arrives.
#[derive(Debug, Clone, Default, PartialEq, Eq)]
pub struct RationaleInput {
    pub file: String,
    pub side: String,
    pub start: u32,
    pub end: u32,
    pub body: String,
}

/// The shape a description takes, with every field and its ceiling.
pub const TEMPLATE: &'static str = r#"{
  "chunks": [
    {
      "title": "what this decides, at most 80 characters",
      "surface": "where a person meets it, at most 60",
      "before": "how it was, at most 140",
      "after": "how it is now, at most 140",
      "decision": "what was chosen and why, at most 200",
      "rejected": "the alternative not taken, at most 140",
      "file": "path/to/file.rs",
      "side": "new",
      "start": 12,
      "end": 14
    }
  ],
  "rationale": [
    {
      "file": "path/to/file.rs",
      "side": "new",
      "start": 40,
      "end": 42,
      "body": "why these lines are the way they are, at most 140"
    }
  ]
}

Every field is one line. surface, rejected, file, side, start and end may be
left out: a chunk with no file is about the whole proposal, a missing side is
the new one, and a missing end is the start. The ceilings count characters,
not bytes, and they are enforced, so a description is only as long as the
fields allow and not as long as the good intentions of whoever wrote it.
"#;

/// The shape a description takes, for somebody about to write one: the
/// JSON an author submits, then what each field may hold.
pub fn template() -> (t: &'static str)
    ensures
        t@ == TEMPLATE@,
{
    TEMPLATE
}

/// A core refusal, as a use case answers it.
pub open spec fn reviewed<T>(r: Result<T, CoreErrorView>) -> Result<T, ErrorView> {
    match r {
        Ok(x) => Ok(x),
        Err(e) => Err(ErrorView::Review(e)),
    }
}

/// A field an author may leave out entirely: absent when blank, else as
/// given.
pub open spec fn present_text(value: Seq<char>) -> Option<Seq<char>> {
    if trimmed(value).len() == 0 {
        None
    } else {
        Some(value)
    }
}

/// Where a description points, filling in what the author left out: the new
/// side, and a single line. The side is read first, then the file, then the
/// span.
pub open spec fn description_anchor(file: Seq<char>, side: Seq<char>, start: u32, end: u32) -> Result<
    AnchorView,
    CoreErrorView,
> {
    let side = if trimmed(side).len() == 0 {
        Ok(Side::New)
    } else {
        side_result(side)
    };
    let end = if end == 0 {
        start
    } else {
        end
    };
    match side {
        Err(e) => Err(e),
        Ok(s) => match nonblank_result(file, CoreErrorView::NoFile) {
            Err(e) => Err(e),
            Ok(f) => if is_span(start as int, end as int) {
                Ok(AnchorView { file: f, span: SpanView { side: s, start, end } })
            } else {
                Err(CoreErrorView::EmptySpan { start: start as i64, end: end as i64 })
            },
        },
    }
}

/// One chunk, anchored when it names a file.
pub open spec fn description_chunk(input: ChunkInput) -> Result<ChunkView, CoreErrorView> {
    let surface = present_text(input.surface@);
    let rejected = present_text(input.rejected@);
    match chunk_refusal(
        input.title@,
        surface,
        input.before@,
        input.after@,
        input.decision@,
        rejected,
    ) {
        Some(e) => Err(e@),
        None => {
            let bare = ChunkView {
                title: trimmed(input.title@),
                surface: optional_value(surface),
                before: trimmed(input.before@),
                after: trimmed(input.after@),
                decision: trimmed(input.decision@),
                rejected: optional_value(rejected),
                anchor: None,
            };
            if trimmed(input.file@).len() == 0 {
                Ok(bare)
            } else {
                match description_anchor(input.file@, input.side@, input.start, input.end) {
                    Err(e) => Err(e),
                    Ok(a) => Ok(ChunkView { anchor: Some(a), ..bare }),
                }
            }
        },
    }
}

/// The explanation a description gives, on the head revision.
pub open spec fn description_rationale(
    input: RationaleInput,
    head: Seq<char>,
    author: Seq<char>,
    now: i64,
) -> Result<RationaleView, CoreErrorView> {
    match description_anchor(input.file@, input.side@, input.start, input.end) {
        Err(e) => Err(e),
        Ok(a) => if trimmed(input.body@).len() == 0 {
            Err(CoreErrorView::NoBody)
        } else {
            Ok(
                RationaleView {
                    id: note_id_of(Kind::Rationale, head, a, trimmed(input.body@), author, now),
                    revision: head,
                    anchor: a,
                    body: trimmed(input.body@),
                    author,
                    at: now,
                },
            )
        },
    }
}

/// A field an author may leave out entirely.
pub fn optional(value: &str) -> (r: Option<&str>)
    ensures
        match r {
            Some(s) => present_text(value@) == Some(s@),
            None => present_text(value@) is None,
        },
{
    let t = trim(value);
    if t.as_str().is_empty() {
        None
    } else {
        Some(value)
    }
}

/// Where a description points, filling in what the author left out: the new
/// side, and a single line.
pub fn anchor(file: &str, side: &str, start: u32, end: u32) -> (r: Result<Anchor, Error>)
    ensures
        match r {
            Ok(a) => description_anchor(file@, side@, start, end) == Ok::<AnchorView, CoreErrorView>(
                a@,
            ),
            Err(e) => reviewed(description_anchor(file@, side@, start, end)) == Err::<
                AnchorView,
                ErrorView,
            >(e@),
        },
{
    let blank = trim(side);
    let side = if blank.as_str().is_empty() {
        Side::New
    } else {
        match Side::parse(side) {
            Ok(s) => s,
            Err(e) => {
                return Err(Error::Review(e));
            },
        }
    };
    let end = if end == 0 {
        start
    } else {
        end
    };
    let file = match FilePath::parse(file) {
        Ok(f) => f,
        Err(e) => {
            return Err(Error::Review(e));
        },
    };
    let span = match Span::new(side, start, end) {
        Ok(s) => s,
        Err(e) => {
            return Err(Error::Review(e));
        },
    };
    Ok(Anchor::new(file, span))
}

/// One chunk, anchored when it says where it is.
pub fn chunk(input: &ChunkInput) -> (r: Result<Chunk, Error>)
    ensures
        match r {
            Ok(c) => description_chunk(*input) == Ok::<ChunkView, CoreErrorView>(c@),
            Err(e) => reviewed(description_chunk(*input)) == Err::<ChunkView, ErrorView>(e@),
        },
{
    let chunk = match Chunk::new(
        input.title.as_str(),
        optional(input.surface.as_str()),
        input.before.as_str(),
        input.after.as_str(),
        input.decision.as_str(),
        optional(input.rejected.as_str()),
    ) {
        Ok(c) => c,
        Err(e) => {
            return Err(Error::Review(e));
        },
    };
    let file = trim(input.file.as_str());
    if file.as_str().is_empty() {
        return Ok(chunk);
    }
    let anchor = anchor(input.file.as_str(), input.side.as_str(), input.start, input.end)?;
    Ok(chunk.anchored(anchor))
}

/// The author's explanation of a few lines of the head revision.
pub fn rationale(input: &RationaleInput, head: &Sha, author: &Author, now: Timestamp) -> (r:
    Result<Rationale, Error>)
    ensures
        match r {
            Ok(x) => description_rationale(*input, head@, author@, now@) == Ok::<
                RationaleView,
                CoreErrorView,
            >(x@),
            Err(e) => reviewed(description_rationale(*input, head@, author@, now@)) == Err::<
                RationaleView,
                ErrorView,
            >(e@),
        },
{
    let anchor = anchor(input.file.as_str(), input.side.as_str(), input.start, input.end)?;
    match Rationale::new(head.duplicate(), anchor, input.body.as_str(), author.duplicate(), now) {
        Ok(x) => Ok(x),
        Err(e) => Err(Error::Review(e)),
    }
}

} // verus!
