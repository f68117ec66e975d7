//! Where an annotation points: a side of the diff, a range of lines, a file.
//!
//! A span is inclusive at both ends and a single line is a span whose start
//! and end are equal, so there is one shape to read and one shape to store.

use vstd::prelude::*;

use crate::errors::Error;
use crate::identity::FilePath;
use crate::number::{decimal, push_decimal};
use crate::text::{copy_str, same_text, trimmed};

verus! {

/// Which column of a diff a span belongs to.
#[derive(Debug, Clone, Copy, PartialEq, Eq, PartialOrd, Ord, Hash)]
pub enum Side {
    /// The file as it was. A note on a deleted line is here.
    Old,
    /// The file as it is after the change.
    New,
}

/// The word the wire format uses for a side.
pub open spec fn side_word(side: Side) -> Seq<char> {
    match side {
        Side::Old => "old"@,
        Side::New => "new"@,
    }
}

impl Side {
    /// Read a side off the wire or a command line: `old` or `new`, exactly.
    pub fn parse(raw: &str) -> (r: Result<Side, Error>)
        ensures
            raw@ == side_word(Side::Old) ==> r == Ok::<Side, Error>(Side::Old),
            raw@ == side_word(Side::New) ==> r == Ok::<Side, Error>(Side::New),
            raw@ != side_word(Side::Old) && raw@ != side_word(Side::New) ==> (r matches Err(
                Error::UnknownSide(t),
            ) && t@ == raw@),
    {
        proof {
            lemma_side_words_differ();
        }
        if same_text(raw, "old") {
            Ok(Side::Old)
        } else if same_text(raw, "new") {
            Ok(Side::New)
        } else {
            Err(Error::UnknownSide(copy_str(raw)))
        }
    }

    /// The word the wire format uses.
    pub fn as_str(self) -> (s: &'static str)
        ensures
            s@ == side_word(self),
    {
        match self {
            Side::Old => "old",
            Side::New => "new",
        }
    }

    /// Whether two sides are the same column.
    pub fn same(self, other: Side) -> (b: bool)
        ensures
            b == (self == other),
    {
        match (self, other) {
            (Side::Old, Side::Old) | (Side::New, Side::New) => true,
            _ => false,
        }
    }
}

/// Reading a side's word gives the side back.
pub proof fn law_side_word_round_trip(side: Side)
    ensures
        side_word(side) == "old"@ <==> side == Side::Old,
        side_word(side) == "new"@ <==> side == Side::New,
{
    lemma_side_words_differ();
}

proof fn lemma_side_words_differ()
    ensures
        side_word(Side::Old) != side_word(Side::New),
{
    reveal_strlit("old");
    reveal_strlit("new");
    assert("old"@[0] != "new"@[0]);
}

/// A range of lines on one side of a diff, inclusive at both ends.
#[derive(Debug, Clone, Copy, PartialEq, Eq, Hash)]
pub struct Span {
    side: Side,
    start: u32,
    end: u32,
}

/// What a span is: a side and the first and last line it covers.
pub struct SpanView {
    pub side: Side,
    pub start: u32,
    pub end: u32,
}

impl View for Span {
    type V = SpanView;

    closed spec fn view(&self) -> SpanView {
        SpanView { side: self.side, start: self.start, end: self.end }
    }
}

/// Whether a range covers at least one line, starting at line one or later.
pub open spec fn is_span(start: int, end: int) -> bool {
    1 <= start && start <= end
}

impl Span {
    /// A span covers at least one line: it starts at one and ends no earlier.
    #[verifier::type_invariant]
    pub(crate) closed spec fn is_valid(self) -> bool {
        is_span(self.start as int, self.end as int)
    }

    /// What the invariant says of the span.
    pub(crate) proof fn lemma_valid(x: Span)
        requires
            x.is_valid(),
        ensures
            is_span(x@.start as int, x@.end as int),
    {
    }

    /// The only way to build one, so an empty range cannot exist: a range
    /// that starts before line one, or ends before it starts, is refused.
    pub fn new(side: Side, start: u32, end: u32) -> (r: Result<Span, Error>)
        ensures
            is_span(start as int, end as int) ==> (r matches Ok(s) && s@ == (SpanView {
                side,
                start,
                end,
            })),
            !is_span(start as int, end as int) ==> r == Err::<Span, Error>(
                Error::EmptySpan { start: start as i64, end: end as i64 },
            ),
    {
        if start < 1 || end < start {
            return Err(Error::EmptySpan { start: start as i64, end: end as i64 });
        }
        Ok(Span { side, start, end })
    }

    /// Which column of the diff the span is on.
    pub fn side(self) -> (s: Side)
        ensures
            s == self@.side,
    {
        self.side
    }

    /// The first line the span covers.
    pub fn start(self) -> (n: u32)
        ensures
            n == self@.start,
    {
        self.start
    }

    /// The last line the span covers.
    pub fn end(self) -> (n: u32)
        ensures
            n == self@.end,
    {
        self.end
    }

    /// Every span covers at least one line.
    pub fn valid(self) -> (b: bool)
        ensures
            b == is_span(self@.start as int, self@.end as int),
    {
        self.start >= 1 && self.end >= self.start
    }

    /// How many lines the span covers.
    pub fn lines(self) -> (n: u32)
        requires
            is_span(self@.start as int, self@.end as int),
        ensures
            n == self@.end - self@.start + 1,
            n >= 1,
    {
        self.end - self.start + 1
    }
}

/// An anchor the way a brief writes it, `internal/app/land.go:42-47 new`:
/// the end is left out when the span is one line.
pub open spec fn anchor_text(a: AnchorView) -> Seq<char> {
    a.file + ":"@ + decimal(a.span.start as nat) + (if a.span.end > a.span.start {
        "-"@ + decimal(a.span.end as nat)
    } else {
        Seq::empty()
    }) + " "@ + side_word(a.span.side)
}

/// A file and the lines in it that an annotation is about.
#[derive(Debug, PartialEq, Eq, Hash)]
pub struct Anchor {
    file: FilePath,
    span: Span,
}

/// What an anchor is: a path and a span.
pub struct AnchorView {
    pub file: Seq<char>,
    pub span: SpanView,
}

impl View for Anchor {
    type V = AnchorView;

    closed spec fn view(&self) -> AnchorView {
        AnchorView { file: self.file@, span: self.span@ }
    }
}

impl Clone for Anchor {
    fn clone(&self) -> (r: Anchor)
        ensures
            r@ == self@,
    {
        self.duplicate()
    }
}

/// An anchor points at a file that is named and at lines that exist.
pub open spec fn anchor_valid(a: AnchorView) -> bool {
    a.file.len() > 0 && trimmed(a.file) == a.file && is_span(a.span.start as int, a.span.end as int)
}

impl Anchor {
    /// Every anchor is built from a path and a span that were read.
    #[verifier::type_invariant]
    pub(crate) closed spec fn is_valid(self) -> bool {
        anchor_valid(self@)
    }

    /// What the invariant says of the anchor.
    pub(crate) proof fn lemma_valid(x: Anchor)
        requires
            x.is_valid(),
        ensures
            anchor_valid(x@),
    {
    }

    /// Point at a range of lines of a file.
    pub fn new(file: FilePath, span: Span) -> (a: Anchor)
        ensures
            a@ == (AnchorView { file: file@, span: span@ }),
    {
        proof {
            use_type_invariant(&file);
            use_type_invariant(&span);
            FilePath::lemma_valid(file);
            Span::lemma_valid(span);
        }
        Anchor { file, span }
    }

    /// The file.
    pub fn file(&self) -> (f: &FilePath)
        ensures
            f@ == self@.file,
    {
        &self.file
    }

    /// The lines.
    pub fn span(&self) -> (s: Span)
        ensures
            s@ == self@.span,
    {
        self.span
    }

    /// The anchor the way a brief writes it.
    pub fn to_string(&self) -> (s: String)
        ensures
            s@ == anchor_text(self@),
    {
        let mut s = copy_str(self.file.as_str());
        s.append(":");
        push_decimal(&mut s, self.span.start() as u64);
        if self.span.end() > self.span.start() {
            s.append("-");
            push_decimal(&mut s, self.span.end() as u64);
        }
        s.append(" ");
        s.append(self.span.side().as_str());
        assert(s@ =~= anchor_text(self@));
        s
    }

    /// Whether two anchors point at the same lines of the same file.
    pub fn same(&self, other: &Anchor) -> (b: bool)
        ensures
            b == (self@ == other@),
    {
        same_text(self.file.as_str(), other.file.as_str()) && self.span.side().same(
            other.span.side(),
        ) && self.span.start() == other.span.start() && self.span.end() == other.span.end()
    }

    /// A copy of the anchor.
    pub fn duplicate(&self) -> (a: Anchor)
        ensures
            a@ == self@,
    {
        proof {
            use_type_invariant(self);
        }
        Anchor { file: self.file.duplicate(), span: self.span }
    }
}

} // verus!
