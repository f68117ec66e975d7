//! A reviewable decision, and the ceilings that keep it readable.
//!
//! A chunk is the thing a person can accept or reject on its own: a file may
//! span chunks and a chunk may span files, because the unit is the decision
//! and not the path. A field that must fit refuses to hold a paragraph,
//! whichever agent or harness wrote it.

use vstd::prelude::*;

use crate::errors::Error;
use crate::record::RecordView;
use crate::span::{Anchor, AnchorView};
use crate::wire::annotation::record_writable;
use crate::text::{chars_of, contains_char, has_char, opt_chars, same_text, trim, trimmed};

verus! {

/// A field with a ceiling on it.
#[derive(Debug, Clone, Copy, PartialEq, Eq, Hash)]
pub enum Field {
    /// What the decision is called.
    Title,
    /// What a person touches.
    Surface,
    /// How it worked.
    Before,
    /// How it works now.
    After,
    /// The call that was made.
    Decision,
    /// The alternative not taken.
    Rejected,
    /// The line an agent leaves on a work record.
    Note,
}

/// The name a message uses for a field.
pub open spec fn field_word(field: Field) -> Seq<char> {
    match field {
        Field::Title => "title"@,
        Field::Surface => "surface"@,
        Field::Before => "before"@,
        Field::After => "after"@,
        Field::Decision => "decision"@,
        Field::Rejected => "rejected"@,
        Field::Note => "note"@,
    }
}

/// How many characters a field may carry.
pub open spec fn ceiling(field: Field) -> usize {
    match field {
        Field::Title => 80,
        Field::Surface => 60,
        Field::Decision => 200,
        _ => 140,
    }
}

impl Field {
    /// The name the message uses.
    pub fn as_str(self) -> (s: &'static str)
        ensures
            s@ == field_word(self),
    {
        match self {
            Field::Title => "title",
            Field::Surface => "surface",
            Field::Before => "before",
            Field::After => "after",
            Field::Decision => "decision",
            Field::Rejected => "rejected",
            Field::Note => "note",
        }
    }

    /// How many characters the field may carry.
    pub fn ceiling(self) -> (n: usize)
        ensures
            n == ceiling(self),
    {
        match self {
            Field::Title => 80,
            Field::Surface => 60,
            Field::Decision => 200,
            Field::Before | Field::After | Field::Rejected | Field::Note => 140,
        }
    }
}

/// Why a capped field is refused, or nothing when it fits: more than one line,
/// or more characters than its ceiling once trimmed.
pub open spec fn line_refusal(field: Field, value: Seq<char>) -> Option<Error> {
    let t = trimmed(value);
    if has_char(t, '\n') || has_char(t, '\r') {
        Some(Error::NotOneLine(field))
    } else if t.len() > ceiling(field) {
        Some(Error::TooLong { field, chars: t.len() as usize, ceiling: ceiling(field) })
    } else {
        None
    }
}

/// Trim a capped field and refuse it if it is more than one line, or longer
/// than its ceiling. This is where prolixity dies.
pub fn one_line(field: Field, value: &str) -> (r: Result<String, Error>)
    ensures
        line_refusal(field, value@) matches Some(e) ==> r == Err::<String, Error>(e),
        line_refusal(field, value@) is None ==> (r matches Ok(s) && s@ == trimmed(value@)),
{
    let t = trim(value);
    let v = chars_of(t.as_str());
    if contains_char(v.as_slice(), '\n') || contains_char(v.as_slice(), '\r') {
        return Err(Error::NotOneLine(field));
    }
    let chars = v.len();
    if chars > field.ceiling() {
        return Err(Error::TooLong { field, chars, ceiling: field.ceiling() });
    }
    Ok(t)
}

/// An optional capped field: blank and absent are the same thing.
pub open spec fn optional_value(value: Option<Seq<char>>) -> Option<Seq<char>> {
    match value {
        None => None,
        Some(raw) => if trimmed(raw).len() == 0 {
            None
        } else {
            Some(trimmed(raw))
        },
    }
}

/// Why an optional capped field is refused, or nothing when it fits or is absent.
pub open spec fn optional_refusal(field: Field, value: Option<Seq<char>>) -> Option<Error> {
    match value {
        None => None,
        Some(raw) => line_refusal(field, raw),
    }
}

fn optional(field: Field, value: Option<&str>) -> (r: Result<Option<String>, Error>)
    ensures
        optional_refusal(field, opt_chars(value)) matches Some(e) ==> r == Err::<
            Option<String>,
            Error,
        >(e),
        optional_refusal(field, opt_chars(value)) is None ==> (r matches Ok(o) && opt_string_view(
            o,
        ) == optional_value(opt_chars(value))),
{
    match value {
        None => Ok(None),
        Some(raw) => {
            let t = one_line(field, raw)?;
            if t.as_str().is_empty() {
                Ok(None)
            } else {
                Ok(Some(t))
            }
        },
    }
}

/// The characters of an optional string.
pub open spec fn opt_string_view(o: Option<String>) -> Option<Seq<char>> {
    match o {
        Some(s) => Some(s@),
        None => None,
    }
}

/// Why a chunk is refused, or nothing when it can be built: the first field
/// over its ceiling or carrying a newline, in the order title, surface,
/// before, after, decision, rejected; then a missing title, a missing before
/// or after, a missing decision.
pub open spec fn chunk_refusal(
    title: Seq<char>,
    surface: Option<Seq<char>>,
    before: Seq<char>,
    after: Seq<char>,
    decision: Seq<char>,
    rejected: Option<Seq<char>>,
) -> Option<Error> {
    if line_refusal(Field::Title, title) is Some {
        line_refusal(Field::Title, title)
    } else if optional_refusal(Field::Surface, surface) is Some {
        optional_refusal(Field::Surface, surface)
    } else if line_refusal(Field::Before, before) is Some {
        line_refusal(Field::Before, before)
    } else if line_refusal(Field::After, after) is Some {
        line_refusal(Field::After, after)
    } else if line_refusal(Field::Decision, decision) is Some {
        line_refusal(Field::Decision, decision)
    } else if optional_refusal(Field::Rejected, rejected) is Some {
        optional_refusal(Field::Rejected, rejected)
    } else if trimmed(title).len() == 0 {
        Some(Error::NoTitle)
    } else if trimmed(before).len() == 0 || trimmed(after).len() == 0 {
        Some(Error::NoBeforeAfter)
    } else if trimmed(decision).len() == 0 {
        Some(Error::NoDecision)
    } else {
        None
    }
}

/// One reviewable decision, optionally pointing at the lines that carry it.
#[derive(Debug, PartialEq, Eq)]
pub struct Chunk {
    title: String,
    surface: Option<String>,
    before: String,
    after: String,
    decision: String,
    rejected: Option<String>,
    anchor: Option<Anchor>,
}

/// What a chunk says.
pub struct ChunkView {
    pub title: Seq<char>,
    pub surface: Option<Seq<char>>,
    pub before: Seq<char>,
    pub after: Seq<char>,
    pub decision: Seq<char>,
    pub rejected: Option<Seq<char>>,
    pub anchor: Option<AnchorView>,
}

/// The view of an optional anchor.
pub open spec fn opt_anchor_view(o: Option<Anchor>) -> Option<AnchorView> {
    match o {
        Some(a) => Some(a@),
        None => None,
    }
}

impl View for Chunk {
    type V = ChunkView;

    closed spec fn view(&self) -> ChunkView {
        ChunkView {
            title: self.title@,
            surface: opt_string_view(self.surface),
            before: self.before@,
            after: self.after@,
            decision: self.decision@,
            rejected: opt_string_view(self.rejected),
            anchor: opt_anchor_view(self.anchor),
        }
    }
}

/// Whether two optional texts are both absent or both the same text.
pub(crate) fn same_opt_text(a: &Option<String>, b: &Option<String>) -> (r: bool)
    ensures
        r == (opt_string_view(*a) == opt_string_view(*b)),
{
    match (a, b) {
        (Some(x), Some(y)) => same_text(x.as_str(), y.as_str()),
        (None, None) => true,
        _ => false,
    }
}

fn copy_opt(o: &Option<String>) -> (r: Option<String>)
    ensures
        opt_string_view(r) == opt_string_view(*o),
{
    match o {
        Some(s) => Some(s.clone()),
        None => None,
    }
}

fn opt_str(o: &Option<String>) -> (r: Option<&str>)
    ensures
        opt_chars(r) == opt_string_view(*o),
{
    match o {
        Some(s) => Some(s.as_str()),
        None => None,
    }
}

impl Clone for Chunk {
    fn clone(&self) -> (r: Chunk)
        ensures
            r@ == self@,
    {
        self.duplicate()
    }
}

impl Chunk {
    /// Every value is built by the constructors here, which validate it.
    #[verifier::type_invariant]
    pub(crate) closed spec fn is_sound(self) -> bool {
        crate::wire::annotation::record_sound(crate::record::RecordView::Chunk(self@))
    }

    /// What the invariant says of the record.
    pub(crate) proof fn lemma_sound(x: Chunk)
        requires
            x.is_sound(),
        ensures
            crate::wire::annotation::record_sound(crate::record::RecordView::Chunk(x@)),
    {
    }

    /// The only way to build one. Every field is a single line and every line
    /// has a ceiling; a missing title, before, after or decision is refused.
    pub fn new(
        title: &str,
        surface: Option<&str>,
        before: &str,
        after: &str,
        decision: &str,
        rejected: Option<&str>,
    ) -> (r: Result<Chunk, Error>)
        ensures
            chunk_refusal(
                title@,
                opt_chars(surface),
                before@,
                after@,
                decision@,
                opt_chars(rejected),
            ) matches Some(e) ==> r == Err::<Chunk, Error>(e),
            chunk_refusal(
                title@,
                opt_chars(surface),
                before@,
                after@,
                decision@,
                opt_chars(rejected),
            ) is None ==> (r matches Ok(c) && c@ == (ChunkView {
                title: trimmed(title@),
                surface: optional_value(opt_chars(surface)),
                before: trimmed(before@),
                after: trimmed(after@),
                decision: trimmed(decision@),
                rejected: optional_value(opt_chars(rejected)),
                anchor: None,
            })),
            r matches Ok(c) ==> record_writable(RecordView::Chunk(c@)),
    {
        proof {
            crate::text::lemma_trimmed_twice(title@);
            crate::text::lemma_trimmed_twice(before@);
            crate::text::lemma_trimmed_twice(after@);
            crate::text::lemma_trimmed_twice(decision@);
            if let Some(s) = surface {
                crate::text::lemma_trimmed_twice(s@);
            }
            if let Some(s) = rejected {
                crate::text::lemma_trimmed_twice(s@);
            }
        }
        let title = one_line(Field::Title, title)?;
        let surface = optional(Field::Surface, surface)?;
        let before = one_line(Field::Before, before)?;
        let after = one_line(Field::After, after)?;
        let decision = one_line(Field::Decision, decision)?;
        let rejected = optional(Field::Rejected, rejected)?;
        if title.as_str().is_empty() {
            return Err(Error::NoTitle);
        }
        if before.as_str().is_empty() || after.as_str().is_empty() {
            return Err(Error::NoBeforeAfter);
        }
        if decision.as_str().is_empty() {
            return Err(Error::NoDecision);
        }
        Ok(Chunk { title, surface, before, after, decision, rejected, anchor: None })
    }

    /// Whether two chunks say the same thing about the same lines.
    pub fn same(&self, other: &Chunk) -> (b: bool)
        ensures
            b == (self@ == other@),
    {
        let anchors = match (&self.anchor, &other.anchor) {
            (Some(a), Some(b)) => a.same(b),
            (None, None) => true,
            _ => false,
        };
        same_text(self.title.as_str(), other.title.as_str()) && same_opt_text(
            &self.surface,
            &other.surface,
        ) && same_text(self.before.as_str(), other.before.as_str()) && same_text(
            self.after.as_str(),
            other.after.as_str(),
        ) && same_text(self.decision.as_str(), other.decision.as_str()) && same_opt_text(
            &self.rejected,
            &other.rejected,
        ) && anchors
    }

    /// Point the chunk at the lines that carry it, so a page can take the
    /// reader there instead of asking them to find it.
    pub fn anchored(self, anchor: Anchor) -> (c: Chunk)
        ensures
            c@ == (ChunkView { anchor: Some(anchor@), ..self@ }),
            record_writable(RecordView::Chunk(self@)) ==> record_writable(RecordView::Chunk(c@)),
    {
        proof {
            use_type_invariant(&self);
            use_type_invariant(&anchor);
            Anchor::lemma_valid(anchor);
        }
        Chunk { anchor: Some(anchor), ..self }
    }

    /// What the decision is called.
    pub fn title(&self) -> (s: &str)
        ensures
            s@ == self@.title,
    {
        self.title.as_str()
    }

    /// What a person touches, when the chunk says.
    pub fn surface(&self) -> (s: Option<&str>)
        ensures
            opt_chars(s) == self@.surface,
    {
        opt_str(&self.surface)
    }

    /// How it worked, in one line, in product language.
    pub fn before(&self) -> (s: &str)
        ensures
            s@ == self@.before,
    {
        self.before.as_str()
    }

    /// How it works now, in one line.
    pub fn after(&self) -> (s: &str)
        ensures
            s@ == self@.after,
    {
        self.after.as_str()
    }

    /// The call that was made.
    pub fn decision(&self) -> (s: &str)
        ensures
            s@ == self@.decision,
    {
        self.decision.as_str()
    }

    /// The alternative that was not taken, when there was one.
    pub fn rejected(&self) -> (s: Option<&str>)
        ensures
            opt_chars(s) == self@.rejected,
    {
        opt_str(&self.rejected)
    }

    /// Where the chunk points, when it points anywhere.
    pub fn anchor(&self) -> (a: Option<&Anchor>)
        ensures
            match a {
                Some(x) => self@.anchor == Some(x@),
                None => self@.anchor is None,
            },
    {
        match &self.anchor {
            Some(a) => Some(a),
            None => None,
        }
    }

    /// A copy of the chunk.
    pub fn duplicate(&self) -> (c: Chunk)
        ensures
            c@ == self@,
    {
        proof {
            use_type_invariant(self);
        }
        Chunk {
            title: self.title.clone(),
            surface: copy_opt(&self.surface),
            before: self.before.clone(),
            after: self.after.clone(),
            decision: self.decision.clone(),
            rejected: copy_opt(&self.rejected),
            anchor: match &self.anchor {
                Some(a) => Some(a.duplicate()),
                None => None,
            },
        }
    }
}

} // verus!
