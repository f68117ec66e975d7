//! A unified diff parsed into lines an annotation can point at.
//!
//! No git, no I/O, only text. `git diff` produces the text, this module turns
//! it into files, hunks and numbered lines so a note can say "new side, line
//! 12 of README.md" and the page can find that exact line again.

use vstd::prelude::*;

use crate::number::{all_digits, decimal, digit_value, digits_value, is_digit, lemma_decimal_digits};
use crate::text::{chars_of, copy_str, is_space, is_space_char, same_text, string_of};

verus! {

/// Which side of the diff a line number counts on.
#[derive(Debug, Clone, Copy, PartialEq, Eq, Structural, Hash)]
pub enum Side {
    /// The file as it was before the change.
    Old,
    /// The file as it is after the change.
    New,
}

/// What a line in a hunk does.
#[derive(Debug, Clone, Copy, PartialEq, Eq, Structural)]
pub enum LineKind {
    /// Present on both sides, unchanged.
    Context,
    /// Present only on the new side.
    Added,
    /// Present only on the old side.
    Removed,
}

/// One line of a hunk, numbered on the sides it exists on.
#[derive(Debug, Clone, PartialEq, Eq)]
pub struct Line {
    kind: LineKind,
    old: Option<u32>,
    new: Option<u32>,
    text: String,
}

/// What a line of a hunk is.
pub struct LineView {
    pub kind: LineKind,
    pub old: Option<u32>,
    pub new: Option<u32>,
    pub text: Seq<char>,
}

impl View for Line {
    type V = LineView;

    closed spec fn view(&self) -> LineView {
        LineView { kind: self.kind, old: self.old, new: self.new, text: self.text@ }
    }
}

/// The number a line carries on a side, if it exists there.
pub open spec fn number_on(l: LineView, side: Side) -> Option<u32> {
    match side {
        Side::Old => l.old,
        Side::New => l.new,
    }
}

impl Line {
    /// What the line does.
    pub fn kind(&self) -> (k: LineKind)
        ensures
            k == self@.kind,
    {
        self.kind
    }

    /// The line number on the old side, if the line exists there.
    pub fn old_number(&self) -> (n: Option<u32>)
        ensures
            n == self@.old,
    {
        self.old
    }

    /// The line number on the new side, if the line exists there.
    pub fn new_number(&self) -> (n: Option<u32>)
        ensures
            n == self@.new,
    {
        self.new
    }

    /// The line number on the given side, if the line exists there.
    pub fn number(&self, side: Side) -> (n: Option<u32>)
        ensures
            n == number_on(self@, side),
    {
        match side {
            Side::Old => self.old,
            Side::New => self.new,
        }
    }

    /// The text of the line without the leading marker and trailing newline.
    pub fn text(&self) -> (s: &str)
        ensures
            s@ == self@.text,
    {
        self.text.as_str()
    }
}

/// A run of lines introduced by an `@@` header.
#[derive(Debug, Clone, PartialEq, Eq)]
pub struct Hunk {
    header: String,
    lines: Vec<Line>,
}

/// What a hunk is: its header and its lines.
pub struct HunkView {
    pub header: Seq<char>,
    pub lines: Seq<LineView>,
}

impl View for Hunk {
    type V = HunkView;

    closed spec fn view(&self) -> HunkView {
        HunkView { header: self.header@, lines: self.lines@.map_values(|l: Line| l@) }
    }
}

impl Hunk {
    /// The `@@ -a,b +c,d @@ section` line, verbatim.
    pub fn header(&self) -> (s: &str)
        ensures
            s@ == self@.header,
    {
        self.header.as_str()
    }

    /// The lines of the hunk, in order.
    pub fn lines(&self) -> (s: &[Line])
        ensures
            s@.map_values(|l: Line| l@) == self@.lines,
    {
        self.lines.as_slice()
    }
}

/// How a file came to be in the diff.
#[derive(Debug, Clone, PartialEq, Eq)]
pub enum Change {
    /// Existed before and after, under the same name.
    Modified,
    /// Did not exist before.
    Added,
    /// Does not exist after.
    Deleted,
    /// Moved from the old path to the new one.
    Renamed {
        /// Where it was.
        from: String,
    },
}

/// How a file came to be in the diff, every text as its characters.
pub enum ChangeView {
    Modified,
    Added,
    Deleted,
    Renamed(Seq<char>),
}

impl View for Change {
    type V = ChangeView;

    open spec fn view(&self) -> ChangeView {
        match self {
            Change::Modified => ChangeView::Modified,
            Change::Added => ChangeView::Added,
            Change::Deleted => ChangeView::Deleted,
            Change::Renamed { from } => ChangeView::Renamed(from@),
        }
    }
}

/// One file's part of the diff.
#[derive(Debug, Clone, PartialEq, Eq)]
pub struct FileDiff {
    path: String,
    change: Change,
    binary: bool,
    hunks: Vec<Hunk>,
}

/// What one file's part of the diff is.
pub struct FileDiffView {
    pub path: Seq<char>,
    pub change: ChangeView,
    pub binary: bool,
    pub hunks: Seq<HunkView>,
}

impl View for FileDiff {
    type V = FileDiffView;

    closed spec fn view(&self) -> FileDiffView {
        FileDiffView {
            path: self.path@,
            change: self.change@,
            binary: self.binary,
            hunks: self.hunks@.map_values(|h: Hunk| h@),
        }
    }
}

/// Every line of every hunk, in order.
pub open spec fn all_lines(hunks: Seq<HunkView>) -> Seq<LineView>
    decreases hunks.len(),
{
    if hunks.len() == 0 {
        Seq::empty()
    } else {
        all_lines(hunks.drop_last()) + hunks.last().lines
    }
}

/// How many of the lines do that.
pub open spec fn count_kind(lines: Seq<LineView>, kind: LineKind) -> nat
    decreases lines.len(),
{
    if lines.len() == 0 {
        0
    } else {
        count_kind(lines.drop_last(), kind) + (if lines.last().kind == kind {
            1nat
        } else {
            0nat
        })
    }
}

/// Whether the line at `i` carries that number on that side, and no line
/// before it does.
pub open spec fn first_numbered(lines: Seq<LineView>, side: Side, number: u32, i: int) -> bool {
    &&& 0 <= i < lines.len()
    &&& number_on(lines[i], side) == Some(number)
    &&& forall|j: int| 0 <= j < i ==> number_on(#[trigger] lines[j], side) != Some(number)
}

/// The views of borrowed lines.
pub open spec fn line_views(v: Seq<&Line>) -> Seq<LineView> {
    v.map_values(|l: &Line| l@)
}

fn count_of(lines: &Vec<&Line>, kind: LineKind) -> (n: usize)
    ensures
        n == count_kind(line_views(lines@), kind),
{
    let ghost views = line_views(lines@);
    let mut n: usize = 0;
    let mut i: usize = 0;
    while i < lines.len()
        invariant
            i <= lines@.len(),
            views == line_views(lines@),
            n <= i,
            n == count_kind(views.take(i as int), kind),
        decreases lines.len() - i,
    {
        assert(views.take(i + 1).drop_last() =~= views.take(i as int));
        if lines[i].kind == kind {
            n = n + 1;
        }
        i = i + 1;
    }
    assert(views.take(lines@.len() as int) =~= views);
    n
}

fn push_lines<'a>(out: &mut Vec<&'a Line>, hunks: &'a [Hunk])
    ensures
        line_views(final(out)@) == line_views(old(out)@) + all_lines(
            hunks@.map_values(|h: Hunk| h@),
        ),
{
    let ghost start = line_views(out@);
    let ghost hv = hunks@.map_values(|h: Hunk| h@);
    let mut i: usize = 0;
    while i < hunks.len()
        invariant
            i <= hunks@.len(),
            hv == hunks@.map_values(|h: Hunk| h@),
            hv.len() == hunks@.len(),
            line_views(out@) == start + all_lines(hv.take(i as int)),
        decreases hunks.len() - i,
    {
        let lines = hunks[i].lines.as_slice();
        let ghost before = line_views(out@);
        let mut j: usize = 0;
        while j < lines.len()
            invariant
                j <= lines@.len(),
                i < hv.len(),
                lines@.map_values(|l: Line| l@) == hv[i as int].lines,
                line_views(out@) == before + hv[i as int].lines.take(j as int),
            decreases lines.len() - j,
        {
            let ghost prev = out@;
            out.push(&lines[j]);
            assert(lines@.map_values(|l: Line| l@)[j as int] == lines@[j as int]@);
            assert(out@ =~= prev.push(&lines@[j as int]));
            assert(line_views(out@) =~= line_views(prev).push(lines@[j as int]@));
            assert(hv[i as int].lines.take(j + 1) =~= hv[i as int].lines.take(j as int).push(
                hv[i as int].lines[j as int],
            ));
            assert(line_views(out@) =~= before + hv[i as int].lines.take(j + 1));
            j = j + 1;
        }
        assert(hv.take(i + 1).drop_last() =~= hv.take(i as int));
        assert(hv[i as int].lines.take(lines@.len() as int) =~= hv[i as int].lines);
        assert(line_views(out@) =~= start + all_lines(hv.take(i + 1)));
        i = i + 1;
    }
    assert(hv.take(hunks@.len() as int) =~= hv);
}

fn find_numbered<'a>(lines: &Vec<&'a Line>, side: Side, number: u32) -> (r: Option<&'a Line>)
    ensures
        match r {
            Some(l) => exists|i: int|
                first_numbered(line_views(lines@), side, number, i) && line_views(lines@)[i]
                    == l@,
            None => forall|i: int|
                0 <= i < lines@.len() ==> number_on(#[trigger] line_views(lines@)[i], side)
                    != Some(number),
        },
{
    let ghost views = line_views(lines@);
    let mut i: usize = 0;
    while i < lines.len()
        invariant
            i <= lines@.len(),
            views == line_views(lines@),
            forall|j: int| 0 <= j < i ==> number_on(#[trigger] views[j], side) != Some(number),
        decreases lines.len() - i,
    {
        if lines[i].number(side) == Some(number) {
            assert(first_numbered(views, side, number, i as int));
            return Some(lines[i]);
        }
        i = i + 1;
    }
    None
}

impl FileDiff {
    /// The path the file has after the change, or had before if it was deleted.
    pub fn path(&self) -> (s: &str)
        ensures
            s@ == self@.path,
    {
        self.path.as_str()
    }

    /// How the file came to be in the diff.
    pub fn change(&self) -> (c: &Change)
        ensures
            c@ == self@.change,
    {
        &self.change
    }

    /// Whether git declined to show the content.
    pub fn is_binary(&self) -> (b: bool)
        ensures
            b == self@.binary,
    {
        self.binary
    }

    /// The hunks, in order.
    pub fn hunks(&self) -> (s: &[Hunk])
        ensures
            s@.map_values(|h: Hunk| h@) == self@.hunks,
    {
        self.hunks.as_slice()
    }

    /// Every line of every hunk, in order.
    pub fn lines(&self) -> (v: Vec<&Line>)
        ensures
            line_views(v@) == all_lines(self@.hunks),
    {
        let mut v: Vec<&Line> = Vec::new();
        push_lines(&mut v, self.hunks.as_slice());
        assert(line_views(v@) =~= all_lines(self@.hunks));
        v
    }

    /// The line carrying that number on that side, if the diff shows it: the
    /// first such line.
    pub fn line(&self, side: Side, number: u32) -> (r: Option<&Line>)
        ensures
            match r {
                Some(l) => exists|i: int|
                    first_numbered(all_lines(self@.hunks), side, number, i) && all_lines(
                        self@.hunks,
                    )[i] == l@,
                None => forall|i: int|
                    0 <= i < all_lines(self@.hunks).len() ==> number_on(
                        #[trigger] all_lines(self@.hunks)[i],
                        side,
                    ) != Some(number),
            },
    {
        let lines = self.lines();
        find_numbered(&lines, side, number)
    }

    /// How many lines were added.
    pub fn added(&self) -> (n: usize)
        ensures
            n == count_kind(all_lines(self@.hunks), LineKind::Added),
    {
        count_of(&self.lines(), LineKind::Added)
    }

    /// How many lines were removed.
    pub fn removed(&self) -> (n: usize)
        ensures
            n == count_kind(all_lines(self@.hunks), LineKind::Removed),
    {
        count_of(&self.lines(), LineKind::Removed)
    }
}

/// A whole unified diff.
#[derive(Debug, Clone, Default, PartialEq, Eq)]
pub struct Patch {
    files: Vec<FileDiff>,
}

impl View for Patch {
    type V = Seq<FileDiffView>;

    closed spec fn view(&self) -> Seq<FileDiffView> {
        self.files@.map_values(|f: FileDiff| f@)
    }
}

/// Every line of every file, in order.
pub open spec fn patch_lines(files: Seq<FileDiffView>) -> Seq<LineView>
    decreases files.len(),
{
    if files.len() == 0 {
        Seq::empty()
    } else {
        patch_lines(files.drop_last()) + all_lines(files.last().hunks)
    }
}

impl Patch {
    /// The files, in the order git listed them.
    pub fn files(&self) -> (s: &[FileDiff])
        ensures
            s@.map_values(|f: FileDiff| f@) == self@,
    {
        self.files.as_slice()
    }

    /// The file at that path, if the diff touches it: the first one listed.
    pub fn file(&self, path: &str) -> (r: Option<&FileDiff>)
        ensures
            match r {
                Some(f) => exists|i: int|
                    0 <= i < self@.len() && self@[i] == f@ && f@.path == path@ && forall|j: int|
                        0 <= j < i ==> (#[trigger] self@[j]).path != path@,
                None => forall|i: int| 0 <= i < self@.len() ==> (#[trigger] self@[i]).path != path@,
            },
    {
        let mut i: usize = 0;
        while i < self.files.len()
            invariant
                i <= self@.len(),
                self@ == self.files@.map_values(|f: FileDiff| f@),
                forall|j: int| 0 <= j < i ==> (#[trigger] self@[j]).path != path@,
            decreases self.files.len() - i,
        {
            if same_text(self.files[i].path.as_str(), path) {
                assert(self@[i as int] == self.files@[i as int]@);
                return Some(&self.files[i]);
            }
            i = i + 1;
        }
        None
    }

    fn every_line(&self) -> (v: Vec<&Line>)
        ensures
            line_views(v@) == patch_lines(self@),
    {
        let mut v: Vec<&Line> = Vec::new();
        let mut i: usize = 0;
        while i < self.files.len()
            invariant
                i <= self@.len(),
                self@ == self.files@.map_values(|f: FileDiff| f@),
                line_views(v@) == patch_lines(self@.take(i as int)),
            decreases self.files.len() - i,
        {
            push_lines(&mut v, self.files[i].hunks.as_slice());
            assert(self@.take(i + 1).drop_last() =~= self@.take(i as int));
            i = i + 1;
        }
        assert(self@.take(self@.len() as int) =~= self@);
        v
    }

    /// Lines added across every file.
    pub fn added(&self) -> (n: usize)
        ensures
            n == count_kind(patch_lines(self@), LineKind::Added),
    {
        count_of(&self.every_line(), LineKind::Added)
    }

    /// Lines removed across every file.
    pub fn removed(&self) -> (n: usize)
        ensures
            n == count_kind(patch_lines(self@), LineKind::Removed),
    {
        count_of(&self.every_line(), LineKind::Removed)
    }
}

/// Why a diff could not be read.
#[derive(Debug, Clone, PartialEq, Eq)]
pub enum ParseError {
    /// An `@@` header that does not say where the hunk starts.
    BadHunkHeader(String),
    /// A hunk line before any `@@` header.
    LineOutsideHunk(String),
}

/// Why a diff could not be read, the line as its characters.
pub enum ParseErrorView {
    BadHunkHeader(Seq<char>),
    LineOutsideHunk(Seq<char>),
}

impl View for ParseError {
    type V = ParseErrorView;

    open spec fn view(&self) -> ParseErrorView {
        match self {
            ParseError::BadHunkHeader(s) => ParseErrorView::BadHunkHeader(s@),
            ParseError::LineOutsideHunk(s) => ParseErrorView::LineOutsideHunk(s@),
        }
    }
}

/// What a refusal to read a diff says to a person.
pub open spec fn parse_error_text(e: ParseErrorView) -> Seq<char> {
    match e {
        ParseErrorView::BadHunkHeader(h) => "unreadable hunk header: "@ + h,
        ParseErrorView::LineOutsideHunk(l) => "diff line outside any hunk: "@ + l,
    }
}

impl ParseError {
    /// The refusal as a person reads it, naming the line.
    pub fn to_string(&self) -> (s: String)
        ensures
            s@ == parse_error_text(self@),
    {
        let mut s = match self {
            ParseError::BadHunkHeader(_) => copy_str("unreadable hunk header: "),
            ParseError::LineOutsideHunk(_) => copy_str("diff line outside any hunk: "),
        };
        match self {
            ParseError::BadHunkHeader(h) => s.append(h.as_str()),
            ParseError::LineOutsideHunk(l) => s.append(l.as_str()),
        }
        s
    }
}

// ---------------------------------------------------------------------------
// What the text of a diff means.

/// Whether `s` starts with the characters of `p`.
pub open spec fn has_prefix(s: Seq<char>, p: Seq<char>) -> bool {
    p.len() <= s.len() && s.take(p.len() as int) == p
}

/// The first place at or after `from` where `pat` occurs in `s`.
pub open spec fn find_text(s: Seq<char>, pat: Seq<char>, from: int) -> Option<int>
    decreases s.len() + 1 - from,
{
    if from < 0 || from + pat.len() > s.len() {
        None
    } else if s.subrange(from, from + pat.len()) == pat {
        Some(from)
    } else {
        find_text(s, pat, from + 1)
    }
}

/// What `str::parse::<u32>` reads: an optional `+`, then one or more ASCII
/// digits whose value fits.
pub open spec fn u32_text(s: Seq<char>) -> Option<u32> {
    let d = if s.len() > 0 && s[0] == '+' {
        s.drop_first()
    } else {
        s
    };
    if d.len() > 0 && all_digits(d) && digits_value(d) <= u32::MAX {
        Some(digits_value(d) as u32)
    } else {
        None
    }
}

/// The next line number, wrapping as the counters of a release build do.
pub open spec fn next_number(n: u32) -> u32 {
    if n == u32::MAX {
        0
    } else {
        (n + 1) as u32
    }
}

/// `12,3` or `12` to `12`. A zero-length range (`0,0`) starts at line 1.
pub open spec fn range_start(range: Seq<char>) -> Option<u32> {
    let (start, count) = match find_text(range, seq![','], 0) {
        Some(i) => (range.take(i), range.skip(i + 1)),
        None => (range, seq!['1']),
    };
    match (u32_text(start), u32_text(count)) {
        (Some(a), Some(b)) => Some(
            if b == 0 {
                next_number(a)
            } else {
                a
            },
        ),
        _ => None,
    }
}

/// `s` without its leading white space.
pub open spec fn skip_space(s: Seq<char>) -> Seq<char>
    decreases s.len(),
{
    if s.len() > 0 && is_space(s[0]) {
        skip_space(s.drop_first())
    } else {
        s
    }
}

/// Where the run of non-space characters starting at `i` ends.
pub open spec fn word_end(s: Seq<char>, i: int) -> int
    decreases s.len() - i,
{
    if 0 <= i < s.len() && !is_space(s[i]) {
        word_end(s, i + 1)
    } else {
        i
    }
}

/// The first white-space separated word of `s`; empty when there is none.
pub open spec fn first_word(s: Seq<char>) -> Seq<char> {
    skip_space(s).take(word_end(skip_space(s), 0))
}

/// What follows the first word of `s`.
pub open spec fn after_first_word(s: Seq<char>) -> Seq<char> {
    skip_space(s).skip(word_end(skip_space(s), 0))
}

/// `-1,4 +1,4 @@ section` to `(1, 1)`: the first two words, the first after
/// a `-`, the second after a `+`.
pub open spec fn hunk_starts(header: Seq<char>) -> Option<(u32, u32)> {
    let w1 = first_word(header);
    let w2 = first_word(after_first_word(header));
    if w1.len() == 0 || w1[0] != '-' || w2.len() == 0 || w2[0] != '+' {
        None
    } else {
        match (range_start(w1.drop_first()), range_start(w2.drop_first())) {
            (Some(a), Some(b)) => Some((a, b)),
            _ => None,
        }
    }
}

/// `a/README.md b/README.md` to `README.md`.
pub open spec fn header_path(rest: Seq<char>) -> Seq<char> {
    match find_text(rest, " b/"@, 0) {
        Some(i) => rest.skip(i + " b/"@.len()),
        None => rest,
    }
}

/// A path without the `a/` or `b/` git puts in front of it.
pub open spec fn without_side_prefix(path: Seq<char>) -> Seq<char> {
    if has_prefix(path, "a/"@) {
        path.skip("a/"@.len() as int)
    } else if has_prefix(path, "b/"@) {
        path.skip("b/"@.len() as int)
    } else {
        path
    }
}

/// A line of a hunk and where it leaves the counters: nothing for the `\ No
/// newline` marker, a refusal for a line no hunk can hold.
///
/// A line that is empty, or whose first character is more than one byte,
/// has no one-byte marker to split off, and reads as an empty context line.
pub open spec fn hunk_line(line: Seq<char>, old: u32, new: u32) -> Result<
    Option<(LineView, u32, u32)>,
    ParseErrorView,
> {
    if line.len() == 0 || line[0] >= '\u{80}' {
        Ok(
            Some(
                (
                    LineView {
                        kind: LineKind::Context,
                        old: Some(old),
                        new: Some(new),
                        text: Seq::empty(),
                    },
                    next_number(old),
                    next_number(new),
                ),
            ),
        )
    } else if line[0] == '+' {
        Ok(
            Some(
                (
                    LineView {
                        kind: LineKind::Added,
                        old: None,
                        new: Some(new),
                        text: line.drop_first(),
                    },
                    old,
                    next_number(new),
                ),
            ),
        )
    } else if line[0] == '-' {
        Ok(
            Some(
                (
                    LineView {
                        kind: LineKind::Removed,
                        old: Some(old),
                        new: None,
                        text: line.drop_first(),
                    },
                    next_number(old),
                    new,
                ),
            ),
        )
    } else if line[0] == ' ' {
        Ok(
            Some(
                (
                    LineView {
                        kind: LineKind::Context,
                        old: Some(old),
                        new: Some(new),
                        text: line.drop_first(),
                    },
                    next_number(old),
                    next_number(new),
                ),
            ),
        )
    } else if line[0] == '\\' {
        Ok(None)
    } else {
        Err(ParseErrorView::LineOutsideHunk(line))
    }
}

/// The file with a line added to its last hunk.
pub open spec fn with_line(f: FileDiffView, l: LineView) -> FileDiffView {
    FileDiffView {
        hunks: f.hunks.drop_last().push(
            HunkView { header: f.hunks.last().header, lines: f.hunks.last().lines.push(l) },
        ),
        ..f
    }
}

/// What one line of the diff does to the file it is in, and to the counters.
pub open spec fn file_step(f: FileDiffView, line: Seq<char>, old: u32, new: u32) -> Result<
    (FileDiffView, u32, u32),
    ParseErrorView,
> {
    if has_prefix(line, "@@ "@) {
        match hunk_starts(line.skip("@@ "@.len() as int)) {
            None => Err(ParseErrorView::BadHunkHeader(line)),
            Some((a, b)) => Ok(
                (
                    FileDiffView {
                        hunks: f.hunks.push(HunkView { header: line, lines: Seq::empty() }),
                        ..f
                    },
                    a,
                    b,
                ),
            ),
        }
    } else if has_prefix(line, "new file mode"@) {
        Ok((FileDiffView { change: ChangeView::Added, ..f }, old, new))
    } else if has_prefix(line, "deleted file mode"@) {
        Ok((FileDiffView { change: ChangeView::Deleted, ..f }, old, new))
    } else if has_prefix(line, "rename from "@) {
        Ok(
            (
                FileDiffView {
                    change: ChangeView::Renamed(line.skip("rename from "@.len() as int)),
                    ..f
                },
                old,
                new,
            ),
        )
    } else if has_prefix(line, "rename to "@) {
        Ok((FileDiffView { path: line.skip("rename to "@.len() as int), ..f }, old, new))
    } else if has_prefix(line, "--- "@) {
        if f.change is Deleted {
            Ok(
                (
                    FileDiffView {
                        path: without_side_prefix(line.skip("--- "@.len() as int)),
                        ..f
                    },
                    old,
                    new,
                ),
            )
        } else {
            Ok((f, old, new))
        }
    } else if has_prefix(line, "+++ "@) {
        let path = line.skip("+++ "@.len() as int);
        if path != "/dev/null"@ {
            Ok((FileDiffView { path: without_side_prefix(path), ..f }, old, new))
        } else {
            Ok((f, old, new))
        }
    } else if has_prefix(line, "Binary files "@) || has_prefix(line, "GIT binary patch"@) {
        Ok((FileDiffView { binary: true, ..f }, old, new))
    } else if f.hunks.len() > 0 {
        match hunk_line(line, old, new) {
            Err(e) => Err(e),
            Ok(None) => Ok((f, old, new)),
            Ok(Some((l, o, n))) => Ok((with_line(f, l), o, n)),
        }
    } else if line.len() > 0 && (line[0] == '+' || line[0] == '-' || line[0] == ' ') {
        Err(ParseErrorView::LineOutsideHunk(line))
    } else {
        Ok((f, old, new))
    }
}

/// Where reading stands: the files so far, and the next number on each side.
pub struct ParseState {
    pub files: Seq<FileDiffView>,
    pub old: u32,
    pub new: u32,
}

/// What one line of the diff does: a `diff --git` line starts a file, a line
/// before any file is ignored, any other line belongs to the last file.
pub open spec fn parse_step(st: ParseState, line: Seq<char>) -> Result<ParseState, ParseErrorView> {
    if has_prefix(line, "diff --git "@) {
        Ok(
            ParseState {
                files: st.files.push(
                    FileDiffView {
                        path: header_path(line.skip("diff --git "@.len() as int)),
                        change: ChangeView::Modified,
                        binary: false,
                        hunks: Seq::empty(),
                    },
                ),
                ..st
            },
        )
    } else if st.files.len() == 0 {
        Ok(st)
    } else {
        match file_step(st.files.last(), line, st.old, st.new) {
            Err(e) => Err(e),
            Ok((f, o, n)) => Ok(ParseState { files: st.files.drop_last().push(f), old: o, new: n }),
        }
    }
}

/// Where the line starting at `from` ends: the next line feed, or the end.
pub open spec fn line_end(s: Seq<char>, from: int) -> int
    decreases s.len() - from,
{
    if from < 0 || from >= s.len() {
        s.len() as int
    } else if s[from] == '\n' {
        from
    } else {
        line_end(s, from + 1)
    }
}

/// A line without the carriage return a CRLF diff leaves at its end.
pub open spec fn without_cr(l: Seq<char>) -> Seq<char> {
    if l.len() > 0 && l.last() == '\r' {
        l.drop_last()
    } else {
        l
    }
}

/// A line ends at a line feed or at the end of the text, never before the
/// place it starts.
pub proof fn lemma_line_end(s: Seq<char>, from: int)
    requires
        0 <= from <= s.len(),
    ensures
        from <= line_end(s, from) <= s.len(),
        forall|k: int| from <= k < line_end(s, from) ==> s[k] != '\n',
        line_end(s, from) < s.len() ==> s[line_end(s, from)] == '\n',
    decreases s.len() - from,
{
    if from < s.len() && s[from] != '\n' {
        lemma_line_end(s, from + 1);
    }
}

/// Where `find_text` finds the pattern, the pattern is.
pub proof fn lemma_find_text(s: Seq<char>, pat: Seq<char>, from: int)
    ensures
        find_text(s, pat, from) matches Some(i) ==> from <= i && i + pat.len() <= s.len()
            && s.subrange(i, i + pat.len()) == pat,
    decreases s.len() + 1 - from,
{
    if from >= 0 && from + pat.len() <= s.len() && s.subrange(from, from + pat.len()) != pat {
        lemma_find_text(s, pat, from + 1);
    }
}

/// The files of the diff from `pos` on, reading from the state given.
pub open spec fn parse_from(s: Seq<char>, pos: int, st: ParseState) -> Result<
    Seq<FileDiffView>,
    ParseErrorView,
>
    decreases s.len() + 1 - pos,
{
    if pos < 0 || pos >= s.len() {
        Ok(st.files)
    } else {
        let e = line_end(s, pos);
        proof {
            lemma_line_end(s, pos);
        }
        match parse_step(st, without_cr(s.subrange(pos, e))) {
            Err(x) => Err(x),
            Ok(next) => parse_from(s, e + 1, next),
        }
    }
}

/// What a diff reads as: every line, split at line feeds, through
/// [`parse_step`], from no files and both counters at zero.
pub open spec fn parse_diff(s: Seq<char>) -> Result<Seq<FileDiffView>, ParseErrorView> {
    parse_from(s, 0, ParseState { files: Seq::empty(), old: 0, new: 0 })
}

/// A line carries a number on exactly the sides it exists on: a context line
/// on both, an added line on the new side only, a removed line on the old
/// side only.
pub open spec fn numbered(l: LineView) -> bool {
    match l.kind {
        LineKind::Context => l.old is Some && l.new is Some,
        LineKind::Added => l.old is None && l.new is Some,
        LineKind::Removed => l.old is Some && l.new is None,
    }
}

/// Every line of every hunk of a file is numbered on its sides.
pub open spec fn file_numbered(f: FileDiffView) -> bool {
    forall|h: int, k: int|
        0 <= h < f.hunks.len() && 0 <= k < f.hunks[h].lines.len() ==> numbered(
            #[trigger] f.hunks[h].lines[k],
        )
}

/// Every line of every file is numbered on its sides.
pub open spec fn files_numbered(fs: Seq<FileDiffView>) -> bool {
    forall|i: int| 0 <= i < fs.len() ==> file_numbered(#[trigger] fs[i])
}

proof fn lemma_file_step_numbered(f: FileDiffView, line: Seq<char>, old: u32, new: u32)
    requires
        file_numbered(f),
    ensures
        file_step(f, line, old, new) matches Ok((g, _, _)) ==> file_numbered(g),
{
    if let Ok((g, _, _)) = file_step(f, line, old, new) {
        if has_prefix(line, "@@ "@) {
            assert forall|h: int, k: int|
                0 <= h < g.hunks.len() && 0 <= k < g.hunks[h].lines.len() implies numbered(
                #[trigger] g.hunks[h].lines[k],
            ) by {
                assert(h < f.hunks.len());
                assert(g.hunks[h] == f.hunks[h]);
            }
        } else if f.hunks.len() > 0 && !has_prefix(line, "new file mode"@) && !has_prefix(
            line,
            "deleted file mode"@,
        ) && !has_prefix(line, "rename from "@) && !has_prefix(line, "rename to "@)
            && !has_prefix(line, "--- "@) && !has_prefix(line, "+++ "@) && !has_prefix(
            line,
            "Binary files "@,
        ) && !has_prefix(line, "GIT binary patch"@) {
            if let Ok(Some((l, _, _))) = hunk_line(line, old, new) {
                assert(numbered(l));
                assert(g == with_line(f, l));
                let last = f.hunks.len() - 1;
                assert forall|h: int, k: int|
                    0 <= h < g.hunks.len() && 0 <= k < g.hunks[h].lines.len() implies numbered(
                    #[trigger] g.hunks[h].lines[k],
                ) by {
                    if h < last {
                        assert(g.hunks[h] == f.hunks[h]);
                    } else if k < f.hunks[last].lines.len() {
                        assert(g.hunks[h].lines[k] == f.hunks[last].lines[k]);
                    } else {
                        assert(g.hunks[h].lines[k] == l);
                    }
                }
            }
        }
    }
}

proof fn lemma_parse_step_numbered(st: ParseState, line: Seq<char>)
    requires
        files_numbered(st.files),
    ensures
        parse_step(st, line) matches Ok(next) ==> files_numbered(next.files),
{
    if let Ok(next) = parse_step(st, line) {
        if has_prefix(line, "diff --git "@) {
            assert forall|i: int| 0 <= i < next.files.len() implies file_numbered(
                #[trigger] next.files[i],
            ) by {
                if i < st.files.len() {
                    assert(next.files[i] == st.files[i]);
                }
            }
        } else if st.files.len() > 0 {
            let last = st.files.len() - 1;
            assert(file_numbered(st.files[last]));
            lemma_file_step_numbered(st.files.last(), line, st.old, st.new);
            assert forall|i: int| 0 <= i < next.files.len() implies file_numbered(
                #[trigger] next.files[i],
            ) by {
                if i < last {
                    assert(next.files[i] == st.files[i]);
                }
            }
        }
    }
}

proof fn lemma_parse_from_numbered(s: Seq<char>, pos: int, st: ParseState)
    requires
        files_numbered(st.files),
    ensures
        parse_from(s, pos, st) matches Ok(fs) ==> files_numbered(fs),
    decreases s.len() + 1 - pos,
{
    if 0 <= pos < s.len() {
        let e = line_end(s, pos);
        lemma_line_end(s, pos);
        let line = without_cr(s.subrange(pos, e));
        lemma_parse_step_numbered(st, line);
        if let Ok(next) = parse_step(st, line) {
            lemma_parse_from_numbered(s, e + 1, next);
        }
    }
}

/// Whatever diff is read, every line it gives is numbered on exactly the
/// sides it exists on: context on both, added on the new side only, removed
/// on the old side only.
pub proof fn law_lines_are_numbered_on_their_sides(s: Seq<char>)
    ensures
        parse_diff(s) matches Ok(fs) ==> files_numbered(fs),
{
    lemma_parse_from_numbered(s, 0, ParseState { files: Seq::empty(), old: 0, new: 0 });
}

/// Whether no character of `w` is white space.
pub open spec fn no_space(w: Seq<char>) -> bool {
    forall|i: int| 0 <= i < w.len() ==> !is_space(#[trigger] w[i])
}

proof fn lemma_u32_decimal(a: u32)
    ensures
        u32_text(decimal(a as nat)) == Some(a),
        no_space(decimal(a as nat)),
        forall|i: int| 0 <= i < decimal(a as nat).len() ==> #[trigger] decimal(a as nat)[i] != ',',
{
    lemma_decimal_digits(a as nat);
    let s = decimal(a as nat);
    assert(is_digit(s[0]));
    assert forall|i: int| 0 <= i < s.len() implies !is_space(#[trigger] s[i]) by {
        assert(is_digit(s[i]));
    }
    assert forall|i: int| 0 <= i < s.len() implies #[trigger] s[i] != ',' by {
        assert(is_digit(s[i]));
    }
}

proof fn lemma_find_comma(s: Seq<char>, i: int, from: int)
    requires
        0 <= from <= i < s.len(),
        s[i] == ',',
        forall|j: int| from <= j < i ==> #[trigger] s[j] != ',',
    ensures
        find_text(s, seq![','], from) == Some(i),
    decreases i - from,
{
    let pat = seq![','];
    assert(s.subrange(from, from + 1)[0] == s[from]);
    if from == i {
        assert(s.subrange(from, from + 1) =~= pat);
    } else {
        assert(s.subrange(from, from + 1) != pat);
        lemma_find_comma(s, i, from + 1);
    }
}

/// A range of a hunk header as git writes it: where it starts, then its
/// length after a comma, which git leaves out when it is one line.
pub open spec fn range_word(start: u32, count: Option<u32>) -> Seq<char> {
    match count {
        Some(b) => decimal(start as nat) + ","@ + decimal(b as nat),
        None => decimal(start as nat),
    }
}

/// The first line a range covers: its start, or the line after it when the
/// range is empty.
pub open spec fn range_first(start: u32, count: Option<u32>) -> u32 {
    match count {
        Some(b) => if b == 0 {
            next_number(start)
        } else {
            start
        },
        None => start,
    }
}

proof fn lemma_find_no_comma(s: Seq<char>, from: int)
    requires
        0 <= from,
        forall|j: int| from <= j < s.len() ==> #[trigger] s[j] != ',',
    ensures
        find_text(s, seq![','], from) == None::<int>,
    decreases s.len() + 1 - from,
{
    let pat = seq![','];
    if from + 1 <= s.len() {
        assert(s.subrange(from, from + 1)[0] == s[from]);
        assert(s.subrange(from, from + 1) != pat);
        lemma_find_no_comma(s, from + 1);
    }
}

proof fn lemma_range_start(a: u32, count: Option<u32>)
    ensures
        range_start(range_word(a, count)) == Some(range_first(a, count)),
{
    let da = decimal(a as nat);
    lemma_u32_decimal(a);
    match count {
        Some(b) => {
            let db = decimal(b as nat);
            let r = da + ","@ + db;
            lemma_u32_decimal(b);
            reveal_strlit(",");
            assert(r[da.len() as int] == ',');
            assert forall|j: int| 0 <= j < da.len() implies #[trigger] r[j] != ',' by {
                assert(r[j] == da[j]);
            }
            lemma_find_comma(r, da.len() as int, 0);
            assert(r.take(da.len() as int) =~= da);
            assert(r.skip(da.len() as int + 1) =~= db);
        },
        None => {
            lemma_find_no_comma(da, 0);
            lemma_decimal_digits(1);
            assert(decimal(1) =~= seq!['1']);
            lemma_u32_decimal(1);
        },
    }
}

proof fn lemma_word_end(w: Seq<char>, r: Seq<char>, i: int)
    requires
        no_space(w),
        0 <= i <= w.len(),
        r.len() == 0 || is_space(r[0]),
    ensures
        word_end(w + r, i) == w.len(),
    decreases w.len() - i,
{
    if i < w.len() {
        assert((w + r)[i] == w[i]);
        lemma_word_end(w, r, i + 1);
    } else if r.len() > 0 {
        assert((w + r)[i] == r[0]);
    }
}

proof fn lemma_first_word(w: Seq<char>, r: Seq<char>)
    requires
        no_space(w),
        w.len() > 0,
        r.len() == 0 || is_space(r[0]),
    ensures
        first_word(w + r) == w,
        after_first_word(w + r) == r,
{
    assert((w + r)[0] == w[0]);
    assert(skip_space(w + r) == w + r);
    lemma_word_end(w, r, 0);
    assert((w + r).take(w.len() as int) =~= w);
    assert((w + r).skip(w.len() as int) =~= r);
}

proof fn lemma_range_word(sign: Seq<char>, a: u32, count: Option<u32>)
    requires
        sign.len() == 1,
        !is_space(sign[0]),
    ensures
        ({
            let w = sign + range_word(a, count);
            &&& no_space(w)
            &&& w.len() > 0
            &&& w[0] == sign[0]
            &&& w.drop_first() == range_word(a, count)
        }),
{
    reveal_strlit(",");
    let da = decimal(a as nat);
    lemma_u32_decimal(a);
    let w = sign + range_word(a, count);
    match count {
        Some(b) => {
            let db = decimal(b as nat);
            lemma_u32_decimal(b);
            assert forall|i: int| 0 <= i < w.len() implies !is_space(#[trigger] w[i]) by {
                if 1 <= i < 1 + da.len() {
                    assert(w[i] == da[i - 1]);
                } else if i > 1 + da.len() {
                    assert(w[i] == db[i - 2 - da.len()]);
                }
            }
        },
        None => {
            assert forall|i: int| 0 <= i < w.len() implies !is_space(#[trigger] w[i]) by {
                if 1 <= i {
                    assert(w[i] == da[i - 1]);
                }
            }
        },
    }
    assert(w.drop_first() =~= range_word(a, count));
}

proof fn lemma_two_words(w1: Seq<char>, w2: Seq<char>, tail: Seq<char>)
    requires
        no_space(w1),
        no_space(w2),
        w1.len() > 0,
        w2.len() > 0,
        tail.len() == 0 || is_space(tail[0]),
    ensures
        first_word(w1 + (" "@ + (w2 + tail))) == w1,
        first_word(after_first_word(w1 + (" "@ + (w2 + tail)))) == w2,
{
    reveal_strlit(" ");
    let r2 = w2 + tail;
    assert((" "@ + r2)[0] == ' ');
    lemma_first_word(w1, " "@ + r2);
    assert(skip_space(" "@ + r2) == skip_space((" "@ + r2).drop_first()));
    assert((" "@ + r2).drop_first() =~= r2);
    lemma_first_word(w2, tail);
}

proof fn lemma_hunk_starts(
    a: u32,
    b: Option<u32>,
    c: u32,
    d: Option<u32>,
    tail: Seq<char>,
)
    requires
        tail.len() == 0 || is_space(tail[0]),
    ensures
        hunk_starts("-"@ + range_word(a, b) + " +"@ + range_word(c, d) + tail) == Some(
            (range_first(a, b), range_first(c, d)),
        ),
{
    reveal_strlit(" +");
    reveal_strlit("-");
    reveal_strlit("+");
    reveal_strlit(" ");
    let w1 = "-"@ + range_word(a, b);
    let w2 = "+"@ + range_word(c, d);
    lemma_range_word("-"@, a, b);
    lemma_range_word("+"@, c, d);
    lemma_range_start(a, b);
    lemma_range_start(c, d);
    let h = "-"@ + range_word(a, b) + " +"@ + range_word(c, d) + tail;
    assert(" +"@ =~= " "@ + "+"@);
    assert(h =~= w1 + (" "@ + (w2 + tail)));
    lemma_two_words(w1, w2, tail);
}

proof fn lemma_not_prefix(l: Seq<char>, p: Seq<char>)
    requires
        p.len() > 0,
        l.len() > 0,
        l[0] != p[0],
    ensures
        !has_prefix(l, p),
{
    if has_prefix(l, p) {
        assert(l.take(p.len() as int)[0] == p[0]);
    }
}

proof fn lemma_no_header_prefix(l: Seq<char>)
    requires
        l.len() > 0,
        l[0] == ' ' || l[0] == '+' || l[0] == '-',
    ensures
        !has_prefix(l, "@@ "@),
        !has_prefix(l, "new file mode"@),
        !has_prefix(l, "deleted file mode"@),
        !has_prefix(l, "rename from "@),
        !has_prefix(l, "rename to "@),
        !has_prefix(l, "Binary files "@),
        !has_prefix(l, "GIT binary patch"@),
        l[0] != '-' ==> !has_prefix(l, "--- "@),
        l[0] != '+' ==> !has_prefix(l, "+++ "@),
{
    reveal_strlit("@@ ");
    reveal_strlit("new file mode");
    reveal_strlit("deleted file mode");
    reveal_strlit("rename from ");
    reveal_strlit("rename to ");
    reveal_strlit("Binary files ");
    reveal_strlit("GIT binary patch");
    reveal_strlit("--- ");
    reveal_strlit("+++ ");
    lemma_not_prefix(l, "@@ "@);
    lemma_not_prefix(l, "new file mode"@);
    lemma_not_prefix(l, "deleted file mode"@);
    lemma_not_prefix(l, "rename from "@);
    lemma_not_prefix(l, "rename to "@);
    lemma_not_prefix(l, "Binary files "@);
    lemma_not_prefix(l, "GIT binary patch"@);
    if l[0] != '-' {
        lemma_not_prefix(l, "--- "@);
    }
    if l[0] != '+' {
        lemma_not_prefix(l, "+++ "@);
    }
}

proof fn lemma_context_after_header(f: FileDiffView, text: Seq<char>, a: u32, c: u32)
    requires
        f.hunks.len() > 0,
    ensures
        file_step(f, " "@ + text, a, c) == Ok::<(FileDiffView, u32, u32), ParseErrorView>(
            (
                with_line(
                    f,
                    LineView { kind: LineKind::Context, old: Some(a), new: Some(c), text },
                ),
                next_number(a),
                next_number(c),
            ),
        ),
{
    reveal_strlit(" ");
    let l = " "@ + text;
    assert(l[0] == ' ');
    assert(l.drop_first() =~= text);
    lemma_no_header_prefix(l);
}

proof fn lemma_added_after_header(f: FileDiffView, text: Seq<char>, a: u32, c: u32)
    requires
        f.hunks.len() > 0,
        !has_prefix(text, "++ "@),
    ensures
        file_step(f, "+"@ + text, a, c) == Ok::<(FileDiffView, u32, u32), ParseErrorView>(
            (
                with_line(f, LineView { kind: LineKind::Added, old: None, new: Some(c), text }),
                a,
                next_number(c),
            ),
        ),
{
    reveal_strlit("+");
    reveal_strlit("+++ ");
    reveal_strlit("++ ");
    let l = "+"@ + text;
    assert(l[0] == '+');
    assert(l.drop_first() =~= text);
    lemma_no_header_prefix(l);
    if has_prefix(l, "+++ "@) {
        assert(l.take(4) == "+++ "@);
        assert forall|i: int| 0 <= i < 3 implies text.take(3)[i] == "++ "@[i] by {
            assert(l[i + 1] == text[i]);
            assert(l.take(4)[i + 1] == l[i + 1]);
        }
        assert(text.take(3) =~= "++ "@);
    }
}

proof fn lemma_removed_after_header(f: FileDiffView, text: Seq<char>, a: u32, c: u32)
    requires
        f.hunks.len() > 0,
        !has_prefix(text, "-- "@),
    ensures
        file_step(f, "-"@ + text, a, c) == Ok::<(FileDiffView, u32, u32), ParseErrorView>(
            (
                with_line(f, LineView { kind: LineKind::Removed, old: Some(a), new: None, text }),
                next_number(a),
                c,
            ),
        ),
{
    reveal_strlit("-");
    reveal_strlit("--- ");
    reveal_strlit("-- ");
    let l = "-"@ + text;
    assert(l[0] == '-');
    assert(l.drop_first() =~= text);
    lemma_no_header_prefix(l);
    if has_prefix(l, "--- "@) {
        assert(l.take(4) == "--- "@);
        assert forall|i: int| 0 <= i < 3 implies text.take(3)[i] == "-- "@[i] by {
            assert(l[i + 1] == text[i]);
            assert(l.take(4)[i + 1] == l[i + 1]);
        }
        assert(text.take(3) =~= "-- "@);
    }
}

proof fn lemma_hunk_header_step(
    f: FileDiffView,
    a: u32,
    b: Option<u32>,
    c: u32,
    d: Option<u32>,
    tail: Seq<char>,
    old: u32,
    new: u32,
    text: Seq<char>,
)
    requires
        tail.len() == 0 || is_space(tail[0]),
    ensures
        ({
            let line = "@@ -"@ + range_word(a, b) + " +"@ + range_word(c, d) + tail;
            let opened = FileDiffView {
                hunks: f.hunks.push(HunkView { header: line, lines: Seq::empty() }),
                ..f
            };
            let o = range_first(a, b);
            let n = range_first(c, d);
            &&& file_step(f, line, old, new) == Ok::<(FileDiffView, u32, u32), ParseErrorView>(
                (opened, o, n),
            )
            &&& file_step(opened, " "@ + text, o, n) == Ok::<
                (FileDiffView, u32, u32),
                ParseErrorView,
            >(
                (
                    with_line(
                        opened,
                        LineView { kind: LineKind::Context, old: Some(o), new: Some(n), text },
                    ),
                    next_number(o),
                    next_number(n),
                ),
            )
            &&& !has_prefix(text, "++ "@) ==> file_step(opened, "+"@ + text, o, n) == Ok::<
                (FileDiffView, u32, u32),
                ParseErrorView,
            >(
                (
                    with_line(
                        opened,
                        LineView { kind: LineKind::Added, old: None, new: Some(n), text },
                    ),
                    o,
                    next_number(n),
                ),
            )
            &&& !has_prefix(text, "-- "@) ==> file_step(opened, "-"@ + text, o, n) == Ok::<
                (FileDiffView, u32, u32),
                ParseErrorView,
            >(
                (
                    with_line(
                        opened,
                        LineView { kind: LineKind::Removed, old: Some(o), new: None, text },
                    ),
                    next_number(o),
                    n,
                ),
            )
        }),
{
    reveal_strlit("@@ -");
    reveal_strlit("@@ ");
    reveal_strlit("-");
    let h = "-"@ + range_word(a, b) + " +"@ + range_word(c, d) + tail;
    let line = "@@ -"@ + range_word(a, b) + " +"@ + range_word(c, d) + tail;
    assert("@@ -"@ =~= "@@ "@ + "-"@);
    assert(line =~= "@@ "@ + h);
    assert(line.take(3) =~= "@@ "@);
    assert(line.skip(3) =~= h);
    lemma_hunk_starts(a, b, c, d, tail);
    let opened = FileDiffView {
        hunks: f.hunks.push(HunkView { header: line, lines: Seq::empty() }),
        ..f
    };
    let o = range_first(a, b);
    let n = range_first(c, d);
    lemma_context_after_header(opened, text, o, n);
    if !has_prefix(text, "++ "@) {
        lemma_added_after_header(opened, text, o, n);
    }
    if !has_prefix(text, "-- "@) {
        lemma_removed_after_header(opened, text, o, n);
    }
}

/// A hunk numbers its lines from its header: the old side counts from the
/// start of the `-` range and the new side from the start of the `+` range.
/// The header `@@ -a,b +c,d @@` (a count of one left out, as git does) opens
/// a hunk with the counters at `a` on the old side and `c` on the new, or the
/// line after when that side's range is empty. So a context line right after
/// it is old line `a` and new line `c`, an added line is new line `c`, and a
/// removed line is old line `a`.
pub proof fn law_a_hunk_counts_from_its_header(
    st: ParseState,
    a: u32,
    b: Option<u32>,
    c: u32,
    d: Option<u32>,
    tail: Seq<char>,
    text: Seq<char>,
)
    requires
        st.files.len() > 0,
        tail.len() == 0 || is_space(tail[0]),
    ensures
        ({
            let line = "@@ -"@ + range_word(a, b) + " +"@ + range_word(c, d) + tail;
            let f = st.files.last();
            let opened = FileDiffView {
                hunks: f.hunks.push(HunkView { header: line, lines: Seq::empty() }),
                ..f
            };
            let o = range_first(a, b);
            let n = range_first(c, d);
            let after = ParseState { files: st.files.drop_last().push(opened), old: o, new: n };
            &&& parse_step(st, line) == Ok::<ParseState, ParseErrorView>(after)
            &&& parse_step(after, " "@ + text) == Ok::<ParseState, ParseErrorView>(
                ParseState {
                    files: st.files.drop_last().push(
                        with_line(
                            opened,
                            LineView { kind: LineKind::Context, old: Some(o), new: Some(n), text },
                        ),
                    ),
                    old: next_number(o),
                    new: next_number(n),
                },
            )
            &&& !has_prefix(text, "++ "@) ==> parse_step(after, "+"@ + text) == Ok::<
                ParseState,
                ParseErrorView,
            >(
                ParseState {
                    files: st.files.drop_last().push(
                        with_line(
                            opened,
                            LineView { kind: LineKind::Added, old: None, new: Some(n), text },
                        ),
                    ),
                    old: o,
                    new: next_number(n),
                },
            )
            &&& !has_prefix(text, "-- "@) ==> parse_step(after, "-"@ + text) == Ok::<
                ParseState,
                ParseErrorView,
            >(
                ParseState {
                    files: st.files.drop_last().push(
                        with_line(
                            opened,
                            LineView { kind: LineKind::Removed, old: Some(o), new: None, text },
                        ),
                    ),
                    old: next_number(o),
                    new: n,
                },
            )
        }),
{
    reveal_strlit("@@ -");
    reveal_strlit("diff --git ");
    reveal_strlit(" ");
    reveal_strlit("+");
    reveal_strlit("-");
    let line = "@@ -"@ + range_word(a, b) + " +"@ + range_word(c, d) + tail;
    let f = st.files.last();
    let opened = FileDiffView {
        hunks: f.hunks.push(HunkView { header: line, lines: Seq::empty() }),
        ..f
    };
    let o = range_first(a, b);
    let n = range_first(c, d);
    let after = ParseState { files: st.files.drop_last().push(opened), old: o, new: n };
    lemma_hunk_header_step(f, a, b, c, d, tail, st.old, st.new, text);
    assert(line[0] == '@');
    lemma_not_prefix(line, "diff --git "@);
    assert(after.files.last() == opened);
    assert(after.files.drop_last() =~= st.files.drop_last());
    let ctx = " "@ + text;
    let add = "+"@ + text;
    let rem = "-"@ + text;
    assert(ctx[0] == ' ');
    assert(add[0] == '+');
    assert(rem[0] == '-');
    lemma_not_prefix(ctx, "diff --git "@);
    lemma_not_prefix(add, "diff --git "@);
    lemma_not_prefix(rem, "diff --git "@);
}

/// The view of a read diff.
pub open spec fn patch_result(r: Result<Patch, ParseError>) -> Result<
    Seq<FileDiffView>,
    ParseErrorView,
> {
    match r {
        Ok(p) => Ok(p@),
        Err(e) => Err(e@),
    }
}

// ---------------------------------------------------------------------------
// Reading it.

pub(crate) fn strip_prefix_chars(v: &[char], p: &str) -> (r: Option<Vec<char>>)
    ensures
        has_prefix(v@, p@) ==> (r matches Some(rest) && rest@ == v@.skip(p@.len() as int)),
        !has_prefix(v@, p@) ==> r is None,
{
    let pc = chars_of(p);
    if pc.len() > v.len() {
        return None;
    }
    let mut i: usize = 0;
    while i < pc.len()
        invariant
            i <= pc@.len() <= v@.len(),
            pc@ == p@,
            forall|k: int| 0 <= k < i ==> v@[k] == pc@[k],
        decreases pc.len() - i,
    {
        if v[i] != pc[i] {
            assert(v@.take(pc@.len() as int)[i as int] != p@[i as int]);
            return None;
        }
        i = i + 1;
    }
    assert(v@.take(pc@.len() as int) =~= p@);
    let mut rest: Vec<char> = Vec::new();
    let mut j = pc.len();
    while j < v.len()
        invariant
            pc@.len() <= j <= v@.len(),
            rest@ == v@.subrange(pc@.len() as int, j as int),
        decreases v.len() - j,
    {
        rest.push(v[j]);
        j = j + 1;
    }
    assert(rest@ =~= v@.skip(p@.len() as int));
    Some(rest)
}

fn has_prefix_chars(v: &[char], p: &str) -> (b: bool)
    ensures
        b == has_prefix(v@, p@),
{
    strip_prefix_chars(v, p).is_some()
}

fn find_chars(s: &[char], pat: &[char]) -> (r: Option<usize>)
    ensures
        match r {
            Some(i) => find_text(s@, pat@, 0) == Some(i as int),
            None => find_text(s@, pat@, 0) is None,
        },
{
    if pat.len() > s.len() {
        return None;
    }
    let n = s.len();
    let last = n - pat.len();
    let mut i: usize = 0;
    while i <= last
        invariant
            n == s@.len(),
            pat@.len() <= s@.len(),
            last == s@.len() - pat@.len(),
            i <= s@.len() - pat@.len() + 1,
            find_text(s@, pat@, 0) == find_text(s@, pat@, i as int),
        decreases s.len() - i,
    {
        let mut k: usize = 0;
        let mut same = true;
        while k < pat.len()
            invariant
                n == s@.len(),
                i + pat@.len() <= s@.len(),
                k <= pat@.len(),
                same == (forall|m: int| 0 <= m < k ==> s@[i + m] == pat@[m]),
            decreases pat.len() - k,
        {
            if s[i + k] != pat[k] {
                same = false;
            }
            k = k + 1;
        }
        if same {
            assert(s@.subrange(i as int, i + pat@.len()) =~= pat@);
            return Some(i);
        }
        assert(s@.subrange(i as int, i + pat@.len()) != pat@) by {
            let m = choose|m: int| 0 <= m < pat@.len() && s@[i + m] != pat@[m];
            assert(s@.subrange(i as int, i + pat@.len())[m] != pat@[m]);
        }
        i = i + 1;
    }
    None
}

pub(crate) fn u32_of(s: &[char]) -> (r: Option<u32>)
    ensures
        r == u32_text(s@),
{
    let start: usize = if s.len() > 0 && s[0] == '+' {
        1
    } else {
        0
    };
    let ghost d = s@.skip(start as int);
    assert(d =~= (if s@.len() > 0 && s@[0] == '+' {
        s@.drop_first()
    } else {
        s@
    }));
    if start >= s.len() {
        return None;
    }
    let mut value: u64 = 0;
    let mut i = start;
    while i < s.len()
        invariant
            start <= i <= s@.len(),
            d == s@.skip(start as int),
            d == (if s@.len() > 0 && s@[0] == '+' {
                s@.drop_first()
            } else {
                s@
            }),
            all_digits(s@.subrange(start as int, i as int)),
            value as int == digits_value(s@.subrange(start as int, i as int)),
            value <= u32::MAX,
        decreases s.len() - i,
    {
        let c = s[i];
        assert(d[i - start] == s@[i as int]);
        if !('0' <= c && c <= '9') {
            assert(!is_digit(d[i - start]));
            return None;
        }
        assert(s@.subrange(start as int, i + 1).drop_last() =~= s@.subrange(
            start as int,
            i as int,
        ));
        value = value * 10 + ((c as u32) - 48) as u64;
        if value > 0xffff_ffff {
            proof {
                assert(d.take(i + 1 - start) =~= s@.subrange(start as int, i + 1));
                assert(all_digits(s@.subrange(start as int, i + 1))) by {
                    assert forall|m: int| 0 <= m < i + 1 - start implies is_digit(
                        #[trigger] s@.subrange(start as int, i + 1)[m],
                    ) by {
                        if m < i - start {
                            assert(s@.subrange(start as int, i + 1)[m] == s@.subrange(
                                start as int,
                                i as int,
                            )[m]);
                        }
                    }
                }
                lemma_digits_prefix(d, i + 1 - start);
            }
            return None;
        }
        i = i + 1;
    }
    assert(s@.subrange(start as int, s@.len() as int) =~= d);
    Some(value as u32)
}

/// Digits that begin a run of digits are worth no more than the run.
pub proof fn lemma_digits_prefix(s: Seq<char>, i: int)
    requires
        0 <= i <= s.len(),
        all_digits(s.take(i)),
    ensures
        all_digits(s) ==> digits_value(s.take(i)) <= digits_value(s),
    decreases s.len(),
{
    if i < s.len() && all_digits(s) {
        assert(s.drop_last().take(i) =~= s.take(i));
        lemma_digits_prefix(s.drop_last(), i);
        assert(digits_value(s) == digits_value(s.drop_last()) * 10 + digit_value(s.last()));
        assert(digits_value(s.drop_last()) >= 0) by {
            lemma_digits_nonnegative(s.drop_last());
        }
    } else if i == s.len() {
        assert(s.take(i) =~= s);
    }
}

/// Digits are worth nothing negative.
pub proof fn lemma_digits_nonnegative(s: Seq<char>)
    requires
        all_digits(s),
    ensures
        digits_value(s) >= 0,
    decreases s.len(),
{
    if s.len() > 0 {
        lemma_digits_nonnegative(s.drop_last());
    }
}

fn next_of(n: u32) -> (m: u32)
    ensures
        m == next_number(n),
{
    if n == u32::MAX {
        0
    } else {
        n + 1
    }
}

fn range_start_of(range: &[char]) -> (r: Option<u32>)
    ensures
        r == range_start(range@),
{
    let n = range.len();
    let comma = vec![','];
    assert(comma@ =~= seq![',']);
    let (start, count) = match find_chars(range, comma.as_slice()) {
        Some(i) => {
            proof {
                lemma_find_text(range@, seq![','], 0);
            }
            let mut tail: Vec<char> = Vec::new();
            let mut j = i + 1;
            while j < range.len()
                invariant
                    i + 1 <= j <= range@.len(),
                    tail@ == range@.subrange(i + 1, j as int),
                decreases range.len() - j,
            {
                tail.push(range[j]);
                j = j + 1;
            }
            let mut head: Vec<char> = Vec::new();
            let mut k: usize = 0;
            while k < i
                invariant
                    k <= i < range@.len(),
                    head@ == range@.subrange(0, k as int),
                decreases i - k,
            {
                head.push(range[k]);
                k = k + 1;
            }
            assert(head@ =~= range@.take(i as int));
            assert(tail@ =~= range@.skip(i + 1));
            (u32_of(head.as_slice()), u32_of(tail.as_slice()))
        },
        None => {
            let one = vec!['1'];
            assert(one@ =~= seq!['1']);
            (u32_of(range), u32_of(one.as_slice()))
        },
    };
    match (start, count) {
        (Some(a), Some(b)) => Some(
            if b == 0 {
                next_of(a)
            } else {
                a
            },
        ),
        _ => None,
    }
}

fn first_word_of(s: &[char]) -> (r: (Vec<char>, Vec<char>))
    ensures
        r.0@ == first_word(s@),
        r.1@ == after_first_word(s@),
{
    let mut i: usize = 0;
    assert(s@.skip(0) =~= s@);
    while i < s.len() && is_space_char(s[i])
        invariant
            i <= s@.len(),
            skip_space(s@) == skip_space(s@.skip(i as int)),
        decreases s.len() - i,
    {
        assert(s@.skip(i as int).drop_first() =~= s@.skip(i + 1));
        i = i + 1;
    }
    let ghost t = s@.skip(i as int);
    assert(skip_space(s@) == t);
    let mut j = i;
    while j < s.len() && !is_space_char(s[j])
        invariant
            i <= j <= s@.len(),
            t == s@.skip(i as int),
            word_end(t, 0) == word_end(t, j - i),
        decreases s.len() - j,
    {
        j = j + 1;
    }
    assert(word_end(t, j - i) == j - i);
    let mut word: Vec<char> = Vec::new();
    let mut k = i;
    while k < j
        invariant
            i <= k <= j <= s@.len(),
            word@ == s@.subrange(i as int, k as int),
        decreases j - k,
    {
        word.push(s[k]);
        k = k + 1;
    }
    let mut rest: Vec<char> = Vec::new();
    let mut m = j;
    while m < s.len()
        invariant
            j <= m <= s@.len(),
            rest@ == s@.subrange(j as int, m as int),
        decreases s.len() - m,
    {
        rest.push(s[m]);
        m = m + 1;
    }
    assert(word@ =~= t.take(j - i));
    assert(rest@ =~= t.skip(j - i));
    (word, rest)
}

fn hunk_starts_of(header: &[char]) -> (r: Option<(u32, u32)>)
    ensures
        r == hunk_starts(header@),
{
    let (w1, rest) = first_word_of(header);
    let (w2, _) = first_word_of(rest.as_slice());
    if w1.len() == 0 || w1[0] != '-' || w2.len() == 0 || w2[0] != '+' {
        return None;
    }
    let old = tail_of(w1.as_slice());
    let new = tail_of(w2.as_slice());
    match (range_start_of(old.as_slice()), range_start_of(new.as_slice())) {
        (Some(a), Some(b)) => Some((a, b)),
        _ => None,
    }
}

fn tail_of(v: &[char]) -> (r: Vec<char>)
    requires
        v@.len() > 0,
    ensures
        r@ == v@.drop_first(),
{
    let mut r: Vec<char> = Vec::new();
    let mut i: usize = 1;
    while i < v.len()
        invariant
            1 <= i <= v@.len(),
            r@ == v@.subrange(1, i as int),
        decreases v.len() - i,
    {
        r.push(v[i]);
        i = i + 1;
    }
    assert(r@ =~= v@.drop_first());
    r
}

fn header_path_of(rest: &[char]) -> (s: String)
    ensures
        s@ == header_path(rest@),
{
    let n = rest.len();
    let pat = chars_of(" b/");
    match find_chars(rest, pat.as_slice()) {
        Some(i) => {
            proof {
                lemma_find_text(rest@, pat@, 0);
            }
            let s = string_of(rest, i + pat.len(), rest.len());
            assert(s@ =~= rest@.skip(i + " b/"@.len()));
            s
        },
        None => string_of(rest, 0, rest.len()),
    }
}

fn without_side_prefix_of(path: &[char]) -> (s: String)
    ensures
        s@ == without_side_prefix(path@),
{
    match strip_prefix_chars(path, "a/") {
        Some(rest) => string_of(rest.as_slice(), 0, rest.len()),
        None => match strip_prefix_chars(path, "b/") {
            Some(rest) => string_of(rest.as_slice(), 0, rest.len()),
            None => string_of(path, 0, path.len()),
        },
    }
}

fn whole(v: &[char]) -> (s: String)
    ensures
        s@ == v@,
{
    let s = string_of(v, 0, v.len());
    assert(s@ =~= v@);
    s
}

fn hunk_line_of(line: &[char], old: u32, new: u32) -> (r: Result<Option<(Line, u32, u32)>, ParseError>)
    ensures
        match r {
            Ok(None) => hunk_line(line@, old, new) == Ok::<
                Option<(LineView, u32, u32)>,
                ParseErrorView,
            >(None),
            Ok(Some((l, o, n))) => hunk_line(line@, old, new) == Ok::<
                Option<(LineView, u32, u32)>,
                ParseErrorView,
            >(Some((l@, o, n))),
            Err(e) => hunk_line(line@, old, new) == Err::<
                Option<(LineView, u32, u32)>,
                ParseErrorView,
            >(e@),
        },
{
    if line.len() == 0 || line[0] >= '\u{80}' {
        return Ok(
            Some(
                (
                    Line { kind: LineKind::Context, old: Some(old), new: Some(new), text: String::new() },
                    next_of(old),
                    next_of(new),
                ),
            ),
        );
    }
    let c = line[0];
    if c == '\\' {
        return Ok(None);
    }
    if c != '+' && c != '-' && c != ' ' {
        return Err(ParseError::LineOutsideHunk(whole(line)));
    }
    let text = string_of(line, 1, line.len());
    assert(text@ =~= line@.drop_first());
    if c == '+' {
        Ok(Some((Line { kind: LineKind::Added, old: None, new: Some(new), text }, old, next_of(new))))
    } else if c == '-' {
        Ok(Some((Line { kind: LineKind::Removed, old: Some(old), new: None, text }, next_of(old), new)))
    } else {
        Ok(
            Some(
                (
                    Line { kind: LineKind::Context, old: Some(old), new: Some(new), text },
                    next_of(old),
                    next_of(new),
                ),
            ),
        )
    }
}

fn step_file(file: &mut FileDiff, line: &[char], old_line: &mut u32, new_line: &mut u32) -> (r: Result<(), ParseError>)
    ensures
        match r {
            Ok(()) => file_step(old(file)@, line@, *old(old_line), *old(new_line)) == Ok::<
                (FileDiffView, u32, u32),
                ParseErrorView,
            >((final(file)@, *final(old_line), *final(new_line))),
            Err(e) => file_step(old(file)@, line@, *old(old_line), *old(new_line)) == Err::<
                (FileDiffView, u32, u32),
                ParseErrorView,
            >(e@),
        },
{
    if let Some(header) = strip_prefix_chars(line, "@@ ") {
        match hunk_starts_of(header.as_slice()) {
            None => {
                return Err(ParseError::BadHunkHeader(whole(line)));
            },
            Some((a, b)) => {
                *old_line = a;
                *new_line = b;
                let hunk = Hunk { header: whole(line), lines: Vec::new() };
                assert(hunk@.lines =~= Seq::<LineView>::empty());
                file.hunks.push(hunk);
                assert(file@.hunks =~= old(file)@.hunks.push(
                    HunkView { header: line@, lines: Seq::empty() },
                ));
                return Ok(());
            },
        }
    }
    if has_prefix_chars(line, "new file mode") {
        file.change = Change::Added;
        return Ok(());
    }
    if has_prefix_chars(line, "deleted file mode") {
        file.change = Change::Deleted;
        return Ok(());
    }
    if let Some(from) = strip_prefix_chars(line, "rename from ") {
        file.change = Change::Renamed { from: whole(from.as_slice()) };
        return Ok(());
    }
    if let Some(to) = strip_prefix_chars(line, "rename to ") {
        file.path = whole(to.as_slice());
        return Ok(());
    }
    if let Some(path) = strip_prefix_chars(line, "--- ") {
        if matches!(file.change, Change::Deleted) {
            file.path = without_side_prefix_of(path.as_slice());
        }
        return Ok(());
    }
    if let Some(path) = strip_prefix_chars(line, "+++ ") {
        let text = whole(path.as_slice());
        if !same_text(text.as_str(), "/dev/null") {
            file.path = without_side_prefix_of(path.as_slice());
        }
        return Ok(());
    }
    if has_prefix_chars(line, "Binary files ") || has_prefix_chars(line, "GIT binary patch") {
        file.binary = true;
        return Ok(());
    }
    if file.hunks.len() > 0 {
        match hunk_line_of(line, *old_line, *new_line) {
            Err(e) => {
                return Err(e);
            },
            Ok(None) => {
                return Ok(());
            },
            Ok(Some((l, o, n))) => {
                let ghost before = file@;
                let mut hunk = file.hunks.pop().unwrap();
                hunk.lines.push(l);
                file.hunks.push(hunk);
                *old_line = o;
                *new_line = n;
                assert(file@.hunks[file@.hunks.len() - 1].lines =~= before.hunks.last().lines.push(l@));
                assert(file@.hunks =~= with_line(before, l@).hunks);
                return Ok(());
            },
        }
    }
    if line.len() > 0 && (line[0] == '+' || line[0] == '-' || line[0] == ' ') {
        return Err(ParseError::LineOutsideHunk(whole(line)));
    }
    Ok(())
}

/// The views of the files read so far.
pub open spec fn file_views(files: Seq<FileDiff>) -> Seq<FileDiffView> {
    files.map_values(|f: FileDiff| f@)
}

fn step(files: &mut Vec<FileDiff>, line: &[char], old_line: &mut u32, new_line: &mut u32) -> (r: Result<(), ParseError>)
    ensures
        match r {
            Ok(()) => parse_step(
                ParseState { files: file_views(old(files)@), old: *old(old_line), new: *old(new_line) },
                line@,
            ) == Ok::<ParseState, ParseErrorView>(
                ParseState {
                    files: file_views(final(files)@),
                    old: *final(old_line),
                    new: *final(new_line),
                },
            ),
            Err(e) => parse_step(
                ParseState { files: file_views(old(files)@), old: *old(old_line), new: *old(new_line) },
                line@,
            ) == Err::<ParseState, ParseErrorView>(e@),
        },
{
    if let Some(rest) = strip_prefix_chars(line, "diff --git ") {
        let file = FileDiff {
            path: header_path_of(rest.as_slice()),
            change: Change::Modified,
            binary: false,
            hunks: Vec::new(),
        };
        files.push(file);
        assert(file_views(files@) =~= file_views(old(files)@).push(file@));
        assert(file@.hunks =~= Seq::<HunkView>::empty());
        return Ok(());
    }
    if files.len() == 0 {
        return Ok(());
    }
    let ghost before = file_views(files@);
    let mut file = files.pop().unwrap();
    let r = step_file(&mut file, line, old_line, new_line);
    files.push(file);
    assert(file_views(files@) =~= before.drop_last().push(file@));
    r
}

fn end_of_line(v: &[char], from: usize) -> (e: usize)
    requires
        from <= v@.len(),
    ensures
        e == line_end(v@, from as int),
        from <= e <= v@.len(),
{
    proof {
        lemma_line_end(v@, from as int);
    }
    let mut i = from;
    while i < v.len() && v[i] != '\n'
        invariant
            from <= i <= v@.len(),
            line_end(v@, from as int) == line_end(v@, i as int),
        decreases v.len() - i,
    {
        i = i + 1;
    }
    i
}

/// Parse the output of `git diff`: a hunk header that cannot be read, or a
/// changed line that arrives before any hunk header, is refused.
pub fn parse(diff: &str) -> (r: Result<Patch, ParseError>)
    ensures
        patch_result(r) == parse_diff(diff@),
{
    let v = chars_of(diff);
    let mut files: Vec<FileDiff> = Vec::new();
    let mut old_line: u32 = 0;
    let mut new_line: u32 = 0;
    let mut pos: usize = 0;
    assert(file_views(files@) =~= Seq::<FileDiffView>::empty());
    while pos < v.len()
        invariant
            pos <= v@.len(),
            v@ == diff@,
            parse_diff(diff@) == parse_from(
                v@,
                pos as int,
                ParseState { files: file_views(files@), old: old_line, new: new_line },
            ),
        decreases v.len() - pos,
    {
        let e = end_of_line(v.as_slice(), pos);
        let mut end = e;
        if end > pos && v[end - 1] == '\r' {
            end = end - 1;
        }
        let mut line: Vec<char> = Vec::new();
        let mut k = pos;
        while k < end
            invariant
                pos <= k <= end <= v@.len(),
                line@ == v@.subrange(pos as int, k as int),
            decreases end - k,
        {
            line.push(v[k]);
            k = k + 1;
        }
        assert(line@ =~= without_cr(v@.subrange(pos as int, e as int)));
        let ghost st = ParseState { files: file_views(files@), old: old_line, new: new_line };
        assert(parse_from(v@, pos as int, st) == match parse_step(st, line@) {
            Err(x) => Err(x),
            Ok(next) => parse_from(v@, e + 1, next),
        });
        match step(&mut files, line.as_slice(), &mut old_line, &mut new_line) {
            Err(x) => {
                return Err(x);
            },
            Ok(()) => {},
        }
        let ghost next = ParseState { files: file_views(files@), old: old_line, new: new_line };
        assert(parse_step(st, line@) == Ok::<ParseState, ParseErrorView>(next));
        assert(parse_from(v@, pos as int, st) == parse_from(v@, e + 1, next));
        pos = if e < v.len() {
            e + 1
        } else {
            e
        };
        assert(parse_from(v@, pos as int, next) == parse_from(v@, e + 1, next));
    }
    let p = Patch { files };
    assert(p@ == file_views(p.files@));
    Ok(p)
}

} // verus!
