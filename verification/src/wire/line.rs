//! The flat line every record serialises to, and the identity it derives.
//!
//! One struct with every field any kind can carry, in the order they appear on
//! disk. Identical records must produce identical bytes so a union merge of
//! two logs deduplicates them, which is why the order here is not a preference.

use vstd::prelude::*;

use crate::digest::{sha256, sha256_digest};
use crate::identity::{Author, RecordId, Sha};
use crate::record::{kind_word, Kind};
use crate::span::{side_word, Anchor, AnchorView};
use crate::timestamp::{timestamp_text, Timestamp};
use crate::json::{json_quoted, lemma_no_line_break_join, lemma_quoted_one_line, no_line_break, quote};
use crate::number::{decimal_int, is_digit, lemma_padded_value, padded, push_int};
use crate::text::{copy_str, is_space, lemma_trimmed_ends};
use vstd::utf8::encode_utf8;

verus! {

/// The shape of the line an agent parses. It changes only with this number.
pub const VERSION: i64 = 1;

/// Short enough to type, long enough not to collide in a repository's worth of
/// annotations.
pub const ID_LENGTH: usize = 12;

/// The wire shape. Field order here is the field order on disk.
#[derive(Debug, Clone, Default, PartialEq, Eq)]
pub struct Line {
    pub v: i64,
    pub kind: String,
    pub id: String,
    pub target: String,
    pub rev: String,
    pub file: String,
    pub side: String,
    pub start: i64,
    pub end: i64,
    pub body: String,
    pub title: String,
    pub surface: String,
    pub before: String,
    pub after: String,
    pub decision: String,
    pub rejected: String,
    pub task: String,
    pub phase: String,
    pub name: String,
    pub status: String,
    pub seconds: i64,
    pub author: String,
    pub at: String,
}

/// What a line says, field by field.
pub struct LineView {
    pub v: i64,
    pub kind: Seq<char>,
    pub id: Seq<char>,
    pub target: Seq<char>,
    pub rev: Seq<char>,
    pub file: Seq<char>,
    pub side: Seq<char>,
    pub start: i64,
    pub end: i64,
    pub body: Seq<char>,
    pub title: Seq<char>,
    pub surface: Seq<char>,
    pub before: Seq<char>,
    pub after: Seq<char>,
    pub decision: Seq<char>,
    pub rejected: Seq<char>,
    pub task: Seq<char>,
    pub phase: Seq<char>,
    pub name: Seq<char>,
    pub status: Seq<char>,
    pub seconds: i64,
    pub author: Seq<char>,
    pub at: Seq<char>,
}

impl View for Line {
    type V = LineView;

    open spec fn view(&self) -> LineView {
        LineView {
            v: self.v,
            kind: self.kind@,
            id: self.id@,
            target: self.target@,
            rev: self.rev@,
            file: self.file@,
            side: self.side@,
            start: self.start,
            end: self.end,
            body: self.body@,
            title: self.title@,
            surface: self.surface@,
            before: self.before@,
            after: self.after@,
            decision: self.decision@,
            rejected: self.rejected@,
            task: self.task@,
            phase: self.phase@,
            name: self.name@,
            status: self.status@,
            seconds: self.seconds,
            author: self.author@,
            at: self.at@,
        }
    }
}

/// The line with every field blank and the current version.
pub open spec fn blank_line() -> LineView {
    LineView {
        v: VERSION,
        kind: Seq::empty(),
        id: Seq::empty(),
        target: Seq::empty(),
        rev: Seq::empty(),
        file: Seq::empty(),
        side: Seq::empty(),
        start: 0,
        end: 0,
        body: Seq::empty(),
        title: Seq::empty(),
        surface: Seq::empty(),
        before: Seq::empty(),
        after: Seq::empty(),
        decision: Seq::empty(),
        rejected: Seq::empty(),
        task: Seq::empty(),
        phase: Seq::empty(),
        name: Seq::empty(),
        status: Seq::empty(),
        seconds: 0,
        author: Seq::empty(),
        at: Seq::empty(),
    }
}

/// A text field, or nothing when it is blank.
pub open spec fn text_field(key: Seq<char>, value: Seq<char>) -> Seq<char> {
    if value.len() == 0 {
        Seq::empty()
    } else {
        key + json_quoted(value)
    }
}

/// A number field, or nothing when it is zero.
pub open spec fn number_field(key: Seq<char>, value: i64) -> Seq<char> {
    if value == 0 {
        Seq::empty()
    } else {
        key + decimal_int(value as int)
    }
}

/// The bytes of a line on disk: every field in order, blank text and zero
/// numbers left out, except the version, kind, id, author and moment, which
/// are always written.
pub open spec fn render_line(l: LineView) -> Seq<char> {
    "{\"v\":"@ + decimal_int(l.v as int) + ",\"kind\":"@ + json_quoted(l.kind) + ",\"id\":"@
        + json_quoted(l.id) + text_field(",\"target\":"@, l.target) + text_field(
        ",\"rev\":"@,
        l.rev,
    ) + text_field(",\"file\":"@, l.file) + text_field(",\"side\":"@, l.side) + number_field(
        ",\"start\":"@,
        l.start,
    ) + number_field(",\"end\":"@, l.end) + text_field(",\"body\":"@, l.body) + text_field(
        ",\"title\":"@,
        l.title,
    ) + text_field(",\"surface\":"@, l.surface) + text_field(",\"before\":"@, l.before)
        + text_field(",\"after\":"@, l.after) + text_field(",\"decision\":"@, l.decision)
        + text_field(",\"rejected\":"@, l.rejected) + text_field(",\"task\":"@, l.task)
        + text_field(",\"phase\":"@, l.phase) + text_field(",\"name\":"@, l.name) + text_field(
        ",\"status\":"@,
        l.status,
    ) + number_field(",\"seconds\":"@, l.seconds) + ",\"author\":"@ + json_quoted(l.author)
        + ",\"at\":"@ + json_quoted(l.at) + "}"@
}

/// Whether a text holds no line break, read from its end.
pub open spec fn breakless(s: Seq<char>) -> bool
    decreases s.len(),
{
    s.len() == 0 || (s.last() != '\n' && s.last() != '\r' && breakless(s.drop_last()))
}

proof fn lemma_breakless(s: Seq<char>)
    requires
        breakless(s),
    ensures
        no_line_break(s),
    decreases s.len(),
{
    if s.len() > 0 {
        lemma_breakless(s.drop_last());
        assert forall|i: int| 0 <= i < s.len() implies #[trigger] s[i] != '\n' && s[i] != '\r' by {
            if i < s.len() - 1 {
                assert(s[i] == s.drop_last()[i]);
            }
        }
    }
}

/// The keys and braces of both logs hold no line break.
pub(crate) proof fn lemma_keys_one_line()
    ensures
        no_line_break(",\"after\":"@),
        no_line_break(",\"at\":"@),
        no_line_break(",\"author\":"@),
        no_line_break(",\"base\":"@),
        no_line_break(",\"before\":"@),
        no_line_break(",\"body\":"@),
        no_line_break(",\"decision\":"@),
        no_line_break(",\"end\":"@),
        no_line_break(",\"file\":"@),
        no_line_break(",\"id\":"@),
        no_line_break(",\"kind\":"@),
        no_line_break(",\"name\":"@),
        no_line_break(",\"phase\":"@),
        no_line_break(",\"rejected\":"@),
        no_line_break(",\"rev\":"@),
        no_line_break(",\"seconds\":"@),
        no_line_break(",\"side\":"@),
        no_line_break(",\"start\":"@),
        no_line_break(",\"status\":"@),
        no_line_break(",\"surface\":"@),
        no_line_break(",\"target\":"@),
        no_line_break(",\"task\":"@),
        no_line_break(",\"title\":"@),
        no_line_break("{\"v\":"@),
        no_line_break("}"@),
{
    reveal_strlit(",\"after\":");
    reveal_strlit(",\"at\":");
    reveal_strlit(",\"author\":");
    reveal_strlit(",\"base\":");
    reveal_strlit(",\"before\":");
    reveal_strlit(",\"body\":");
    reveal_strlit(",\"decision\":");
    reveal_strlit(",\"end\":");
    reveal_strlit(",\"file\":");
    reveal_strlit(",\"id\":");
    reveal_strlit(",\"kind\":");
    reveal_strlit(",\"name\":");
    reveal_strlit(",\"phase\":");
    reveal_strlit(",\"rejected\":");
    reveal_strlit(",\"rev\":");
    reveal_strlit(",\"seconds\":");
    reveal_strlit(",\"side\":");
    reveal_strlit(",\"start\":");
    reveal_strlit(",\"status\":");
    reveal_strlit(",\"surface\":");
    reveal_strlit(",\"target\":");
    reveal_strlit(",\"task\":");
    reveal_strlit(",\"title\":");
    reveal_strlit("{\"v\":");
    reveal_strlit("}");
    reveal_with_fuel(breakless, 14);
    lemma_breakless(",\"after\":"@);
    lemma_breakless(",\"at\":"@);
    lemma_breakless(",\"author\":"@);
    lemma_breakless(",\"base\":"@);
    lemma_breakless(",\"before\":"@);
    lemma_breakless(",\"body\":"@);
    lemma_breakless(",\"decision\":"@);
    lemma_breakless(",\"end\":"@);
    lemma_breakless(",\"file\":"@);
    lemma_breakless(",\"id\":"@);
    lemma_breakless(",\"kind\":"@);
    lemma_breakless(",\"name\":"@);
    lemma_breakless(",\"phase\":"@);
    lemma_breakless(",\"rejected\":"@);
    lemma_breakless(",\"rev\":"@);
    lemma_breakless(",\"seconds\":"@);
    lemma_breakless(",\"side\":"@);
    lemma_breakless(",\"start\":"@);
    lemma_breakless(",\"status\":"@);
    lemma_breakless(",\"surface\":"@);
    lemma_breakless(",\"target\":"@);
    lemma_breakless(",\"task\":"@);
    lemma_breakless(",\"title\":"@);
    lemma_breakless("{\"v\":"@);
    lemma_breakless("}"@);
}

/// A number in decimal holds no line break.
pub(crate) proof fn lemma_decimal_int_one_line(n: int)
    ensures
        no_line_break(decimal_int(n)),
{
    let m: nat = if n < 0 { (-n) as nat } else { n as nat };
    let w: int = if n < 0 { -1 } else { 0 };
    lemma_padded_value(m, w);
    let d = padded(m, w);
    assert(no_line_break(d)) by {
        assert forall|i: int| 0 <= i < d.len() implies #[trigger] d[i] != '\n' && d[i] != '\r' by {
            assert(is_digit(d[i]));
        }
    }
    if n < 0 {
        assert(no_line_break(seq!['-']));
        lemma_no_line_break_join(seq!['-'], d);
    }
}

/// A text field holds no line break when its key holds none.
pub(crate) proof fn lemma_text_field_one_line(key: Seq<char>, value: Seq<char>)
    requires
        no_line_break(key),
    ensures
        no_line_break(text_field(key, value)),
{
    if value.len() > 0 {
        lemma_quoted_one_line(value);
        lemma_no_line_break_join(key, json_quoted(value));
    }
}

/// A number field holds no line break when its key holds none.
proof fn lemma_number_field_one_line(key: Seq<char>, value: i64)
    requires
        no_line_break(key),
    ensures
        no_line_break(number_field(key, value)),
{
    if value != 0 {
        lemma_decimal_int_one_line(value as int);
        lemma_no_line_break_join(key, decimal_int(value as int));
    }
}

/// Whatever a line holds, it is written as one line: no field can carry a
/// line feed or a carriage return onto the disk, so one record is one line
/// of the log.
pub proof fn law_a_line_is_one_line(l: LineView)
    ensures
        no_line_break(render_line(l)),
{
    lemma_keys_one_line();
    lemma_decimal_int_one_line(l.v as int);
    lemma_quoted_one_line(l.kind);
    lemma_quoted_one_line(l.id);
    lemma_text_field_one_line(",\"target\":"@, l.target);
    lemma_text_field_one_line(",\"rev\":"@, l.rev);
    lemma_text_field_one_line(",\"file\":"@, l.file);
    lemma_text_field_one_line(",\"side\":"@, l.side);
    lemma_number_field_one_line(",\"start\":"@, l.start);
    lemma_number_field_one_line(",\"end\":"@, l.end);
    lemma_text_field_one_line(",\"body\":"@, l.body);
    lemma_text_field_one_line(",\"title\":"@, l.title);
    lemma_text_field_one_line(",\"surface\":"@, l.surface);
    lemma_text_field_one_line(",\"before\":"@, l.before);
    lemma_text_field_one_line(",\"after\":"@, l.after);
    lemma_text_field_one_line(",\"decision\":"@, l.decision);
    lemma_text_field_one_line(",\"rejected\":"@, l.rejected);
    lemma_text_field_one_line(",\"task\":"@, l.task);
    lemma_text_field_one_line(",\"phase\":"@, l.phase);
    lemma_text_field_one_line(",\"name\":"@, l.name);
    lemma_text_field_one_line(",\"status\":"@, l.status);
    lemma_number_field_one_line(",\"seconds\":"@, l.seconds);
    lemma_quoted_one_line(l.author);
    lemma_quoted_one_line(l.at);
    let p0 = "{\"v\":"@;
    lemma_no_line_break_join(p0, decimal_int(l.v as int));
    let p1 = p0 + decimal_int(l.v as int);
    lemma_no_line_break_join(p1, ",\"kind\":"@);
    let p2 = p1 + ",\"kind\":"@;
    lemma_no_line_break_join(p2, json_quoted(l.kind));
    let p3 = p2 + json_quoted(l.kind);
    lemma_no_line_break_join(p3, ",\"id\":"@);
    let p4 = p3 + ",\"id\":"@;
    lemma_no_line_break_join(p4, json_quoted(l.id));
    let p5 = p4 + json_quoted(l.id);
    lemma_no_line_break_join(p5, text_field(",\"target\":"@, l.target));
    let p6 = p5 + text_field(",\"target\":"@, l.target);
    lemma_no_line_break_join(p6, text_field(",\"rev\":"@, l.rev));
    let p7 = p6 + text_field(",\"rev\":"@, l.rev);
    lemma_no_line_break_join(p7, text_field(",\"file\":"@, l.file));
    let p8 = p7 + text_field(",\"file\":"@, l.file);
    lemma_no_line_break_join(p8, text_field(",\"side\":"@, l.side));
    let p9 = p8 + text_field(",\"side\":"@, l.side);
    lemma_no_line_break_join(p9, number_field(",\"start\":"@, l.start));
    let p10 = p9 + number_field(",\"start\":"@, l.start);
    lemma_no_line_break_join(p10, number_field(",\"end\":"@, l.end));
    let p11 = p10 + number_field(",\"end\":"@, l.end);
    lemma_no_line_break_join(p11, text_field(",\"body\":"@, l.body));
    let p12 = p11 + text_field(",\"body\":"@, l.body);
    lemma_no_line_break_join(p12, text_field(",\"title\":"@, l.title));
    let p13 = p12 + text_field(",\"title\":"@, l.title);
    lemma_no_line_break_join(p13, text_field(",\"surface\":"@, l.surface));
    let p14 = p13 + text_field(",\"surface\":"@, l.surface);
    lemma_no_line_break_join(p14, text_field(",\"before\":"@, l.before));
    let p15 = p14 + text_field(",\"before\":"@, l.before);
    lemma_no_line_break_join(p15, text_field(",\"after\":"@, l.after));
    let p16 = p15 + text_field(",\"after\":"@, l.after);
    lemma_no_line_break_join(p16, text_field(",\"decision\":"@, l.decision));
    let p17 = p16 + text_field(",\"decision\":"@, l.decision);
    lemma_no_line_break_join(p17, text_field(",\"rejected\":"@, l.rejected));
    let p18 = p17 + text_field(",\"rejected\":"@, l.rejected);
    lemma_no_line_break_join(p18, text_field(",\"task\":"@, l.task));
    let p19 = p18 + text_field(",\"task\":"@, l.task);
    lemma_no_line_break_join(p19, text_field(",\"phase\":"@, l.phase));
    let p20 = p19 + text_field(",\"phase\":"@, l.phase);
    lemma_no_line_break_join(p20, text_field(",\"name\":"@, l.name));
    let p21 = p20 + text_field(",\"name\":"@, l.name);
    lemma_no_line_break_join(p21, text_field(",\"status\":"@, l.status));
    let p22 = p21 + text_field(",\"status\":"@, l.status);
    lemma_no_line_break_join(p22, number_field(",\"seconds\":"@, l.seconds));
    let p23 = p22 + number_field(",\"seconds\":"@, l.seconds);
    lemma_no_line_break_join(p23, ",\"author\":"@);
    let p24 = p23 + ",\"author\":"@;
    lemma_no_line_break_join(p24, json_quoted(l.author));
    let p25 = p24 + json_quoted(l.author);
    lemma_no_line_break_join(p25, ",\"at\":"@);
    let p26 = p25 + ",\"at\":"@;
    lemma_no_line_break_join(p26, json_quoted(l.at));
    let p27 = p26 + json_quoted(l.at);
    lemma_no_line_break_join(p27, "}"@);
    let p28 = p27 + "}"@;
    assert(p28 == render_line(l));
}

/// A lowercase hex digit.
pub open spec fn hex_char(n: int) -> char {
    if n < 10 {
        crate::number::digit_char(n)
    } else if n == 10 {
        'a'
    } else if n == 11 {
        'b'
    } else if n == 12 {
        'c'
    } else if n == 13 {
        'd'
    } else if n == 14 {
        'e'
    } else {
        'f'
    }
}

/// Bytes in lowercase hex, two characters each.
pub open spec fn hex(bytes: Seq<u8>) -> Seq<char>
    decreases bytes.len(),
{
    if bytes.len() == 0 {
        Seq::empty()
    } else {
        hex(bytes.drop_last()) + seq![
            hex_char(bytes.last() as int / 16),
            hex_char(bytes.last() as int % 16),
        ]
    }
}

/// The identity of a line: the first twelve hex characters of the SHA-256 of
/// its UTF-8 bytes.
pub open spec fn line_id(line: Seq<char>) -> Seq<char> {
    digest_id(sha256(encode_utf8(line)))
}

/// The identity a digest gives: its first six bytes in lowercase hex, or all
/// of it when it is shorter.
pub open spec fn digest_id(digest: Seq<u8>) -> Seq<char> {
    if digest.len() < ID_LENGTH / 2 {
        hex(digest)
    } else {
        hex(digest.take((ID_LENGTH / 2) as int))
    }
}

fn hex_digit(n: u8) -> (c: char)
    requires
        n < 16,
    ensures
        c == hex_char(n as int),
{
    if n < 10 {
        crate::number::digit(n as u64)
    } else if n == 10 {
        'a'
    } else if n == 11 {
        'b'
    } else if n == 12 {
        'c'
    } else if n == 13 {
        'd'
    } else if n == 14 {
        'e'
    } else {
        'f'
    }
}

/// Name a record after what is inside it, the way git names a blob.
///
/// The argument is the record serialised with its `id` field set to the empty
/// string; the answer is the first twelve hex characters of its SHA-256.
pub fn derive_id(line: &str) -> (id: RecordId)
    ensures
        id@ == line_id(line@),
        id@.len() == ID_LENGTH,
{
    let digest = sha256_digest(line.as_bytes());
    id_of_digest(digest.as_slice())
}

/// Hex characters are never white space.
proof fn lemma_hex_chars(bytes: Seq<u8>)
    ensures
        hex(bytes).len() == 2 * bytes.len(),
        forall|i: int| 0 <= i < hex(bytes).len() ==> !is_space(#[trigger] hex(bytes)[i]),
    decreases bytes.len(),
{
    if bytes.len() > 0 {
        lemma_hex_chars(bytes.drop_last());
        let h = hex(bytes);
        let p = hex(bytes.drop_last());
        assert forall|i: int| 0 <= i < h.len() implies !is_space(#[trigger] h[i]) by {
            if i < p.len() {
                assert(h[i] == p[i]);
            } else {
                let n: int = if i == p.len() { bytes.last() as int / 16 } else { bytes.last() as int % 16 };
                assert(h[i] == hex_char(n));
                assert(0 <= n < 16);
            }
        }
    }
}

/// The identity a digest gives: its first twelve hex characters.
pub fn id_of_digest(digest: &[u8]) -> (id: RecordId)
    requires
        digest@.len() >= ID_LENGTH / 2,
    ensures
        id@ == digest_id(digest@),
        id@.len() == ID_LENGTH,
{
    let end = if digest.len() < ID_LENGTH / 2 {
        digest.len()
    } else {
        ID_LENGTH / 2
    };
    let mut text = String::new();
    let mut i: usize = 0;
    while i < end
        invariant
            i <= end <= digest@.len(),
            digest@.len() < ID_LENGTH / 2 ==> end == digest@.len(),
            digest@.len() >= ID_LENGTH / 2 ==> end == ID_LENGTH / 2,
            text@ == hex(digest@.take(i as int)),
        decreases end - i,
    {
        let byte = digest[i];
        text.push(hex_digit(byte / 16));
        text.push(hex_digit(byte % 16));
        assert(digest@.take(i + 1).drop_last() =~= digest@.take(i as int));
        i = i + 1;
    }
    assert(digest@.len() < ID_LENGTH / 2 ==> digest@.take(end as int) =~= digest@);
    proof {
        lemma_hex_chars(digest@.take(end as int));
        lemma_trimmed_ends(text@);
    }
    RecordId::from_derived(text)
}

pub(crate) fn push_text_field(out: &mut String, key: &str, value: &str)
    ensures
        final(out)@ == old(out)@ + text_field(key@, value@),
{
    if !value.is_empty() {
        out.append(key);
        let q = quote(value);
        out.append(q.as_str());
        assert(out@ =~= old(out)@ + text_field(key@, value@));
    } else {
        assert(out@ =~= old(out)@ + text_field(key@, value@));
    }
}

fn push_number_field(out: &mut String, key: &str, value: i64)
    ensures
        final(out)@ == old(out)@ + number_field(key@, value),
{
    if value != 0 {
        out.append(key);
        push_int(out, value);
        assert(out@ =~= old(out)@ + number_field(key@, value));
    } else {
        assert(out@ =~= old(out)@ + number_field(key@, value));
    }
}

pub(crate) fn push_quoted(out: &mut String, key: &str, value: &str)
    ensures
        final(out)@ == old(out)@ + key@ + json_quoted(value@),
{
    out.append(key);
    let q = quote(value);
    out.append(q.as_str());
}

impl Line {
    /// The line with every field blank and the current version.
    pub fn blank() -> (l: Line)
        ensures
            l@ == blank_line(),
    {
        Line {
            v: VERSION,
            kind: String::new(),
            id: String::new(),
            target: String::new(),
            rev: String::new(),
            file: String::new(),
            side: String::new(),
            start: 0,
            end: 0,
            body: String::new(),
            title: String::new(),
            surface: String::new(),
            before: String::new(),
            after: String::new(),
            decision: String::new(),
            rejected: String::new(),
            task: String::new(),
            phase: String::new(),
            name: String::new(),
            status: String::new(),
            seconds: 0,
            author: String::new(),
            at: String::new(),
        }
    }

    /// Serialise a line, fields in their order on disk.
    pub fn render(&self) -> (s: String)
        ensures
            s@ == render_line(self@),
    {
        let mut s = copy_str("{\"v\":");
        push_int(&mut s, self.v);
        push_quoted(&mut s, ",\"kind\":", self.kind.as_str());
        push_quoted(&mut s, ",\"id\":", self.id.as_str());
        push_text_field(&mut s, ",\"target\":", self.target.as_str());
        push_text_field(&mut s, ",\"rev\":", self.rev.as_str());
        push_text_field(&mut s, ",\"file\":", self.file.as_str());
        push_text_field(&mut s, ",\"side\":", self.side.as_str());
        push_number_field(&mut s, ",\"start\":", self.start);
        push_number_field(&mut s, ",\"end\":", self.end);
        push_text_field(&mut s, ",\"body\":", self.body.as_str());
        push_text_field(&mut s, ",\"title\":", self.title.as_str());
        push_text_field(&mut s, ",\"surface\":", self.surface.as_str());
        push_text_field(&mut s, ",\"before\":", self.before.as_str());
        push_text_field(&mut s, ",\"after\":", self.after.as_str());
        push_text_field(&mut s, ",\"decision\":", self.decision.as_str());
        push_text_field(&mut s, ",\"rejected\":", self.rejected.as_str());
        push_text_field(&mut s, ",\"task\":", self.task.as_str());
        push_text_field(&mut s, ",\"phase\":", self.phase.as_str());
        push_text_field(&mut s, ",\"name\":", self.name.as_str());
        push_text_field(&mut s, ",\"status\":", self.status.as_str());
        push_number_field(&mut s, ",\"seconds\":", self.seconds);
        push_quoted(&mut s, ",\"author\":", self.author.as_str());
        push_quoted(&mut s, ",\"at\":", self.at.as_str());
        s.append("}");
        assert(s@ =~= render_line(self@));
        s
    }
}


/// The line a comment or a rationale serialises to.
pub open spec fn note_line_view(
    kind: Kind,
    id: Seq<char>,
    revision: Seq<char>,
    anchor: AnchorView,
    body: Seq<char>,
    author: Seq<char>,
    at: i64,
) -> LineView {
    LineView {
        kind: kind_word(kind),
        id,
        rev: revision,
        file: anchor.file,
        side: side_word(anchor.span.side),
        start: anchor.span.start as i64,
        end: anchor.span.end as i64,
        body,
        author,
        at: timestamp_text(at as int),
        ..blank_line()
    }
}

/// The line a reply serialises to.
pub open spec fn reply_line_view(
    id: Seq<char>,
    target: Seq<char>,
    revision: Seq<char>,
    body: Seq<char>,
    author: Seq<char>,
    at: i64,
) -> LineView {
    LineView {
        kind: kind_word(Kind::Reply),
        id,
        target,
        rev: revision,
        body,
        author,
        at: timestamp_text(at as int),
        ..blank_line()
    }
}

/// The line a resolution serialises to.
pub open spec fn resolution_line_view(
    id: Seq<char>,
    target: Seq<char>,
    author: Seq<char>,
    at: i64,
) -> LineView {
    LineView {
        kind: kind_word(Kind::Resolve),
        id,
        target,
        author,
        at: timestamp_text(at as int),
        ..blank_line()
    }
}

/// The identity of a comment or a rationale: its line, with a blank id, hashed.
pub open spec fn note_id_of(
    kind: Kind,
    revision: Seq<char>,
    anchor: AnchorView,
    body: Seq<char>,
    author: Seq<char>,
    at: i64,
) -> Seq<char> {
    line_id(render_line(note_line_view(kind, Seq::empty(), revision, anchor, body, author, at)))
}

/// The identity of a reply.
pub open spec fn reply_id_of(
    target: Seq<char>,
    revision: Seq<char>,
    body: Seq<char>,
    author: Seq<char>,
    at: i64,
) -> Seq<char> {
    line_id(render_line(reply_line_view(Seq::empty(), target, revision, body, author, at)))
}

/// The identity of a resolution.
pub open spec fn resolution_id_of(target: Seq<char>, author: Seq<char>, at: i64) -> Seq<char> {
    line_id(render_line(resolution_line_view(Seq::empty(), target, author, at)))
}

/// The line a comment or a rationale serialises to.
pub fn note_line(
    kind: Kind,
    id: &str,
    revision: &Sha,
    anchor: &Anchor,
    body: &str,
    author: &Author,
    at: Timestamp,
) -> (l: Line)
    ensures
        l@ == note_line_view(kind, id@, revision@, anchor@, body@, author@, at@),
{
    let mut l = Line::blank();
    l.kind = copy_str(kind.as_str());
    l.id = copy_str(id);
    l.rev = copy_str(revision.as_str());
    l.file = copy_str(anchor.file().as_str());
    l.side = copy_str(anchor.span().side().as_str());
    l.start = anchor.span().start() as i64;
    l.end = anchor.span().end() as i64;
    l.body = copy_str(body);
    l.author = copy_str(author.as_str());
    l.at = at.to_string();
    l
}

/// The line a reply serialises to.
pub fn reply_line(
    id: &str,
    target: &RecordId,
    revision: &Sha,
    body: &str,
    author: &Author,
    at: Timestamp,
) -> (l: Line)
    ensures
        l@ == reply_line_view(id@, target@, revision@, body@, author@, at@),
{
    let mut l = Line::blank();
    l.kind = copy_str(Kind::Reply.as_str());
    l.id = copy_str(id);
    l.target = copy_str(target.as_str());
    l.rev = copy_str(revision.as_str());
    l.body = copy_str(body);
    l.author = copy_str(author.as_str());
    l.at = at.to_string();
    l
}

/// The line a resolution serialises to.
pub fn resolution_line(id: &str, target: &RecordId, author: &Author, at: Timestamp) -> (l: Line)
    ensures
        l@ == resolution_line_view(id@, target@, author@, at@),
{
    let mut l = Line::blank();
    l.kind = copy_str(Kind::Resolve.as_str());
    l.id = copy_str(id);
    l.target = copy_str(target.as_str());
    l.author = copy_str(author.as_str());
    l.at = at.to_string();
    l
}

/// The identity of a comment or a rationale.
pub fn note_id(
    kind: Kind,
    revision: &Sha,
    anchor: &Anchor,
    body: &str,
    author: &Author,
    at: Timestamp,
) -> (id: RecordId)
    ensures
        id@ == note_id_of(kind, revision@, anchor@, body@, author@, at@),
{
    let blank = String::new();
    derive_id(note_line(kind, blank.as_str(), revision, anchor, body, author, at).render().as_str())
}

/// The identity of a reply.
pub fn reply_id(target: &RecordId, revision: &Sha, body: &str, author: &Author, at: Timestamp) -> (id:
    RecordId)
    ensures
        id@ == reply_id_of(target@, revision@, body@, author@, at@),
{
    let blank = String::new();
    derive_id(reply_line(blank.as_str(), target, revision, body, author, at).render().as_str())
}

/// The identity of a resolution.
pub fn resolution_id(target: &RecordId, author: &Author, at: Timestamp) -> (id: RecordId)
    ensures
        id@ == resolution_id_of(target@, author@, at@),
{
    let blank = String::new();
    derive_id(resolution_line(blank.as_str(), target, author, at).render().as_str())
}

} // verus!
