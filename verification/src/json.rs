//! A string as a JSON string literal, quoted and escaped.

use vstd::prelude::*;

use crate::wire::line::hex_char;

verus! {

/// What `serde_json` writes for one character of a string: a quote and a
/// backslash behind a backslash, the control characters below U+0020 by
/// their short names where JSON has one and as `\u00XX` in lowercase hex
/// otherwise, and every other character as it is.
pub open spec fn json_escape_char(c: char) -> Seq<char> {
    if c == '"' {
        seq!['\\', '"']
    } else if c == '\\' {
        seq!['\\', '\\']
    } else if c == '\u{8}' {
        seq!['\\', 'b']
    } else if c == '\t' {
        seq!['\\', 't']
    } else if c == '\n' {
        seq!['\\', 'n']
    } else if c == '\u{c}' {
        seq!['\\', 'f']
    } else if c == '\r' {
        seq!['\\', 'r']
    } else if (c as u32) < 0x20 {
        seq!['\\', 'u', '0', '0', hex_char(c as int / 16), hex_char(c as int % 16)]
    } else {
        seq![c]
    }
}

/// Every character of a text escaped, in order.
pub open spec fn json_escape(s: Seq<char>) -> Seq<char>
    decreases s.len(),
{
    if s.len() == 0 {
        Seq::empty()
    } else {
        json_escape(s.drop_last()) + json_escape_char(s.last())
    }
}

/// The JSON string literal for a text: its escape between double quotes.
#[verifier::opaque]
pub open spec fn json_quoted(s: Seq<char>) -> Seq<char> {
    seq!['"'] + json_escape(s) + seq!['"']
}

/// `serde_json::to_string` on a `str`. Trusted: the result is the text
/// between double quotes with each character escaped as `serde_json`'s
/// escape table and `write_char_escape` do it. Serialising a `str` cannot
/// fail, so the error arm is never taken.
#[verifier::external_body]
pub(crate) fn quote(s: &str) -> (q: String)
    ensures
        q@ == json_quoted(s@),
{
    serde_json::to_string(s).unwrap_or_default()
}

/// Whether a text holds no line feed and no carriage return.
pub open spec fn no_line_break(s: Seq<char>) -> bool {
    forall|i: int| 0 <= i < s.len() ==> #[trigger] s[i] != '\n' && s[i] != '\r'
}

/// Two texts without a line break joined are still without one.
pub proof fn lemma_no_line_break_join(a: Seq<char>, b: Seq<char>)
    requires
        no_line_break(a),
        no_line_break(b),
    ensures
        no_line_break(a + b),
{
    assert forall|i: int| 0 <= i < (a + b).len() implies #[trigger] (a + b)[i] != '\n' && (a
        + b)[i] != '\r' by {
        if i < a.len() {
            assert((a + b)[i] == a[i]);
        } else {
            assert((a + b)[i] == b[i - a.len()]);
        }
    }
}

/// An escape never holds a raw line break.
proof fn lemma_escape_char_one_line(c: char)
    ensures
        no_line_break(json_escape_char(c)),
{
    let e = json_escape_char(c);
    if (c as u32) < 0x20 && c != '"' && c != '\\' && c != '\u{8}' && c != '\t' && c != '\n' && c
        != '\u{c}' && c != '\r' {
        assert(e[4] == hex_char(c as int / 16));
        assert(e[5] == hex_char(c as int % 16));
    }
    assert forall|i: int| 0 <= i < e.len() implies #[trigger] e[i] != '\n' && e[i] != '\r' by {
        if (c as u32) < 0x20 && c != '"' && c != '\\' && c != '\u{8}' && c != '\t' && c != '\n'
            && c != '\u{c}' && c != '\r' && i >= 4 {
            let n: int = if i == 4 { c as int / 16 } else { c as int % 16 };
            assert(0 <= n < 16);
            assert(e[i] == hex_char(n));
        }
    }
}

/// A JSON string literal is always one line: every line feed and carriage
/// return of the text is escaped.
pub proof fn lemma_quoted_one_line(s: Seq<char>)
    ensures
        no_line_break(json_quoted(s)),
    decreases s.len(),
{
    reveal(json_quoted);
    lemma_escape_one_line(s);
    assert(no_line_break(seq!['"']));
    lemma_no_line_break_join(seq!['"'], json_escape(s));
    lemma_no_line_break_join(seq!['"'] + json_escape(s), seq!['"']);
}

proof fn lemma_escape_one_line(s: Seq<char>)
    ensures
        no_line_break(json_escape(s)),
    decreases s.len(),
{
    if s.len() > 0 {
        lemma_escape_one_line(s.drop_last());
        lemma_escape_char_one_line(s.last());
        lemma_no_line_break_join(json_escape(s.drop_last()), json_escape_char(s.last()));
    }
}

} // verus!
