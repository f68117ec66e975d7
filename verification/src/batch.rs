//! What git prints when the notes are read: the `notes list` columns and the
//! `cat-file --batch` framing.
//!
//! Running git is the caller's business; reading what it printed is a format
//! like any other, and is this module's.

use vstd::prelude::*;
use vstd::utf8::{decode_utf8, valid_utf8};

use crate::patch::{find_text, line_end};
use crate::text::{chars_of, string_of};

verus! {

/// `String::from_utf8`: the text the bytes spell when they are UTF-8.
/// Trusted: as std documents it, the bytes are refused exactly when they are
/// not valid UTF-8, and otherwise decoded as they are.
#[verifier::external_body]
fn utf8(bytes: &[u8]) -> (r: Option<String>)
    ensures
        match r {
            Some(s) => valid_utf8(bytes@) && s@ == decode_utf8(bytes@),
            None => !valid_utf8(bytes@),
        },
{
    String::from_utf8(bytes.to_vec()).ok()
}

/// The lines of a text from `pos` on, as `str::lines` splits them: at each
/// line feed, a carriage return before it dropped, no empty line after a
/// final line feed.
pub open spec fn lines_from(s: Seq<char>, pos: int) -> Seq<Seq<char>>
    decreases s.len() + 1 - pos,
{
    if pos < 0 || pos >= s.len() {
        Seq::empty()
    } else {
        let e = line_end(s, pos);
        proof {
            crate::patch::lemma_line_end(s, pos);
        }
        let raw = s.subrange(pos, e);
        let line = if e < s.len() && raw.len() > 0 && raw.last() == '\r' {
            raw.drop_last()
        } else {
            raw
        };
        seq![line] + lines_from(s, e + 1)
    }
}

/// The two columns of a line, split at its first space.
pub open spec fn split_at_space(line: Seq<char>) -> Option<(Seq<char>, Seq<char>)> {
    match find_text(line, seq![' '], 0) {
        Some(i) => Some((line.take(i), line.skip(i + 1))),
        None => None,
    }
}

/// The (note blob, annotated object) pairs of `notes list` output, in order:
/// every line that has a space in it.
pub open spec fn columns_of(lines: Seq<Seq<char>>) -> Seq<(Seq<char>, Seq<char>)>
    decreases lines.len(),
{
    if lines.len() == 0 {
        Seq::empty()
    } else {
        match split_at_space(lines.last()) {
            Some(pair) => columns_of(lines.drop_last()).push(pair),
            None => columns_of(lines.drop_last()),
        }
    }
}

/// Pairs of texts as characters.
pub open spec fn pair_views(v: Seq<(String, String)>) -> Seq<(Seq<char>, Seq<char>)> {
    v.map_values(|p: (String, String)| (p.0@, p.1@))
}

/// Split `notes list` output into its two columns.
pub fn columns(listing: &str) -> (v: Vec<(String, String)>)
    ensures
        pair_views(v@) == columns_of(lines_from(listing@, 0)),
{
    let chars = chars_of(listing);
    let mut v: Vec<(String, String)> = Vec::new();
    let mut pos: usize = 0;
    let ghost done: Seq<Seq<char>> = Seq::empty();
    assert(pair_views(v@) =~= columns_of(done));
    while pos < chars.len()
        invariant
            pos <= chars@.len(),
            chars@ == listing@,
            lines_from(listing@, 0) == done + lines_from(chars@, pos as int),
            pair_views(v@) == columns_of(done),
        decreases chars.len() - pos,
    {
        proof {
            crate::patch::lemma_line_end(chars@, pos as int);
        }
        let mut e = pos;
        while e < chars.len() && chars[e] != '\n'
            invariant
                pos <= e <= chars@.len(),
                line_end(chars@, pos as int) == line_end(chars@, e as int),
            decreases chars.len() - e,
        {
            e = e + 1;
        }
        let mut end = e;
        if e < chars.len() && end > pos && chars[end - 1] == '\r' {
            end = end - 1;
        }
        let ghost line = chars@.subrange(pos as int, end as int);
        assert(line == (if e < chars@.len() && chars@.subrange(pos as int, e as int).len() > 0
            && chars@.subrange(pos as int, e as int).last() == '\r' {
            chars@.subrange(pos as int, e as int).drop_last()
        } else {
            chars@.subrange(pos as int, e as int)
        }));
        let mut k = pos;
        while k < end && chars[k] != ' '
            invariant
                pos <= k <= end <= chars@.len(),
                line == chars@.subrange(pos as int, end as int),
                find_text(line, seq![' '], 0) == find_text(line, seq![' '], k - pos),
            decreases end - k,
        {
            assert(line.subrange(k - pos, k - pos + 1) =~= seq![chars@[k as int]]);
            assert(seq![' '].len() == 1);
            assert(line.subrange(k - pos, k - pos + 1)[0] != seq![' '][0]);
            assert(find_text(line, seq![' '], k - pos) == find_text(line, seq![' '], k - pos + 1));
            k = k + 1;
        }
        let ghost before = pair_views(v@);
        if k < end {
            assert(line.subrange(k - pos, k - pos + 1) =~= seq![' ']);
            let blob = string_of(chars.as_slice(), pos, k);
            let object = string_of(chars.as_slice(), k + 1, end);
            assert(blob@ =~= line.take(k - pos));
            assert(object@ =~= line.skip(k - pos + 1));
            v.push((blob, object));
            assert(pair_views(v@) =~= before.push((blob@, object@)));
        } else {
            assert(find_text(line, seq![' '], k - pos) is None);
        }
        proof {
            assert((done.push(line)).drop_last() =~= done);
            assert(lines_from(chars@, pos as int) == seq![line] + lines_from(chars@, e + 1));
            assert(done + lines_from(chars@, pos as int) =~= done.push(line) + lines_from(
                chars@,
                e + 1,
            ));
            done = done.push(line);
        }
        pos = if e < chars.len() {
            e + 1
        } else {
            e
        };
        assert(lines_from(chars@, pos as int) == lines_from(chars@, e + 1));
    }
    assert(lines_from(chars@, pos as int) =~= Seq::<Seq<char>>::empty());
    assert(done + Seq::<Seq<char>>::empty() =~= done);
    v
}

/// Where the header starting at `from` ends: the next line feed, or the end.
pub open spec fn byte_line_end(s: Seq<u8>, from: int) -> int
    decreases s.len() - from,
{
    if from < 0 || from >= s.len() {
        s.len() as int
    } else if s[from] == 10 {
        from
    } else {
        byte_line_end(s, from + 1)
    }
}

/// A header ends at a line feed or at the end, never before it starts.
pub proof fn lemma_byte_line_end(s: Seq<u8>, from: int)
    requires
        0 <= from <= s.len(),
    ensures
        from <= byte_line_end(s, from) <= s.len(),
        byte_line_end(s, from) < s.len() ==> s[byte_line_end(s, from)] == 10,
    decreases s.len() - from,
{
    if from < s.len() && s[from] != 10 {
        lemma_byte_line_end(s, from + 1);
    }
}

/// What `str::parse::<usize>` reads: an optional `+`, then one or more
/// ASCII digits whose value fits.
pub open spec fn usize_text(s: Seq<char>) -> Option<usize> {
    let d = if s.len() > 0 && s[0] == '+' {
        s.drop_first()
    } else {
        s
    };
    if d.len() > 0 && crate::number::all_digits(d) && crate::number::digits_value(d)
        <= usize::MAX {
        Some(crate::number::digits_value(d) as usize)
    } else {
        None
    }
}

/// A text split at its first space: what comes before, and what after when
/// there is a space at all.
pub open spec fn field_and_rest(s: Seq<char>) -> (Seq<char>, Option<Seq<char>>) {
    match find_text(s, seq![' '], 0) {
        Some(i) => (s.take(i), Some(s.skip(i + 1))),
        None => (s, None),
    }
}

/// The object name and byte count in one batch header `<oid> <type> <size>`,
/// or nothing when git answered `<name> missing`, or the header does not say.
pub open spec fn framing_of(header: Seq<char>) -> Option<(Seq<char>, usize)> {
    let (name, rest) = field_and_rest(header);
    match rest {
        None => None,
        Some(r) => {
            let (kind, rest2) = field_and_rest(r);
            if kind == "missing"@ {
                None
            } else {
                match rest2 {
                    None => None,
                    Some(r2) => match usize_text(field_and_rest(r2).0) {
                        None => None,
                        Some(n) => Some((name, n)),
                    },
                }
            }
        },
    }
}

/// Where an object of that name already is among those read, if it is.
pub open spec fn object_position(objects: Seq<(Seq<char>, Seq<char>)>, name: Seq<char>) -> Option<int>
    decreases objects.len(),
{
    if objects.len() == 0 {
        None
    } else if objects.last().0 == name {
        Some(objects.len() - 1)
    } else {
        object_position(objects.drop_last(), name)
    }
}

/// The objects with one more read: a name read again takes the new content.
pub open spec fn put_object(
    objects: Seq<(Seq<char>, Seq<char>)>,
    name: Seq<char>,
    content: Seq<char>,
) -> Seq<(Seq<char>, Seq<char>)> {
    match object_position(objects, name) {
        Some(i) => objects.update(i, (name, content)),
        None => objects.push((name, content)),
    }
}

/// What the batch output from `pos` on adds to the objects read so far:
/// each `<oid> <type> <size>` header, then that many bytes of content and a
/// line feed; a header git answered `missing` skipped; output cut short
/// ends the reading; a header or a content that is not UTF-8 refuses it all.
pub open spec fn unbatch_from(s: Seq<u8>, pos: int, objects: Seq<(Seq<char>, Seq<char>)>) -> Option<
    Seq<(Seq<char>, Seq<char>)>,
>
    decreases s.len() + 1 - pos,
{
    if pos < 0 || pos >= s.len() {
        Some(objects)
    } else {
        let end = byte_line_end(s, pos);
        proof {
            lemma_byte_line_end(s, pos);
        }
        if end >= s.len() {
            Some(objects)
        } else {
            let header = s.subrange(pos, end);
            if !valid_utf8(header) {
                None
            } else {
                let after = end + 1;
                match framing_of(decode_utf8(header)) {
                    None => unbatch_from(s, after, objects),
                    Some((name, size)) => if s.len() - after < size {
                        Some(objects)
                    } else {
                        let content = s.subrange(after, after + size);
                        if !valid_utf8(content) {
                            None
                        } else {
                            let next = after + size;
                            let next = if next < s.len() && s[next] == 10 {
                                next + 1
                            } else {
                                next
                            };
                            unbatch_from(s, next, put_object(objects, name, decode_utf8(content)))
                        }
                    },
                }
            }
        }
    }
}

fn usize_of(s: &[char]) -> (r: Option<usize>)
    ensures
        r == usize_text(s@),
{
    let start: usize = if s.len() > 0 && s[0] == '+' {
        1
    } else {
        0
    };
    let ghost d = s@.skip(start as int);
    assert(d =~= (if s@.len() > 0 && s@[0] == '+' {
        s@.drop_first()
    } else {
        s@
    }));
    if start >= s.len() {
        return None;
    }
    let mut value: u128 = 0;
    let mut i = start;
    while i < s.len()
        invariant
            start <= i <= s@.len(),
            d == s@.skip(start as int),
            d == (if s@.len() > 0 && s@[0] == '+' {
                s@.drop_first()
            } else {
                s@
            }),
            crate::number::all_digits(s@.subrange(start as int, i as int)),
            value as int == crate::number::digits_value(s@.subrange(start as int, i as int)),
            value <= usize::MAX,
        decreases s.len() - i,
    {
        let c = s[i];
        assert(d[i - start] == s@[i as int]);
        if !('0' <= c && c <= '9') {
            assert(!crate::number::is_digit(d[i - start]));
            return None;
        }
        assert(s@.subrange(start as int, i + 1).drop_last() =~= s@.subrange(
            start as int,
            i as int,
        ));
        value = value * 10 + ((c as u32) - 48) as u128;
        if value > usize::MAX as u128 {
            proof {
                assert(d.take(i + 1 - start) =~= s@.subrange(start as int, i + 1));
                assert(crate::number::all_digits(s@.subrange(start as int, i + 1))) by {
                    assert forall|m: int| 0 <= m < i + 1 - start implies crate::number::is_digit(
                        #[trigger] s@.subrange(start as int, i + 1)[m],
                    ) by {
                        if m < i - start {
                            assert(s@.subrange(start as int, i + 1)[m] == s@.subrange(
                                start as int,
                                i as int,
                            )[m]);
                        }
                    }
                }
                crate::patch::lemma_digits_prefix(d, i + 1 - start);
            }
            return None;
        }
        i = i + 1;
    }
    assert(s@.subrange(start as int, s@.len() as int) =~= d);
    Some(value as usize)
}

fn split_field(s: &[char]) -> (r: (Vec<char>, Option<Vec<char>>))
    ensures
        r.0@ == field_and_rest(s@).0,
        match r.1 {
            Some(rest) => field_and_rest(s@).1 == Some(rest@),
            None => field_and_rest(s@).1 is None,
        },
{
    let mut k: usize = 0;
    assert(s@.skip(0) =~= s@);
    while k < s.len() && s[k] != ' '
        invariant
            k <= s@.len(),
            find_text(s@, seq![' '], 0) == find_text(s@, seq![' '], k as int),
        decreases s.len() - k,
    {
        assert(s@.subrange(k as int, k + 1) =~= seq![s@[k as int]]);
        assert(s@.subrange(k as int, k + 1)[0] != seq![' '][0]);
        k = k + 1;
    }
    let head = string_chars(s, 0, k);
    if k < s.len() {
        assert(s@.subrange(k as int, k + 1) =~= seq![' ']);
        let rest = string_chars(s, k + 1, s.len());
        assert(head@ =~= s@.take(k as int));
        assert(rest@ =~= s@.skip(k + 1));
        (head, Some(rest))
    } else {
        assert(find_text(s@, seq![' '], k as int) is None);
        assert(head@ =~= s@);
        (head, None)
    }
}

fn string_chars(s: &[char], a: usize, b: usize) -> (v: Vec<char>)
    requires
        a <= b <= s@.len(),
    ensures
        v@ == s@.subrange(a as int, b as int),
{
    let mut v: Vec<char> = Vec::new();
    let mut i = a;
    while i < b
        invariant
            a <= i <= b <= s@.len(),
            v@ == s@.subrange(a as int, i as int),
        decreases b - i,
    {
        v.push(s[i]);
        i = i + 1;
    }
    v
}

fn framing(header: &str) -> (r: Option<(String, usize)>)
    ensures
        match r {
            Some((name, n)) => framing_of(header@) == Some((name@, n)),
            None => framing_of(header@) is None,
        },
{
    let chars = chars_of(header);
    let (name, rest) = split_field(chars.as_slice());
    let rest = match rest {
        None => {
            return None;
        },
        Some(r) => r,
    };
    let (kind, rest2) = split_field(rest.as_slice());
    let kind_text = string_of(kind.as_slice(), 0, kind.len());
    assert(kind_text@ =~= kind@);
    if crate::text::same_text(kind_text.as_str(), "missing") {
        return None;
    }
    let rest2 = match rest2 {
        None => {
            return None;
        },
        Some(r) => r,
    };
    let (size, _) = split_field(rest2.as_slice());
    match usize_of(size.as_slice()) {
        None => None,
        Some(n) => {
            let name_text = string_of(name.as_slice(), 0, name.len());
            assert(name_text@ =~= name@);
            Some((name_text, n))
        },
    }
}

fn put(objects: &mut Vec<(String, String)>, name: String, content: String)
    ensures
        pair_views(final(objects)@) == put_object(pair_views(old(objects)@), name@, content@),
{
    let ghost before = pair_views(objects@);
    let mut k = objects.len();
    assert(before.take(k as int) =~= before);
    while k > 0 && !crate::text::same_text(objects[k - 1].0.as_str(), name.as_str())
        invariant
            k <= objects@.len(),
            objects@ == old(objects)@,
            before == pair_views(objects@),
            object_position(before, name@) == object_position(before.take(k as int), name@),
        decreases k,
    {
        assert(before.take(k as int).drop_last() =~= before.take(k - 1));
        k = k - 1;
    }
    if k > 0 {
        assert(before.take(k as int).last() == before[k - 1]);
        let ghost nv = name@;
        let ghost cv = content@;
        objects.set(k - 1, (name, content));
        assert(pair_views(objects@) =~= before.update(k - 1, (nv, cv)));
    } else {
        assert(before.take(0) =~= Seq::<(Seq<char>, Seq<char>)>::empty());
        let ghost nv = name@;
        let ghost cv = content@;
        objects.push((name, content));
        assert(pair_views(objects@) =~= before.push((nv, cv)));
    }
}

/// Read `cat-file --batch` output: every object it carries, by name, a name
/// read twice keeping what it was read with last; nothing when a header or a
/// content is not UTF-8.
pub fn unbatch(batch: &[u8]) -> (r: Option<Vec<(String, String)>>)
    ensures
        match r {
            Some(v) => unbatch_from(batch@, 0, Seq::empty()) == Some(pair_views(v@)),
            None => unbatch_from(batch@, 0, Seq::empty()) is None,
        },
{
    let mut objects: Vec<(String, String)> = Vec::new();
    let mut pos: usize = 0;
    assert(pair_views(objects@) =~= Seq::<(Seq<char>, Seq<char>)>::empty());
    while pos < batch.len()
        invariant
            pos <= batch@.len(),
            unbatch_from(batch@, 0, Seq::empty()) == unbatch_from(
                batch@,
                pos as int,
                pair_views(objects@),
            ),
        decreases batch.len() - pos,
    {
        proof {
            lemma_byte_line_end(batch@, pos as int);
        }
        let mut end = pos;
        while end < batch.len() && batch[end] != 10
            invariant
                pos <= end <= batch@.len(),
                byte_line_end(batch@, pos as int) == byte_line_end(batch@, end as int),
            decreases batch.len() - end,
        {
            end = end + 1;
        }
        if end >= batch.len() {
            return Some(objects);
        }
        let header = match utf8(vstd::slice::slice_subrange(batch, pos, end)) {
            None => {
                return None;
            },
            Some(h) => h,
        };
        let after = end + 1;
        match framing(header.as_str()) {
            None => {
                pos = after;
            },
            Some((name, size)) => {
                if batch.len() - after < size {
                    return Some(objects);
                }
                let content = match utf8(
                    vstd::slice::slice_subrange(batch, after, after + size),
                ) {
                    None => {
                        return None;
                    },
                    Some(c) => c,
                };
                put(&mut objects, name, content);
                let mut next = after + size;
                if next < batch.len() && batch[next] == 10 {
                    next = next + 1;
                }
                pos = next;
            },
        }
    }
    Some(objects)
}

} // verus!
