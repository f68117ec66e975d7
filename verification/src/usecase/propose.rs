//! Naming a proposal after its title, with a piece of the commit on the end
//! so two proposals with the same title never collide.
//!
//! Opening one (resolving the commits, writing the refs and the first event)
//! is the caller's business; what it is called is decided here.

use vstd::prelude::*;

use crate::errors::ErrorView as CoreErrorView;
use crate::identity::{
    is_lower_hex, is_proposal_name, is_sha_text, proposal_id_result, short_of, ProposalId, Sha,
};
use crate::text::{any_char, chars_of, ends_with_char, has_char, is_space, string_of, trim_start, trimmed};
use crate::usecase::error::Error;

verus! {

/// How long the readable half of a name may be.
pub const CEILING: usize = 40;

/// The lowercase of a text, as `str::to_lowercase` maps it.
pub uninterp spec fn lowercase_of(s: Seq<char>) -> Seq<char>;

/// `str::to_lowercase`. Trusted: the result is the lowercase mapping of
/// exactly this text, which depends on the text alone (the mapping is
/// Unicode's, with no locale).
#[verifier::external_body]
fn lowercase(s: &str) -> (r: String)
    ensures
        r@ == lowercase_of(s@),
{
    s.to_lowercase()
}

/// A character a name keeps as it is: an ASCII lowercase letter or digit.
pub open spec fn is_name_char(c: char) -> bool {
    ('a' <= c && c <= 'z') || ('0' <= c && c <= '9')
}

/// The text with every run of other characters turned into one dash.
pub open spec fn dashed(s: Seq<char>) -> Seq<char>
    decreases s.len(),
{
    if s.len() == 0 {
        Seq::empty()
    } else {
        let prev = dashed(s.drop_last());
        if is_name_char(s.last()) {
            prev.push(s.last())
        } else if ends_with_char(prev, '-') {
            prev
        } else {
            prev.push('-')
        }
    }
}

/// The text without its leading dashes.
pub open spec fn without_leading_dashes(s: Seq<char>) -> Seq<char>
    decreases s.len(),
{
    if s.len() > 0 && s[0] == '-' {
        without_leading_dashes(s.drop_first())
    } else {
        s
    }
}

/// The text without its trailing dashes.
pub open spec fn without_trailing_dashes(s: Seq<char>) -> Seq<char>
    decreases s.len(),
{
    if s.len() > 0 && s.last() == '-' {
        without_trailing_dashes(s.drop_last())
    } else {
        s
    }
}

/// The text without dashes at either end.
pub open spec fn undashed(s: Seq<char>) -> Seq<char> {
    without_trailing_dashes(without_leading_dashes(s))
}

/// The readable half of a name: the lowercased title dashed, cut at the
/// ceiling, never starting or ending on a dash, and `proposal` when nothing
/// is left.
pub open spec fn readable_of(lower: Seq<char>) -> Seq<char> {
    let whole = undashed(dashed(lower));
    let cut = if whole.len() > CEILING {
        whole.take(CEILING as int)
    } else {
        whole
    };
    if undashed(cut).len() == 0 {
        "proposal"@
    } else {
        undashed(cut)
    }
}

/// The name a lowercased title and a head commit give a proposal.
pub open spec fn name_text(lower: Seq<char>, head: Seq<char>) -> Seq<char> {
    readable_of(lower) + "-"@ + short_of(head)
}

/// The name a title and a head commit give a proposal.
pub open spec fn slug_text(title: Seq<char>, head: Seq<char>) -> Seq<char> {
    name_text(lowercase_of(title), head)
}

/// A character a name is made of: a name character or a dash.
pub open spec fn is_slug_char(c: char) -> bool {
    is_name_char(c) || c == '-'
}

/// Whether every character of a text is one a name is made of.
pub open spec fn all_slug_chars(s: Seq<char>) -> bool {
    forall|i: int| 0 <= i < s.len() ==> is_slug_char(#[trigger] s[i])
}

proof fn lemma_dashed_slug_chars(s: Seq<char>)
    ensures
        all_slug_chars(dashed(s)),
    decreases s.len(),
{
    if s.len() > 0 {
        lemma_dashed_slug_chars(s.drop_last());
    }
}

proof fn lemma_without_leading_dashes_slug_chars(s: Seq<char>)
    requires
        all_slug_chars(s),
    ensures
        all_slug_chars(without_leading_dashes(s)),
    decreases s.len(),
{
    if s.len() > 0 && s[0] == '-' {
        assert(all_slug_chars(s.drop_first())) by {
            assert forall|i: int| 0 <= i < s.drop_first().len() implies is_slug_char(
                #[trigger] s.drop_first()[i],
            ) by {
                assert(s.drop_first()[i] == s[i + 1]);
            }
        }
        lemma_without_leading_dashes_slug_chars(s.drop_first());
    }
}

proof fn lemma_without_trailing_dashes_slug_chars(s: Seq<char>)
    requires
        all_slug_chars(s),
    ensures
        all_slug_chars(without_trailing_dashes(s)),
        without_trailing_dashes(s).len() > 0 ==> without_trailing_dashes(s).last() != '-',
    decreases s.len(),
{
    if s.len() > 0 && s.last() == '-' {
        lemma_without_trailing_dashes_slug_chars(s.drop_last());
    }
}

proof fn lemma_undashed_slug_chars(s: Seq<char>)
    requires
        all_slug_chars(s),
    ensures
        all_slug_chars(undashed(s)),
        undashed(s).len() > 0 ==> undashed(s).last() != '-',
{
    lemma_without_leading_dashes_slug_chars(s);
    lemma_without_trailing_dashes_slug_chars(without_leading_dashes(s));
}

/// For a real commit nothing a title does is refused: whatever the title
/// lowercases to, the name it gives is one a proposal ref can carry, taken
/// as it is.
pub proof fn law_a_title_always_names_a_proposal(lower: Seq<char>, head: Seq<char>)
    requires
        is_sha_text(head),
    ensures
        proposal_id_result(name_text(lower, head)) == Ok::<Seq<char>, CoreErrorView>(
            name_text(lower, head),
        ),
{
    lemma_dashed_slug_chars(lower);
    let whole = undashed(dashed(lower));
    lemma_undashed_slug_chars(dashed(lower));
    let cut = if whole.len() > CEILING {
        whole.take(CEILING as int)
    } else {
        whole
    };
    assert(all_slug_chars(cut));
    lemma_undashed_slug_chars(cut);
    reveal_strlit("proposal");
    reveal_strlit("-");
    let readable = readable_of(lower);
    assert(all_slug_chars(readable));
    assert(readable.len() > 0);
    let short = short_of(head);
    assert(short =~= head.take(7));
    let s = name_text(lower, head);
    assert(s =~= readable + seq!['-'] + short);
    assert(all_slug_chars(s)) by {
        assert forall|i: int| 0 <= i < s.len() implies is_slug_char(#[trigger] s[i]) by {
            if i < readable.len() {
                assert(s[i] == readable[i]);
            } else if i == readable.len() {
                assert(s[i] == '-');
            } else {
                assert(s[i] == head[i - readable.len() - 1]);
                assert(is_lower_hex(head[i - readable.len() - 1]));
            }
        }
    }
    assert(!is_space(s[0]));
    assert(!is_space(s.last())) by {
        assert(s.last() == head[6]);
        assert(is_lower_hex(head[6]));
    }
    assert(trim_start(s) == s);
    assert(trimmed(s) == s);
    assert(!has_char(s, '/')) by {
        if has_char(s, '/') {
            let i = choose|i: int| 0 <= i < s.len() && s[i] == '/';
            assert(is_slug_char(s[i]));
        }
    }
    assert(!any_char(s, |c: char| is_space(c))) by {
        if any_char(s, |c: char| is_space(c)) {
            let i = choose|i: int| 0 <= i < s.len() && is_space(#[trigger] s[i]);
            assert(is_slug_char(s[i]));
        }
    }
    assert(is_proposal_name(s));
}

fn undash(v: &[char], lo: usize, hi: usize) -> (r: (usize, usize))
    requires
        lo <= hi <= v@.len(),
    ensures
        lo <= r.0 <= r.1 <= hi,
        v@.subrange(r.0 as int, r.1 as int) == undashed(v@.subrange(lo as int, hi as int)),
{
    let mut a = lo;
    while a < hi && v[a] == '-'
        invariant
            lo <= a <= hi <= v@.len(),
            without_leading_dashes(v@.subrange(lo as int, hi as int)) == without_leading_dashes(
                v@.subrange(a as int, hi as int),
            ),
        decreases hi - a,
    {
        assert(v@.subrange(a as int, hi as int).drop_first() =~= v@.subrange(a + 1, hi as int));
        a = a + 1;
    }
    assert(without_leading_dashes(v@.subrange(a as int, hi as int)) == v@.subrange(
        a as int,
        hi as int,
    ));
    let mut b = hi;
    while b > a && v[b - 1] == '-'
        invariant
            lo <= a <= b <= hi <= v@.len(),
            without_trailing_dashes(v@.subrange(a as int, hi as int)) == without_trailing_dashes(
                v@.subrange(a as int, b as int),
            ),
        decreases b - a,
    {
        assert(v@.subrange(a as int, b as int).drop_last() =~= v@.subrange(a as int, b - 1));
        b = b - 1;
    }
    (a, b)
}

/// Name a proposal after its title, with a piece of the commit on the end.
///
/// Whatever is left after the substitutions is either a name a ref can
/// carry or the word `proposal`, so for a real commit nothing a title does is
/// refused.
pub fn slug(title: &str, head: &Sha) -> (r: Result<ProposalId, Error>)
    ensures
        r matches Ok(id) && id@ == slug_text(title@, head@),
{
    let lower = lowercase(title);
    Ok(name(lower.as_str(), head))
}

/// The name a title already lowercased and a head commit give a proposal:
/// every run of characters other than ASCII lowercase letters and digits
/// turned into one dash, cut at the ceiling, no dash at either end,
/// `proposal` when nothing is left, then a dash and the short commit.
pub fn name(lower: &str, head: &Sha) -> (id: ProposalId)
    ensures
        id@ == name_text(lower@, head@),
{
    proof {
        use_type_invariant(head);
        Sha::lemma_commit_name(*head);
        law_a_title_always_names_a_proposal(lower@, head@);
    }
    let letters = chars_of(lower);
    let mut name: Vec<char> = Vec::new();
    let mut i: usize = 0;
    while i < letters.len()
        invariant
            i <= letters@.len(),
            letters@ == lower@,
            name@ == dashed(letters@.take(i as int)),
        decreases letters.len() - i,
    {
        let c = letters[i];
        assert(letters@.take(i + 1).drop_last() =~= letters@.take(i as int));
        if ('a' <= c && c <= 'z') || ('0' <= c && c <= '9') {
            name.push(c);
        } else if !(name.len() > 0 && name[name.len() - 1] == '-') {
            name.push('-');
        }
        i = i + 1;
    }
    assert(letters@.take(letters@.len() as int) =~= letters@);
    let ghost whole = undashed(dashed(lower@));
    assert(name@.subrange(0, name@.len() as int) =~= name@);
    let (a, b) = undash(name.as_slice(), 0, name.len());
    let end = if b - a > CEILING {
        a + CEILING
    } else {
        b
    };
    assert(name@.subrange(a as int, end as int) =~= (if whole.len() > CEILING {
        whole.take(CEILING as int)
    } else {
        whole
    }));
    let (c, d) = undash(name.as_slice(), a, end);
    let mut text = if c == d {
        String::from_str("proposal")
    } else {
        string_of(name.as_slice(), c, d)
    };
    text.append("-");
    let short = head.short();
    text.append(short.as_str());
    ProposalId::parse(text.as_str()).unwrap()
}

} // verus!
