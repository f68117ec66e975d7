//! A note on a range of lines of one revision: the thing that blocks a landing.
//!
//! Its identity is derived from what it says, so the same note written twice
//! is one note and an append-only log deduplicates itself.

use vstd::prelude::*;

use crate::errors::Error;
use crate::identity::{Author, RecordId, Sha};
use crate::record::Kind;
use crate::span::{Anchor, AnchorView};
use crate::text::{trim, trimmed};
use crate::timestamp::Timestamp;
use crate::record::RecordView;
use crate::wire::annotation::{record_writable, writable_moment};
use crate::wire::line::{note_id, note_id_of};

verus! {

/// A person's note on some lines, asking for something.
#[derive(Debug, PartialEq, Eq)]
pub struct Comment {
    id: RecordId,
    revision: Sha,
    anchor: Anchor,
    body: String,
    author: Author,
    at: Timestamp,
}

/// What a comment says, and what it is called.
pub struct CommentView {
    pub id: Seq<char>,
    pub revision: Seq<char>,
    pub anchor: AnchorView,
    pub body: Seq<char>,
    pub author: Seq<char>,
    pub at: i64,
}

impl View for Comment {
    type V = CommentView;

    closed spec fn view(&self) -> CommentView {
        CommentView {
            id: self.id@,
            revision: self.revision@,
            anchor: self.anchor@,
            body: self.body@,
            author: self.author@,
            at: self.at@,
        }
    }
}

impl Clone for Comment {
    fn clone(&self) -> (r: Comment)
        ensures
            r@ == self@,
    {
        self.duplicate()
    }
}

impl Comment {
    /// Every value is built by the constructors here, which validate it.
    #[verifier::type_invariant]
    pub(crate) closed spec fn is_sound(self) -> bool {
        crate::wire::annotation::record_sound(crate::record::RecordView::Comment(self@))
    }

    /// What the invariant says of the record.
    pub(crate) proof fn lemma_sound(x: Comment)
        requires
            x.is_sound(),
        ensures
            crate::wire::annotation::record_sound(crate::record::RecordView::Comment(x@)),
    {
    }

    /// The only way to build one. A body that says nothing is refused; the
    /// identity is derived from the trimmed body and everything else it says.
    pub fn new(revision: Sha, anchor: Anchor, body: &str, author: Author, at: Timestamp) -> (r:
        Result<Comment, Error>)
        ensures
            trimmed(body@).len() == 0 ==> r matches Err(Error::NoBody),
            trimmed(body@).len() > 0 ==> (r matches Ok(c) && c@ == (CommentView {
                id: note_id_of(Kind::Comment, revision@, anchor@, trimmed(body@), author@, at@),
                revision: revision@,
                anchor: anchor@,
                body: trimmed(body@),
                author: author@,
                at: at@,
            })),
            trimmed(body@).len() > 0 && writable_moment(at@) ==> (r matches Ok(c)
                && record_writable(RecordView::Comment(c@))),
    {
        proof {
            use_type_invariant(&revision);
            use_type_invariant(&anchor);
            use_type_invariant(&author);
            Sha::lemma_commit_name(revision);
            Anchor::lemma_valid(anchor);
            Author::lemma_valid(author);
            crate::text::lemma_trimmed_twice(body@);
        }
        let body = trim(body);
        if body.as_str().is_empty() {
            return Err(Error::NoBody);
        }
        let id = note_id(Kind::Comment, &revision, &anchor, body.as_str(), &author, at);
        proof {
            use_type_invariant(&id);
            RecordId::lemma_valid(id);
        }
        Ok(Comment { id, revision, anchor, body, author, at })
    }

    /// A comment read back from the log keeps the identity it was written
    /// with, whatever this build would derive for it today.
    pub(crate) fn restore(
        id: Option<RecordId>,
        revision: Sha,
        anchor: Anchor,
        body: &str,
        author: Author,
        at: Timestamp,
    ) -> (r: Result<Comment, Error>)
        ensures
            trimmed(body@).len() == 0 ==> r matches Err(Error::NoBody),
            trimmed(body@).len() > 0 ==> (r matches Ok(c) && c@ == (CommentView {
                id: match id {
                    Some(i) => i@,
                    None => note_id_of(Kind::Comment, revision@, anchor@, trimmed(body@), author@, at@),
                },
                revision: revision@,
                anchor: anchor@,
                body: trimmed(body@),
                author: author@,
                at: at@,
            })),
    {
        let mut note = Comment::new(revision, anchor, body, author, at)?;
        if let Some(id) = id {
            proof {
                use_type_invariant(&note);
                use_type_invariant(&id);
                RecordId::lemma_valid(id);
            }
            note.id = id;
        }
        Ok(note)
    }

    /// The identity derived from what it says.
    pub fn id(&self) -> (i: &RecordId)
        ensures
            i@ == self@.id,
    {
        &self.id
    }

    /// The commit it applies to.
    pub fn revision(&self) -> (s: &Sha)
        ensures
            s@ == self@.revision,
    {
        &self.revision
    }

    /// The file and the lines it points at.
    pub fn anchor(&self) -> (a: &Anchor)
        ensures
            a@ == self@.anchor,
    {
        &self.anchor
    }

    /// What it says.
    pub fn body(&self) -> (s: &str)
        ensures
            s@ == self@.body,
    {
        self.body.as_str()
    }

    /// Who left it.
    pub fn author(&self) -> (a: &Author)
        ensures
            a@ == self@.author,
    {
        &self.author
    }

    /// When, to the second, in UTC.
    pub fn at(&self) -> (t: Timestamp)
        ensures
            t@ == self@.at,
    {
        self.at
    }

    /// A copy of it.
    pub fn duplicate(&self) -> (c: Comment)
        ensures
            c@ == self@,
    {
        proof {
            use_type_invariant(self);
        }
        Comment {
            id: self.id.duplicate(),
            revision: self.revision.duplicate(),
            anchor: self.anchor.duplicate(),
            body: self.body.clone(),
            author: self.author.duplicate(),
            at: self.at,
        }
    }
}

} // verus!
