//! An answer to a note, filed under the note it answers.
//!
//! It carries no file and no lines of its own: it belongs to the thread of the
//! note, which is where it is read. A reply never blocks a landing.

use vstd::prelude::*;

use crate::errors::Error;
use crate::identity::{Author, RecordId, Sha};
use crate::text::{trim, trimmed};
use crate::timestamp::Timestamp;
use crate::record::RecordView;
use crate::wire::annotation::{record_writable, writable_moment};
use crate::wire::line::{reply_id, reply_id_of};

verus! {

/// What somebody said under a note.
#[derive(Debug, PartialEq, Eq)]
pub struct Reply {
    id: RecordId,
    target: RecordId,
    revision: Sha,
    body: String,
    author: Author,
    at: Timestamp,
}

/// What a reply says, and what it is called.
pub struct ReplyView {
    pub id: Seq<char>,
    pub target: Seq<char>,
    pub revision: Seq<char>,
    pub body: Seq<char>,
    pub author: Seq<char>,
    pub at: i64,
}

impl View for Reply {
    type V = ReplyView;

    closed spec fn view(&self) -> ReplyView {
        ReplyView {
            id: self.id@,
            target: self.target@,
            revision: self.revision@,
            body: self.body@,
            author: self.author@,
            at: self.at@,
        }
    }
}

impl Clone for Reply {
    fn clone(&self) -> (r: Reply)
        ensures
            r@ == self@,
    {
        self.duplicate()
    }
}

impl Reply {
    /// Every value is built by the constructors here, which validate it.
    #[verifier::type_invariant]
    pub(crate) closed spec fn is_sound(self) -> bool {
        crate::wire::annotation::record_sound(crate::record::RecordView::Reply(self@))
    }

    /// What the invariant says of the record.
    pub(crate) proof fn lemma_sound(x: Reply)
        requires
            x.is_sound(),
        ensures
            crate::wire::annotation::record_sound(crate::record::RecordView::Reply(x@)),
    {
    }

    /// The only way to build one. A body that says nothing is refused.
    pub fn new(target: RecordId, revision: Sha, body: &str, author: Author, at: Timestamp) -> (r:
        Result<Reply, Error>)
        ensures
            trimmed(body@).len() == 0 ==> r matches Err(Error::NoBody),
            trimmed(body@).len() > 0 ==> (r matches Ok(x) && x@ == (ReplyView {
                id: reply_id_of(target@, revision@, trimmed(body@), author@, at@),
                target: target@,
                revision: revision@,
                body: trimmed(body@),
                author: author@,
                at: at@,
            })),
            trimmed(body@).len() > 0 && writable_moment(at@) ==> (r matches Ok(x)
                && record_writable(RecordView::Reply(x@))),
    {
        proof {
            use_type_invariant(&target);
            use_type_invariant(&revision);
            use_type_invariant(&author);
            RecordId::lemma_valid(target);
            Sha::lemma_commit_name(revision);
            Author::lemma_valid(author);
            crate::text::lemma_trimmed_twice(body@);
        }
        let body = trim(body);
        if body.as_str().is_empty() {
            return Err(Error::NoBody);
        }
        let id = reply_id(&target, &revision, body.as_str(), &author, at);
        proof {
            use_type_invariant(&id);
            RecordId::lemma_valid(id);
        }
        Ok(Reply { id, target, revision, body, author, at })
    }

    /// A reply read back from the log keeps the identity it was written with.
    pub(crate) fn restore(
        id: Option<RecordId>,
        target: RecordId,
        revision: Sha,
        body: &str,
        author: Author,
        at: Timestamp,
    ) -> (r: Result<Reply, Error>)
        ensures
            trimmed(body@).len() == 0 ==> r matches Err(Error::NoBody),
            trimmed(body@).len() > 0 ==> (r matches Ok(x) && x@ == (ReplyView {
                id: match id {
                    Some(i) => i@,
                    None => reply_id_of(target@, revision@, trimmed(body@), author@, at@),
                },
                target: target@,
                revision: revision@,
                body: trimmed(body@),
                author: author@,
                at: at@,
            })),
    {
        let mut reply = Reply::new(target, revision, body, author, at)?;
        if let Some(id) = id {
            proof {
                use_type_invariant(&reply);
                use_type_invariant(&id);
                RecordId::lemma_valid(id);
            }
            reply.id = id;
        }
        Ok(reply)
    }

    /// The identity derived from what it says.
    pub fn id(&self) -> (i: &RecordId)
        ensures
            i@ == self@.id,
    {
        &self.id
    }

    /// The note it answers.
    pub fn target(&self) -> (i: &RecordId)
        ensures
            i@ == self@.target,
    {
        &self.target
    }

    /// The head it was written against.
    pub fn revision(&self) -> (s: &Sha)
        ensures
            s@ == self@.revision,
    {
        &self.revision
    }

    /// What it says.
    pub fn body(&self) -> (s: &str)
        ensures
            s@ == self@.body,
    {
        self.body.as_str()
    }

    /// Who said it, a person or an agent.
    pub fn author(&self) -> (a: &Author)
        ensures
            a@ == self@.author,
    {
        &self.author
    }

    /// When, to the second, in UTC.
    pub fn at(&self) -> (t: Timestamp)
        ensures
            t@ == self@.at,
    {
        self.at
    }

    /// A copy of it.
    pub fn duplicate(&self) -> (c: Reply)
        ensures
            c@ == self@,
    {
        proof {
            use_type_invariant(self);
        }
        Reply {
            id: self.id.duplicate(),
            target: self.target.duplicate(),
            revision: self.revision.duplicate(),
            body: self.body.clone(),
            author: self.author.duplicate(),
            at: self.at,
        }
    }
}

} // verus!
