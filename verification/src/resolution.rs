//! A note has been dealt with.
//!
//! It never edits the note, because the log is append-only: a resolution is a
//! new record that points at the record it resolves, which is what lets two
//! people annotate the same revision and git merge the result.

use vstd::prelude::*;

use crate::identity::{Author, RecordId};
use crate::timestamp::Timestamp;
use crate::record::RecordView;
use crate::wire::annotation::{record_writable, writable_moment};
use crate::wire::line::{resolution_id, resolution_id_of};

verus! {

/// Somebody saying a note is answered.
#[derive(Debug, PartialEq, Eq)]
pub struct Resolution {
    id: RecordId,
    target: RecordId,
    author: Author,
    at: Timestamp,
}

/// What a resolution says, and what it is called.
pub struct ResolutionView {
    pub id: Seq<char>,
    pub target: Seq<char>,
    pub author: Seq<char>,
    pub at: i64,
}

impl View for Resolution {
    type V = ResolutionView;

    closed spec fn view(&self) -> ResolutionView {
        ResolutionView { id: self.id@, target: self.target@, author: self.author@, at: self.at@ }
    }
}

impl Clone for Resolution {
    fn clone(&self) -> (r: Resolution)
        ensures
            r@ == self@,
    {
        self.duplicate()
    }
}

impl Resolution {
    /// Every value is built by the constructors here, which validate it.
    #[verifier::type_invariant]
    pub(crate) closed spec fn is_sound(self) -> bool {
        crate::wire::annotation::record_sound(crate::record::RecordView::Resolve(self@))
    }

    /// What the invariant says of the record.
    pub(crate) proof fn lemma_sound(x: Resolution)
        requires
            x.is_sound(),
        ensures
            crate::wire::annotation::record_sound(crate::record::RecordView::Resolve(x@)),
    {
    }

    /// The only way to build one. Nothing here can be refused: the target and
    /// the author arrive already validated.
    pub fn new(target: RecordId, author: Author, at: Timestamp) -> (r: Resolution)
        ensures
            r@ == (ResolutionView {
                id: resolution_id_of(target@, author@, at@),
                target: target@,
                author: author@,
                at: at@,
            }),
            writable_moment(at@) ==> record_writable(RecordView::Resolve(r@)),
    {
        proof {
            use_type_invariant(&target);
            use_type_invariant(&author);
            RecordId::lemma_valid(target);
            Author::lemma_valid(author);
        }
        let id = resolution_id(&target, &author, at);
        proof {
            use_type_invariant(&id);
            RecordId::lemma_valid(id);
        }
        Resolution { id, target, author, at }
    }

    /// A resolution read back from the log keeps the identity it was written with.
    pub(crate) fn restore(id: Option<RecordId>, target: RecordId, author: Author, at: Timestamp) -> (r:
        Resolution)
        ensures
            r@ == (ResolutionView {
                id: match id {
                    Some(i) => i@,
                    None => resolution_id_of(target@, author@, at@),
                },
                target: target@,
                author: author@,
                at: at@,
            }),
    {
        let mut resolution = Resolution::new(target, author, at);
        if let Some(id) = id {
            proof {
                use_type_invariant(&resolution);
                use_type_invariant(&id);
                RecordId::lemma_valid(id);
            }
            resolution.id = id;
        }
        resolution
    }

    /// The identity derived from what it points at.
    pub fn id(&self) -> (i: &RecordId)
        ensures
            i@ == self@.id,
    {
        &self.id
    }

    /// The note it resolves.
    pub fn target(&self) -> (i: &RecordId)
        ensures
            i@ == self@.target,
    {
        &self.target
    }

    /// Who resolved it.
    pub fn author(&self) -> (a: &Author)
        ensures
            a@ == self@.author,
    {
        &self.author
    }

    /// When, to the second, in UTC.
    pub fn at(&self) -> (t: Timestamp)
        ensures
            t@ == self@.at,
    {
        self.at
    }

    /// A copy of it.
    pub fn duplicate(&self) -> (c: Resolution)
        ensures
            c@ == self@,
    {
        proof {
            use_type_invariant(self);
        }
        Resolution {
            id: self.id.duplicate(),
            target: self.target.duplicate(),
            author: self.author.duplicate(),
            at: self.at,
        }
    }
}

} // verus!
