//! The order in which the documents of a run go to their destinations, and
//! the record of the deliveries that failed.
//!
//! Every document goes to every destination: the documents in the order in
//! which they were generated, each of them to the destinations in the order
//! in which these were configured. A delivery that fails is recorded, and
//! the run goes on with the next one.

use vstd::prelude::*;
use crate::error::{Fault, GenError};

verus! {

/// A delivery that failed.
#[derive(Debug)]
pub struct Failure {
    /// The number of the document, from 0.
    pub document: usize,
    /// The number of the destination, from 0.
    pub sender: usize,
    pub error: GenError,
}

/// The mathematical value of a `Failure`.
pub struct FailureView {
    pub document: int,
    pub sender: int,
    pub fault: Fault,
}

impl View for Failure {
    type V = FailureView;

    open spec fn view(&self) -> FailureView {
        FailureView {
            document: self.document as int,
            sender: self.sender as int,
            fault: self.error@,
        }
    }
}

/// The deliveries of a run: which one is next, and which ones failed.
#[derive(Debug)]
pub struct Dispatcher {
    documents: usize,
    senders: usize,
    document: usize,
    sender: usize,
    failures: Vec<Failure>,
}

/// The delivery that follows the delivery of document `place.0` to
/// destination `place.1`.
pub open spec fn next_place(place: (int, int), senders: int) -> (int, int) {
    if place.1 + 1 < senders {
        (place.0, place.1 + 1)
    } else {
        (place.0 + 1, 0)
    }
}

/// Whether nothing is left to deliver from `place` on.
pub open spec fn is_done(place: (int, int), documents: int, senders: int) -> bool {
    senders <= 0 || place.0 >= documents
}

/// The place of the delivery that follows `made` deliveries.
pub open spec fn place_after(made: nat, senders: int) -> (int, int)
    decreases made,
{
    if made == 0 {
        (0, 0)
    } else {
        next_place(place_after((made - 1) as nat, senders), senders)
    }
}

/// What a list of failures stands for in contracts.
pub open spec fn failures_view(failures: Seq<Failure>) -> Seq<FailureView> {
    Seq::new(failures.len(), |i: int| failures[i]@)
}

impl Dispatcher {
    #[verifier::type_invariant]
    spec fn well_formed(self) -> bool {
        &&& self.document <= self.documents
        &&& self.senders > 0 ==> self.sender < self.senders
        &&& self.senders == 0 ==> self.sender == 0
        &&& self.document == self.documents ==> self.sender == 0
    }

    /// The number of documents of the run.
    pub closed spec fn documents(&self) -> int {
        self.documents as int
    }

    /// The number of destinations of the run.
    pub closed spec fn senders(&self) -> int {
        self.senders as int
    }

    /// The next delivery: the number of the document and the number of
    /// the destination.
    pub closed spec fn place(&self) -> (int, int) {
        (self.document as int, self.sender as int)
    }

    /// The deliveries that failed, in the order in which they were made.
    pub closed spec fn failures(&self) -> Seq<FailureView> {
        failures_view(self.failures@)
    }

    /// The deliveries of a run of `documents` documents to `senders`
    /// destinations, none of them made yet.
    pub fn new(documents: usize, senders: usize) -> (dispatcher: Self)
        ensures
            dispatcher.documents() == documents,
            dispatcher.senders() == senders,
            dispatcher.place() == (0int, 0int),
            dispatcher.failures() == Seq::<FailureView>::empty(),
    {
        let dispatcher = Dispatcher {
            documents,
            senders,
            document: 0,
            sender: 0,
            failures: Vec::new(),
        };
        assert(dispatcher.failures() =~= Seq::empty());
        dispatcher
    }

    /// The delivery to make next, if one is left.
    pub fn pending(&self) -> (r: Option<(usize, usize)>)
        ensures
            match r {
                Some((document, sender)) => {
                    &&& !is_done(self.place(), self.documents(), self.senders())
                    &&& self.place() == (document as int, sender as int)
                    &&& document < self.documents()
                    &&& sender < self.senders()
                },
                None => is_done(self.place(), self.documents(), self.senders()),
            },
    {
        proof {
            use_type_invariant(self);
        }
        if self.senders == 0 || self.document >= self.documents {
            None
        } else {
            Some((self.document, self.sender))
        }
    }

    /// Takes the outcome of the pending delivery and moves on to the next
    /// one; a failure is recorded with its place. Where nothing was pending,
    /// nothing changes.
    pub fn record(&mut self, outcome: Result<String, GenError>)
        ensures
            final(self).documents() == old(self).documents(),
            final(self).senders() == old(self).senders(),
            is_done(old(self).place(), old(self).documents(), old(self).senders()) ==> {
                &&& final(self).place() == old(self).place()
                &&& final(self).failures() == old(self).failures()
            },
            !is_done(old(self).place(), old(self).documents(), old(self).senders()) ==> {
                &&& final(self).place() == next_place(old(self).place(), old(self).senders())
                &&& final(self).failures() == match outcome {
                    Ok(_) => old(self).failures(),
                    Err(e) => old(self).failures().push(
                        FailureView {
                            document: old(self).place().0,
                            sender: old(self).place().1,
                            fault: e@,
                        },
                    ),
                }
            },
    {
        proof {
            use_type_invariant(&*self);
        }
        if self.senders == 0 || self.document >= self.documents {
            return ;
        }
        let ghost before = failures_view(self.failures@);
        let mut failures: Vec<Failure> = Vec::new();
        std::mem::swap(&mut failures, &mut self.failures);
        if let Err(error) = outcome {
            failures.push(Failure { document: self.document, sender: self.sender, error });
            assert(failures_view(failures@) =~= before.push(
                FailureView {
                    document: self.document as int,
                    sender: self.sender as int,
                    fault: error@,
                },
            ));
        }
        let next_sender: usize = if self.sender + 1 < self.senders {
            self.sender + 1
        } else {
            0
        };
        let next_document: usize = if self.sender + 1 < self.senders {
            self.document
        } else {
            self.document + 1
        };
        *self = Dispatcher {
            documents: self.documents,
            senders: self.senders,
            document: next_document,
            sender: next_sender,
            failures,
        };
    }

    /// The deliveries that failed so far, in the order in which they were
    /// made.
    pub fn failed(&self) -> (failures: &Vec<Failure>)
        ensures
            failures_view(failures@) == self.failures(),
    {
        &self.failures
    }
}

} // verus!
