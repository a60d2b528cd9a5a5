//! A worker's end of its channel.

use std::sync::mpsc::Receiver;

use vstd::prelude::*;

verus! {

/// The receiving half of a channel.
#[verifier::external_type_specification]
#[verifier::external_body]
#[verifier::reject_recursive_types(T)]
pub struct ExReceiver<T>(std::sync::mpsc::Receiver<T>);

/// A worker's end of its channel, with a record of what polling it gave.
///
/// Polling is the only way for verified code to take a job off the channel, and
/// the only way to extend the record.
#[verifier::reject_recursive_types(J)]
pub struct JobQueue<J> {
    pub rx: Receiver<J>,
    polls: Ghost<Seq<Option<J>>>,
}

impl<J> JobQueue<J> {
    /// The channel that the queue is on.
    pub closed spec fn channel(self) -> Receiver<J> {
        self.rx
    }

    /// What polling the queue gave so far, in order: a job, or nothing.
    pub closed spec fn polls(self) -> Seq<Option<J>> {
        self.polls@
    }

    /// Takes a channel's receiving half over.
    pub fn new(rx: Receiver<J>) -> (queue: Self)
        ensures
            queue.channel() == rx,
            queue.polls() == Seq::<Option<J>>::empty(),
    {
        JobQueue { rx, polls: Ghost(Seq::empty()) }
    }

    /// Takes the next queued job, if there is one right now.
    ///
    /// [`std::sync::mpsc::Receiver::try_recv`] hands a queued message over without
    /// waiting, or reports that there is none, be the senders alive or gone. The
    /// queue stays on its channel, and whatever came back is put on record. Which
    /// of the two comes back, and which message, rests with the senders and is
    /// left unsaid.
    #[verifier::external_body]
    pub(crate) fn poll(&mut self) -> (polled: Option<J>)
        ensures
            final(self).channel() == old(self).channel(),
            final(self).polls() == old(self).polls().push(polled),
    {
        match self.rx.try_recv() {
            Ok(job) => Some(job),
            Err(_) => None,
        }
    }
}

} // verus!
