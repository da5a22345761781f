//! What delivering a message reports, and the interface of a sender.

use vstd::prelude::*;

verus! {

/// Exit status and output of one delivery attempt.
#[derive(Clone, Debug, PartialEq, Eq)]
pub struct DeliveryOutput {
    pub status_code: Option<i32>,
    pub stdout: String,
    pub stderr: String,
}

impl DeliveryOutput {
    /// The attempt succeeded: the sender exited with status 0.
    pub open spec fn succeeded(&self) -> bool {
        self.status_code == Some(0i32)
    }
}

/// A sender could not be run at all.
#[derive(Clone, Debug, PartialEq, Eq)]
pub struct SendError {
    pub message: String,
}

/// Delivers one message and reports how the attempt went.
pub trait Sender {
    fn send(&mut self, message: &str) -> Result<DeliveryOutput, SendError>;
}

/// A sender together with a record, kept by the library, of every message
/// handed to it and every answer it gave, oldest first.
pub struct RecordingSender<S> {
    pub inner: S,
    pub handed: Ghost<Seq<Seq<char>>>,
    pub replies: Ghost<Seq<Result<DeliveryOutput, SendError>>>,
}

impl<S: Sender> RecordingSender<S> {
    /// Starts recording in front of `inner`, with nothing handed yet.
    pub fn new(inner: S) -> (r: RecordingSender<S>)
        ensures
            r.inner == inner,
            r.handed@.len() == 0,
            r.replies@.len() == 0,
    {
        RecordingSender { inner, handed: Ghost(Seq::empty()), replies: Ghost(Seq::empty()) }
    }

    /// Hands `message` to the sender and records the message and the answer.
    pub fn send(&mut self, message: &str) -> (r: Result<DeliveryOutput, SendError>)
        ensures
            final(self).handed@ == old(self).handed@.push(message@),
            final(self).replies@ == old(self).replies@.push(r),
    {
        let r = self.inner.send(message);
        self.handed = Ghost(self.handed@.push(message@));
        self.replies = Ghost(self.replies@.push(r));
        r
    }
}

} // verus!
