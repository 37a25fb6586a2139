//! The message entity: an immutable identity plus mutable queueing state.

use vstd::prelude::*;

use crate::ids;

verus! {

/// State of a message inside the queue system.
///
/// `Done` is part of the wire vocabulary but the store never assigns it:
/// completion is represented by removal.
#[derive(Clone, Copy, Debug, PartialEq, Eq, Structural)]
pub enum MessageState {
    /// Available for fetching from the ready queue.
    Ready,
    /// Fetched by a consumer and awaiting delete or retry.
    Processing,
    /// Processed; kept only for wire-format compatibility.
    Done,
}

/// A message: a 128-bit identifier, a text body, and queueing state.
#[derive(Debug)]
pub struct Message {
    /// Unique identifier, textually a UUID.
    pub id: u128,
    /// Content of the message.
    pub body: String,
    /// Current state; mutated only by the store's transitions.
    pub state: MessageState,
    /// Reserved for a future visibility timeout; never read by the core.
    pub lock_until: Option<i64>,
    /// Number of retries so far; never decreases.
    pub retry_count: i32,
}

/// Mathematical image of a [`Message`].
pub ghost struct MessageView {
    pub id: u128,
    pub body: Seq<char>,
    pub state: MessageState,
    pub lock_until: Option<i64>,
    pub retry_count: int,
}

impl View for Message {
    type V = MessageView;

    open spec fn view(&self) -> MessageView {
        MessageView {
            id: self.id,
            body: self.body@,
            state: self.state,
            lock_until: self.lock_until,
            retry_count: self.retry_count as int,
        }
    }
}

impl Clone for Message {
    fn clone(&self) -> (other: Self)
        ensures
            other@ == self@,
            other.retry_count == self.retry_count,
    {
        Message {
            id: self.id,
            body: self.body.clone(),
            state: self.state,
            lock_until: self.lock_until,
            retry_count: self.retry_count,
        }
    }
}

impl Message {
    /// Creates a new message holding `body`, in `Ready` state, unlocked,
    /// with zero retries and a freshly generated time-ordered identifier.
    pub fn new(body: String) -> (msg: Message)
        ensures
            msg@.body == body@,
            msg@.state == MessageState::Ready,
            msg@.lock_until is None,
            msg@.retry_count == 0,
    {
        Message {
            id: ids::fresh_id(),
            body,
            state: MessageState::Ready,
            lock_until: None,
            retry_count: 0,
        }
    }
}

} // verus!
