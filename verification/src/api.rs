//! Request shapes of the HTTP surface. A front end decodes its wire format
//! into these and hands the fields to the service.

use vstd::prelude::*;

verus! {

/// Body of a request to enqueue one message.
#[derive(Debug)]
pub struct AddMessageRequest {
    /// The payload to enqueue.
    pub body: String,
}

/// Body of a request to fetch a batch of messages.
#[derive(Debug)]
pub struct GetMessagesRequest {
    /// How many messages to fetch; absent means one.
    pub count: Option<usize>,
}

} // verus!
