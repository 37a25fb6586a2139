//! TLQ: a tiny in-process message queue.
//!
//! Messages are pushed onto a ready queue, fetched in batches into a
//! processing set, and then either acknowledged (deleted) or returned to the
//! queue with an incremented retry counter. The queue state machine, its
//! invariants and the validation layer are verified; an HTTP front end can
//! sit on top as a thin adapter.

use vstd::prelude::*;
use vstd::string::StringExecFns;

pub mod api;
pub mod config;
pub mod ids;
pub mod laws;
pub mod services;
pub mod storage;
pub mod store_model;
pub mod types;

verus! {

/// Health-check greeting: `"Hello, {name}!"`.
pub fn say_hello(name: &str) -> (greeting: String)
    ensures
        greeting@ == "Hello, "@ + name@ + "!"@,
{
    let mut greeting = String::from_str("Hello, ");
    greeting.append(name);
    greeting.append("!");
    greeting
}

} // verus!
