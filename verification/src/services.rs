//! The message service: the payload-size policy, identifier validation
//! with byte-exact error strings, and the calls into the store.

use vstd::prelude::*;
use vstd::string::StringExecFns;

use crate::config::DEFAULT_MAX_MESSAGE_SIZE;
use crate::ids::{parse_id, uuid_of};
use crate::laws::{
    lemma_add_bounded, lemma_counts_refl, lemma_delete_bounded, lemma_get_bounded,
    lemma_retry_bounded, retry_counts_nondecreasing,
};
use crate::storage::{msg_views, BaseMemoryStorage};
use crate::store_model::{
    spec_add, spec_delete, spec_get, spec_get_out, spec_purge, spec_retry,
};
use crate::types::{Message, MessageState};

verus! {

/// The error text for an oversized payload.
pub open spec fn size_error() -> Seq<char> {
    "Message body size is too large"@
}

/// The error text for a delete or retry request without identifiers.
pub open spec fn empty_ids_error() -> Seq<char> {
    "No message IDs provided"@
}

/// `s` wrapped in double quotes.
pub open spec fn quoted(s: Seq<char>) -> Seq<char> {
    "\""@ + s + "\""@
}

/// The listed texts, each quoted, separated by comma and space.
pub open spec fn quoted_join(ids: Seq<Seq<char>>) -> Seq<char>
    decreases ids.len(),
{
    if ids.len() == 0 {
        Seq::empty()
    } else {
        quoted_join(ids.drop_last()) + (if ids.len() == 1 {
            Seq::<char>::empty()
        } else {
            ", "@
        }) + quoted(ids.last())
    }
}

/// The subsequence of `ids` that are not UUIDs, in input order.
pub open spec fn invalid_of(ids: Seq<Seq<char>>) -> Seq<Seq<char>>
    decreases ids.len(),
{
    if ids.len() == 0 {
        Seq::empty()
    } else if uuid_of(ids.last()) is None {
        invalid_of(ids.drop_last()).push(ids.last())
    } else {
        invalid_of(ids.drop_last())
    }
}

/// The error text naming the identifiers that failed to parse: a bracketed,
/// comma-separated list of the offenders, each quoted, in input order.
pub open spec fn invalid_ids_error(ids: Seq<Seq<char>>) -> Seq<char> {
    "Invalid message IDs: ["@ + quoted_join(invalid_of(ids)) + "]"@
}

/// Every listed text is a UUID.
pub open spec fn all_ids_valid(ids: Seq<Seq<char>>) -> bool {
    forall|i: int| 0 <= i < ids.len() ==> uuid_of(#[trigger] ids[i]) is Some
}

/// The 128-bit values the listed UUID texts denote, position by position.
pub open spec fn parsed_ids(ids: Seq<Seq<char>>) -> Seq<u128> {
    ids.map_values(|s: Seq<char>| uuid_of(s)->Some_0)
}

/// No identifier is collected as invalid exactly when all parse.
proof fn lemma_invalid_of_empty(ids: Seq<Seq<char>>)
    ensures
        invalid_of(ids).len() == 0 <==> all_ids_valid(ids),
    decreases ids.len(),
{
    if ids.len() == 0 {
    } else {
        lemma_invalid_of_empty(ids.drop_last());
        assert forall|i: int|
            0 <= i < ids.drop_last().len() implies ids.drop_last()[i] == ids[i] by {}
        if invalid_of(ids).len() == 0 {
            assert(uuid_of(ids.last()) is Some);
            assert(ids[ids.len() - 1] == ids.last());
        } else {
            if all_ids_valid(ids) {
                assert(all_ids_valid(ids.drop_last()));
                assert(uuid_of(ids[ids.len() - 1]) is Some);
            }
        }
    }
}

/// The service: the store together with the payload-size policy.
pub struct MessageService {
    /// The store all operations act on.
    pub store: BaseMemoryStorage,
    /// Upper bound, in bytes, on an accepted message body.
    pub max_message_size: usize,
}

impl MessageService {
    /// Everything the service maintains between calls: the store's
    /// structural invariant, and the size bound on every stored body.
    pub open spec fn wf(self) -> bool {
        &&& self.store@.inv()
        &&& self.store@.bodies_bounded(self.max_message_size as int)
    }

    /// Creates a service over `store` with the default payload bound.
    pub fn new(store: BaseMemoryStorage) -> (service: MessageService)
        ensures
            service.store == store,
            service.max_message_size == DEFAULT_MAX_MESSAGE_SIZE,
    {
        MessageService { store, max_message_size: DEFAULT_MAX_MESSAGE_SIZE }
    }

    /// Creates a service over `store` that admits bodies of at most
    /// `max_message_size` bytes.
    pub fn with_max_message_size(store: BaseMemoryStorage, max_message_size: usize) -> (service:
        MessageService)
        ensures
            service.store == store,
            service.max_message_size == max_message_size,
    {
        MessageService { store, max_message_size }
    }

    /// Admits `body` if it fits the payload bound: a new message is
    /// created, appended to the queue, and returned. An oversized body is
    /// rejected with the exact error text, and the store is untouched.
    pub fn add(&mut self, body: String) -> (r: Result<Message, String>)
        requires
            old(self).wf(),
            vstd::utf8::encode_utf8(body@).len() <= usize::MAX,
        ensures
            final(self).wf(),
            final(self).max_message_size == old(self).max_message_size,
            retry_counts_nondecreasing(old(self).store@, final(self).store@),
            vstd::utf8::encode_utf8(body@).len() > old(self).max_message_size ==> r is Err && (
            r->Err_0)@ == size_error() && final(self).store@ == old(self).store@,
            vstd::utf8::encode_utf8(body@).len() <= old(self).max_message_size ==> r is Ok && ({
                let m = (r->Ok_0)@;
                &&& m.body == body@
                &&& m.state == MessageState::Ready
                &&& m.retry_count == 0
                &&& m.lock_until is None
                &&& !old(self).store@.contains_id(m.id)
                &&& final(self).store@ == spec_add(old(self).store@, m)
            }),
    {
        if body.as_str().len() > self.max_message_size {
            proof {
                lemma_counts_refl(self.store@);
            }
            return Err(String::from_str("Message body size is too large"));
        }
        let ghost pre = self.store@;
        let mut msg = Message::new(body);
        if self.store.contains_id(msg.id) {
            msg.id = self.store.unused_id();
        }
        let stored = msg.clone();
        match self.store.add(stored) {
            Ok(()) => {
                proof {
                    lemma_add_bounded(pre, msg@, self.max_message_size as int);
                }
                Ok(msg)
            },
            Err(e) => Err(e),
        }
    }

    /// Fetches up to `count` messages, oldest first; they move to the
    /// processing set and come back marked `Processing`. Never fails.
    pub fn get(&mut self, count: usize) -> (r: Result<Vec<Message>, String>)
        requires
            old(self).wf(),
        ensures
            final(self).wf(),
            final(self).max_message_size == old(self).max_message_size,
            r is Ok,
            msg_views((r->Ok_0)@) == spec_get_out(old(self).store@, count as int),
            final(self).store@ == spec_get(old(self).store@, count as int),
            retry_counts_nondecreasing(old(self).store@, final(self).store@),
    {
        let ghost pre = self.store@;
        let r = self.store.get(count);
        proof {
            lemma_get_bounded(pre, count as int, self.max_message_size as int);
        }
        r
    }

    /// Acknowledges the listed messages: validates the identifiers, then
    /// removes each from the processing set. An empty list and any
    /// non-UUID identifier are rejected with the exact error texts, and
    /// the store is untouched.
    pub fn delete(&mut self, ids: Vec<String>) -> (r: Result<(), String>)
        requires
            old(self).wf(),
        ensures
            final(self).wf(),
            final(self).max_message_size == old(self).max_message_size,
            retry_counts_nondecreasing(old(self).store@, final(self).store@),
            ids@.len() == 0 ==> r is Err && (r->Err_0)@ == empty_ids_error() && final(self).store@
                == old(self).store@,
            ids@.len() > 0 && !all_ids_valid(ids.deep_view()) ==> r is Err && (r->Err_0)@
                == invalid_ids_error(ids.deep_view()) && final(self).store@ == old(self).store@,
            ids@.len() > 0 && all_ids_valid(ids.deep_view()) ==> r is Ok && final(self).store@
                == spec_delete(old(self).store@, parsed_ids(ids.deep_view())),
    {
        let ghost pre = self.store@;
        match Self::validate_ids(&ids) {
            Err(e) => {
                proof {
                    lemma_counts_refl(self.store@);
                }
                Err(e)
            },
            Ok(parsed) => {
                match self.store.delete(parsed) {
                    Ok(()) => {
                        proof {
                            lemma_delete_bounded(
                                pre,
                                parsed_ids(ids.deep_view()),
                                self.max_message_size as int,
                            );
                        }
                        Ok(())
                    },
                    Err(e) => Err(e),
                }
            },
        }
    }

    /// Removes every message, queued or processing. Never fails.
    pub fn purge(&mut self) -> (r: Result<(), String>)
        requires
            old(self).wf(),
        ensures
            final(self).wf(),
            final(self).max_message_size == old(self).max_message_size,
            r is Ok,
            final(self).store@ == spec_purge(old(self).store@),
            retry_counts_nondecreasing(old(self).store@, final(self).store@),
    {
        self.store.purge()
    }

    /// Returns the listed messages to the queue: validates the
    /// identifiers, then moves each one found in the processing set back
    /// to the tail of the queue with its retry counter raised. An empty
    /// list and any non-UUID identifier are rejected with the exact error
    /// texts, and the store is untouched.
    pub fn retry(&mut self, ids: Vec<String>) -> (r: Result<(), String>)
        requires
            old(self).wf(),
        ensures
            final(self).wf(),
            final(self).max_message_size == old(self).max_message_size,
            retry_counts_nondecreasing(old(self).store@, final(self).store@),
            ids@.len() == 0 ==> r is Err && (r->Err_0)@ == empty_ids_error() && final(self).store@
                == old(self).store@,
            ids@.len() > 0 && !all_ids_valid(ids.deep_view()) ==> r is Err && (r->Err_0)@
                == invalid_ids_error(ids.deep_view()) && final(self).store@ == old(self).store@,
            ids@.len() > 0 && all_ids_valid(ids.deep_view()) ==> r is Ok && final(self).store@
                == spec_retry(old(self).store@, parsed_ids(ids.deep_view())),
    {
        let ghost pre = self.store@;
        match Self::validate_ids(&ids) {
            Err(e) => {
                proof {
                    lemma_counts_refl(self.store@);
                }
                Err(e)
            },
            Ok(parsed) => {
                match self.store.retry(parsed) {
                    Ok(()) => {
                        proof {
                            lemma_retry_bounded(
                                pre,
                                parsed_ids(ids.deep_view()),
                                self.max_message_size as int,
                            );
                        }
                        Ok(())
                    },
                    Err(e) => Err(e),
                }
            },
        }
    }

    /// Validates a list of identifier texts. An empty list is rejected;
    /// so is a list with any text that is not a UUID, naming all the
    /// offenders in input order. Otherwise the parsed 128-bit values are
    /// returned, position by position.
    #[verifier::loop_isolation(false)]
    pub fn validate_ids(ids: &Vec<String>) -> (r: Result<Vec<u128>, String>)
        ensures
            ids@.len() == 0 ==> r is Err && (r->Err_0)@ == empty_ids_error(),
            ids@.len() > 0 && !all_ids_valid(ids.deep_view()) ==> r is Err && (r->Err_0)@
                == invalid_ids_error(ids.deep_view()),
            ids@.len() > 0 && all_ids_valid(ids.deep_view()) ==> r is Ok && (r->Ok_0)@
                == parsed_ids(ids.deep_view()),
    {
        if ids.len() == 0 {
            return Err(String::from_str("No message IDs provided"));
        }
        let ghost dv = ids.deep_view();
        let mut parsed: Vec<u128> = Vec::new();
        let mut invalid: Vec<String> = Vec::new();
        let mut i: usize = 0;
        while i < ids.len()
            invariant
                i <= ids@.len(),
                dv.len() == ids@.len(),
                invalid.deep_view() == invalid_of(dv.take(i as int)),
                invalid@.len() == 0 ==> parsed@ == parsed_ids(dv.take(i as int)),
            decreases ids@.len() - i,
        {
            let ghost prev_invalid = invalid.deep_view();
            let ghost prev_parsed = parsed@;
            proof {
                assert(dv[i as int] == ids@[i as int]@);
                assert(dv.take(i + 1).drop_last() =~= dv.take(i as int));
                assert(dv.take(i + 1).last() == dv[i as int]);
            }
            match parse_id(ids[i].as_str()) {
                Some(v) => {
                    parsed.push(v);
                    proof {
                        if prev_invalid.len() == 0 {
                            assert(parsed@ =~= parsed_ids(dv.take(i + 1)));
                        }
                        assert(invalid.deep_view() =~= invalid_of(dv.take(i + 1)));
                    }
                },
                None => {
                    invalid.push(ids[i].clone());
                    proof {
                        assert(invalid.deep_view() =~= prev_invalid.push(dv[i as int]));
                        assert(invalid.deep_view() =~= invalid_of(dv.take(i + 1)));
                    }
                },
            }
            i += 1;
        }
        proof {
            assert(dv.take(dv.len() as int) =~= dv);
            lemma_invalid_of_empty(dv);
        }
        if invalid.len() > 0 {
            Err(Self::render_invalid_ids(&invalid))
        } else {
            Ok(parsed)
        }
    }

    /// Renders the invalid-identifier error text for the collected
    /// offenders: each quoted, comma-separated, bracketed.
    #[verifier::loop_isolation(false)]
    fn render_invalid_ids(invalid: &Vec<String>) -> (msg: String)
        ensures
            msg@ == "Invalid message IDs: ["@ + quoted_join(invalid.deep_view()) + "]"@,
    {
        let ghost dv = invalid.deep_view();
        let mut msg = String::from_str("Invalid message IDs: [");
        let mut k: usize = 0;
        while k < invalid.len()
            invariant
                k <= invalid@.len(),
                dv.len() == invalid@.len(),
                msg@ == "Invalid message IDs: ["@ + quoted_join(dv.take(k as int)),
            decreases invalid@.len() - k,
        {
            proof {
                assert(dv.take(k + 1).drop_last() =~= dv.take(k as int));
                assert(dv.take(k + 1).last() == dv[k as int]);
                assert(dv[k as int] == invalid@[k as int]@);
            }
            if k > 0 {
                msg.append(", ");
            }
            msg.append("\"");
            msg.append(invalid[k].as_str());
            msg.append("\"");
            k += 1;
        }
        proof {
            assert(dv.take(dv.len() as int) =~= dv);
        }
        msg.append("]");
        msg
    }
}

} // verus!
