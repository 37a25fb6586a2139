//! The in-memory store: a ready queue and a processing set, with each
//! operation proved to perform exactly the transition of the model.

use vstd::prelude::*;

use crate::laws::{
    lemma_add_counts, lemma_delete_counts, lemma_delete_preserves_inv, lemma_get_counts,
    lemma_get_preserves_inv, lemma_retry_counts, lemma_retry_preserves_inv,
    retry_counts_nondecreasing,
};
use crate::store_model::{
    find_id, has_id, lemma_delete_snoc, lemma_find_id, lemma_retry_snoc, spec_add, spec_delete,
    spec_get, spec_get_out, spec_purge, spec_retry, StoreView,
};
use crate::types::{Message, MessageState, MessageView};

verus! {

/// The views of a sequence of messages, position by position.
pub open spec fn msg_views(msgs: Seq<Message>) -> Seq<MessageView> {
    msgs.map_values(|m: Message| m@)
}

/// In-memory storage: the ready queue in insertion order, and the messages
/// currently being processed.
pub struct BaseMemoryStorage {
    /// Messages waiting to be fetched, head first.
    pub queue: Vec<Message>,
    /// Messages handed to consumers, awaiting delete or retry. Keyed by
    /// their identifier; the order of this vector carries no meaning.
    pub processing: Vec<Message>,
}

impl View for BaseMemoryStorage {
    type V = StoreView;

    open spec fn view(&self) -> StoreView {
        StoreView { queue: msg_views(self.queue@), processing: msg_views(self.processing@) }
    }
}

/// Removes the first message with the given identifier from `list`, if any.
#[verifier::loop_isolation(false)]
fn take_out(list: &mut Vec<Message>, id: u128) -> (r: Option<Message>)
    ensures
        ({
            let pre = msg_views(old(list)@);
            let k = find_id(pre, id);
            &&& k < 0 ==> r is None && final(list)@ == old(list)@
            &&& k >= 0 ==> r is Some && (r->Some_0)@ == pre[k] && msg_views(final(list)@)
                == pre.remove(k)
        }),
{
    let ghost pre = msg_views(old(list)@);
    let mut j: usize = 0;
    while j < list.len()
        invariant
            j <= list.len(),
            list@ == old(list)@,
            pre.len() == list@.len(),
            forall|jj: int| 0 <= jj < j ==> (#[trigger] pre[jj]).id != id,
        decreases list.len() - j,
    {
        if list[j].id == id {
            proof {
                assert(pre[j as int].id == id);
                lemma_find_id(pre, id);
                assert(has_id(pre, id));
                let f = find_id(pre, id);
                assert(pre[f].id == id);
                assert(f == j);
            }
            let m = list.remove(j);
            proof {
                assert(msg_views(list@) =~= pre.remove(j as int));
            }
            return Some(m);
        }
        j += 1;
    }
    proof {
        lemma_find_id(pre, id);
        assert(!has_id(pre, id));
    }
    None
}

impl BaseMemoryStorage {
    /// Creates an empty store.
    pub fn new() -> (s: Self)
        ensures
            s@ == StoreView::empty(),
            s@.inv(),
    {
        let s = BaseMemoryStorage { queue: Vec::new(), processing: Vec::new() };
        proof {
            assert(s@.queue =~= Seq::<MessageView>::empty());
            assert(s@.processing =~= Seq::<MessageView>::empty());
        }
        s
    }

    /// Whether a message with identifier `id` is stored, in either location.
    #[verifier::loop_isolation(false)]
    pub fn contains_id(&self, id: u128) -> (b: bool)
        ensures
            b == self@.contains_id(id),
    {
        let mut j: usize = 0;
        while j < self.queue.len()
            invariant
                j <= self.queue.len(),
                forall|jj: int| 0 <= jj < j ==> (#[trigger] self@.queue[jj]).id != id,
            decreases self.queue.len() - j,
        {
            if self.queue[j].id == id {
                proof {
                    assert(self@.queue[j as int].id == id);
                }
                return true;
            }
            j += 1;
        }
        let mut j: usize = 0;
        while j < self.processing.len()
            invariant
                j <= self.processing.len(),
                forall|jj: int| 0 <= jj < j ==> (#[trigger] self@.processing[jj]).id != id,
                !has_id(self@.queue, id),
            decreases self.processing.len() - j,
        {
            if self.processing[j].id == id {
                proof {
                    assert(self@.processing[j as int].id == id);
                }
                return true;
            }
            j += 1;
        }
        false
    }

    /// Appends `msg` to the tail of the ready queue. Never fails.
    ///
    /// The caller supplies a ready message with a fresh identifier; that is
    /// what keeps identifiers unique across the store.
    pub fn add(&mut self, msg: Message) -> (r: Result<(), String>)
        requires
            old(self)@.inv(),
            msg@.state == MessageState::Ready,
            msg@.retry_count >= 0,
            !old(self)@.contains_id(msg@.id),
        ensures
            r is Ok,
            final(self)@ == spec_add(old(self)@, msg@),
            final(self)@.inv(),
            retry_counts_nondecreasing(old(self)@, final(self)@),
    {
        let ghost pre = self@;
        let ghost mv = msg@;
        self.queue.push(msg);
        proof {
            assert(self@.queue =~= pre.queue.push(mv));
            assert(self@ =~= spec_add(pre, mv));
            crate::laws::lemma_add_preserves_inv(pre, mv);
            lemma_add_counts(pre, mv);
        }
        Ok(())
    }

    /// Fetches up to `count` messages from the head of the queue, in order,
    /// marks each `Processing`, and records a copy of each in the
    /// processing set. Never fails; returns fewer messages when fewer are
    /// queued, and an empty batch for `count` of zero.
    #[verifier::loop_isolation(false)]
    pub fn get(&mut self, count: usize) -> (r: Result<Vec<Message>, String>)
        requires
            old(self)@.inv(),
        ensures
            r is Ok,
            msg_views((r->Ok_0)@) == spec_get_out(old(self)@, count as int),
            final(self)@ == spec_get(old(self)@, count as int),
            final(self)@.inv(),
            retry_counts_nondecreasing(old(self)@, final(self)@),
    {
        let ghost pre = self@;
        let n = if count < self.queue.len() {
            count
        } else {
            self.queue.len()
        };
        let mut out: Vec<Message> = Vec::new();
        let mut k: usize = 0;
        while k < n
            invariant
                k <= n,
                n == crate::store_model::fetch_count(pre, count as int),
                n <= pre.queue.len(),
                self.queue@.len() == pre.queue.len() - k,
                msg_views(self.queue@) == pre.queue.skip(k as int),
                msg_views(self.processing@) == pre.processing + spec_get_out(pre, k as int),
                msg_views(out@) == spec_get_out(pre, k as int),
            decreases n - k,
        {
            let ghost oldq = self.queue@;
            let ghost oldp = self.processing@;
            let ghost oldout = out@;
            let mut m = self.queue.remove(0);
            proof {
                assert(m@ == msg_views(oldq)[0]);
                assert(msg_views(oldq)[0] == pre.queue[k as int]);
            }
            m.state = MessageState::Processing;
            proof {
                assert(m@ == crate::store_model::mark_processing(pre.queue[k as int]));
            }
            let copy = m.clone();
            self.processing.push(copy);
            out.push(m);
            proof {
                assert(self.queue@ == oldq.remove(0));
                assert forall|i: int| 0 <= i < self.queue@.len() implies msg_views(self.queue@)[i]
                    == pre.queue.skip(k + 1)[i] by {
                    assert(self.queue@[i] == oldq[i + 1]);
                    assert(msg_views(oldq)[i + 1] == pre.queue.skip(k as int)[i + 1]);
                }
                assert(msg_views(self.queue@) =~= pre.queue.skip(k + 1));
                assert(spec_get_out(pre, k + 1) =~= spec_get_out(pre, k as int).push(m@));
                assert(msg_views(self.processing@) =~= msg_views(oldp).push(copy@));
                assert(msg_views(self.processing@) =~= pre.processing + spec_get_out(pre, k + 1));
                assert(msg_views(out@) =~= msg_views(oldout).push(m@));
                assert(msg_views(out@) =~= spec_get_out(pre, k + 1));
            }
            k += 1;
        }
        proof {
            assert(msg_views(out@) =~= spec_get_out(pre, count as int));
            assert(msg_views(self.queue@) =~= spec_get(pre, count as int).queue);
            assert(msg_views(self.processing@) =~= spec_get(pre, count as int).processing);
            assert(self@ =~= spec_get(pre, count as int));
            lemma_get_preserves_inv(pre, count as int);
            lemma_get_counts(pre, count as int);
        }
        Ok(out)
    }

    /// Removes each listed identifier from the processing set, if present.
    /// Unknown identifiers, duplicates, and identifiers of messages still in
    /// the queue are silently ignored. Never fails.
    #[verifier::loop_isolation(false)]
    pub fn delete(&mut self, ids: Vec<u128>) -> (r: Result<(), String>)
        requires
            old(self)@.inv(),
        ensures
            r is Ok,
            final(self)@ == spec_delete(old(self)@, ids@),
            final(self)@.inv(),
            retry_counts_nondecreasing(old(self)@, final(self)@),
    {
        let ghost pre = self@;
        let mut k: usize = 0;
        while k < ids.len()
            invariant
                k <= ids.len(),
                self@ == spec_delete(pre, ids@.take(k as int)),
            decreases ids.len() - k,
        {
            let ghost mid = self@;
            let _ = take_out(&mut self.processing, ids[k]);
            proof {
                assert(self@ =~= crate::store_model::delete_one(mid, ids@[k as int]));
                lemma_delete_snoc(pre, ids@.take(k as int), ids@[k as int]);
                assert(ids@.take(k as int).push(ids@[k as int]) =~= ids@.take(k + 1));
            }
            k += 1;
        }
        proof {
            assert(ids@.take(ids@.len() as int) =~= ids@);
            lemma_delete_preserves_inv(pre, ids@);
            lemma_delete_counts(pre, ids@);
        }
        Ok(())
    }

    /// Empties both the queue and the processing set. Never fails.
    pub fn purge(&mut self) -> (r: Result<(), String>)
        ensures
            r is Ok,
            final(self)@ == spec_purge(old(self)@),
            final(self)@.inv(),
            retry_counts_nondecreasing(old(self)@, final(self)@),
    {
        self.queue.clear();
        self.processing.clear();
        proof {
            assert(self@.queue =~= Seq::<MessageView>::empty());
            assert(self@.processing =~= Seq::<MessageView>::empty());
            assert(self@ =~= spec_purge(old(self)@));
        }
        Ok(())
    }

    /// For each listed identifier in input order: if it is in the
    /// processing set, removes it there and appends it to the tail of the
    /// queue, ready again with its retry counter one higher. Identifiers
    /// not in the processing set are silently skipped. Never fails.
    #[verifier::loop_isolation(false)]
    pub fn retry(&mut self, ids: Vec<u128>) -> (r: Result<(), String>)
        requires
            old(self)@.inv(),
        ensures
            r is Ok,
            final(self)@ == spec_retry(old(self)@, ids@),
            final(self)@.inv(),
            retry_counts_nondecreasing(old(self)@, final(self)@),
    {
        let ghost pre = self@;
        let mut retried: Vec<Message> = Vec::new();
        let mut k: usize = 0;
        while k < ids.len()
            invariant
                k <= ids.len(),
                msg_views(self.processing@) == spec_retry(pre, ids@.take(k as int)).processing,
                msg_views(self.queue@) == pre.queue,
                pre.queue + msg_views(retried@) == spec_retry(pre, ids@.take(k as int)).queue,
            decreases ids.len() - k,
        {
            let ghost mid = StoreView {
                queue: pre.queue + msg_views(retried@),
                processing: msg_views(self.processing@),
            };
            proof {
                assert(mid == spec_retry(pre, ids@.take(k as int)));
            }
            match take_out(&mut self.processing, ids[k]) {
                Some(mut m) => {
                    if m.retry_count < i32::MAX {
                        m.retry_count = m.retry_count + 1;
                    }
                    m.state = MessageState::Ready;
                    proof {
                        let i = find_id(mid.processing, ids@[k as int]);
                        assert(m@ == crate::store_model::bump_retry(mid.processing[i]));
                    }
                    retried.push(m);
                },
                None => {},
            }
            proof {
                let post1 = crate::store_model::retry_one(mid, ids@[k as int]);
                assert(msg_views(self.processing@) =~= post1.processing);
                assert(pre.queue + msg_views(retried@) =~= post1.queue);
                lemma_retry_snoc(pre, ids@.take(k as int), ids@[k as int]);
                assert(ids@.take(k as int).push(ids@[k as int]) =~= ids@.take(k + 1));
            }
            k += 1;
        }
        self.queue.append(&mut retried);
        proof {
            assert(ids@.take(ids@.len() as int) =~= ids@);
            assert(msg_views(self.queue@) =~= spec_retry(pre, ids@).queue);
            assert(self@ =~= spec_retry(pre, ids@));
            lemma_retry_preserves_inv(pre, ids@);
            lemma_retry_counts(pre, ids@);
        }
        Ok(())
    }

    /// Returns an identifier not currently stored. The first choice is a
    /// fresh time-ordered identifier; in the vanishingly unlikely event of a
    /// collision, the store being finite guarantees that one of the first
    /// `len + 1` small identifiers is free, and the smallest free one is
    /// taken instead.
    #[verifier::loop_isolation(false)]
    pub fn unused_id(&self) -> (id: u128)
        requires
            self@.inv(),
        ensures
            !self@.contains_id(id),
    {
        let id = crate::ids::fresh_id();
        if !self.contains_id(id) {
            return id;
        }
        let bound: u128 = self.queue.len() as u128 + self.processing.len() as u128;
        let mut c: u128 = 0;
        while c <= bound
            invariant
                c <= bound + 1,
                bound == crate::laws::all_msgs(self@).len(),
                forall|cc: u128| cc < c ==> #[trigger] self@.contains_id(cc),
            decreases bound - c + 1,
        {
            if !self.contains_id(c) {
                return c;
            }
            c += 1;
        }
        proof {
            crate::laws::lemma_small_id_free(self@);
            let c0 = choose|c0: u128|
                c0 <= crate::laws::all_msgs(self@).len() && !self@.contains_id(c0);
            assert(self@.contains_id(c0));
        }
        // unreachable: some identifier at or below the store's size is free
        0
    }

    /// Number of messages waiting in the ready queue.
    pub fn queue_len(&self) -> (n: usize)
        ensures
            n == self@.queue.len(),
    {
        self.queue.len()
    }

    /// Number of messages in the processing set.
    pub fn processing_len(&self) -> (n: usize)
        ensures
            n == self@.processing.len(),
    {
        self.processing.len()
    }
}

} // verus!
