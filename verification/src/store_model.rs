//! Mathematical model of the store: the ready queue and the processing set,
//! the transition each operation performs, and the laws the transitions obey.

use vstd::prelude::*;

use crate::types::{MessageState, MessageView};

verus! {

/// Model of the store's state: the ready queue in order, and the processing
/// set (kept as a sequence; its order carries no meaning, only membership).
#[verifier::ext_equal]
pub ghost struct StoreView {
    pub queue: Seq<MessageView>,
    pub processing: Seq<MessageView>,
}

/// Identifiers of a sequence of messages, position by position.
pub open spec fn msg_ids(msgs: Seq<MessageView>) -> Seq<u128> {
    msgs.map_values(|m: MessageView| m.id)
}

/// Whether some message in `msgs` carries the identifier `id`.
pub open spec fn has_id(msgs: Seq<MessageView>, id: u128) -> bool {
    exists|i: int| 0 <= i < msgs.len() && msgs[i].id == id
}

/// No two messages of `msgs` share an identifier.
pub open spec fn unique_ids(msgs: Seq<MessageView>) -> bool {
    forall|i: int, j: int|
        0 <= i < j < msgs.len() ==> (#[trigger] msgs[i]).id != (#[trigger] msgs[j]).id
}

/// Index of the first message of `msgs` with identifier `id`, or `-1`.
pub open spec fn find_id(msgs: Seq<MessageView>, id: u128) -> int
    decreases msgs.len(),
{
    if msgs.len() == 0 {
        -1
    } else if msgs[0].id == id {
        0
    } else {
        let rest = find_id(msgs.skip(1), id);
        if rest < 0 {
            -1
        } else {
            rest + 1
        }
    }
}

/// Number of bytes the body occupies in its UTF-8 encoding; payload size
/// limits speak of this measure.
pub open spec fn body_size(m: MessageView) -> int {
    vstd::utf8::encode_utf8(m.body).len() as int
}

impl StoreView {
    /// The empty store.
    pub open spec fn empty() -> StoreView {
        StoreView { queue: Seq::empty(), processing: Seq::empty() }
    }

    /// Whether `id` is stored, in either location.
    pub open spec fn contains_id(self, id: u128) -> bool {
        has_id(self.queue, id) || has_id(self.processing, id)
    }

    /// Structural invariant: queued messages are `Ready`, processing
    /// messages are `Processing`, retry counters are non-negative, and no
    /// identifier appears twice, neither within one location nor across the
    /// two.
    pub open spec fn inv(self) -> bool {
        &&& forall|i: int|
            0 <= i < self.queue.len() ==> (#[trigger] self.queue[i]).state == MessageState::Ready
                && self.queue[i].retry_count >= 0
        &&& forall|i: int|
            0 <= i < self.processing.len() ==> (#[trigger] self.processing[i]).state
                == MessageState::Processing && self.processing[i].retry_count >= 0
        &&& unique_ids(self.queue)
        &&& unique_ids(self.processing)
        &&& forall|i: int, j: int|
            0 <= i < self.queue.len() && 0 <= j < self.processing.len() ==> (
            #[trigger] self.queue[i]).id != (#[trigger] self.processing[j]).id
    }

    /// Every stored body fits in `max` bytes.
    pub open spec fn bodies_bounded(self, max: int) -> bool {
        &&& forall|i: int| 0 <= i < self.queue.len() ==> body_size(#[trigger] self.queue[i]) <= max
        &&& forall|i: int|
            0 <= i < self.processing.len() ==> body_size(#[trigger] self.processing[i]) <= max
    }
}

/// A message as `get` hands it out: same identity, state `Processing`.
pub open spec fn mark_processing(m: MessageView) -> MessageView {
    MessageView { state: MessageState::Processing, ..m }
}

/// A message as `retry` re-enqueues it: state `Ready`, retry counter one
/// higher (saturating at the counter type's maximum, which no realistic run
/// reaches).
pub open spec fn bump_retry(m: MessageView) -> MessageView {
    MessageView {
        state: MessageState::Ready,
        retry_count: if m.retry_count == i32::MAX as int {
            m.retry_count
        } else {
            m.retry_count + 1
        },
        ..m
    }
}

/// `add`: append one message to the tail of the ready queue.
pub open spec fn spec_add(s: StoreView, m: MessageView) -> StoreView {
    StoreView { queue: s.queue.push(m), processing: s.processing }
}

/// How many messages `get(count)` hands out: `count`, capped by the queue.
pub open spec fn fetch_count(s: StoreView, count: int) -> int {
    if count < 0 {
        0
    } else if count <= s.queue.len() {
        count
    } else {
        s.queue.len() as int
    }
}

/// The batch `get(count)` returns: the head of the queue, in order, each
/// message marked `Processing`.
pub open spec fn spec_get_out(s: StoreView, count: int) -> Seq<MessageView> {
    s.queue.take(fetch_count(s, count)).map_values(|m: MessageView| mark_processing(m))
}

/// `get`: move the returned batch from the queue into processing.
pub open spec fn spec_get(s: StoreView, count: int) -> StoreView {
    StoreView {
        queue: s.queue.skip(fetch_count(s, count)),
        processing: s.processing + spec_get_out(s, count),
    }
}

/// `delete` of a single identifier: drop it from processing if present;
/// the queue is never touched.
pub open spec fn delete_one(s: StoreView, id: u128) -> StoreView {
    let i = find_id(s.processing, id);
    if i < 0 {
        s
    } else {
        StoreView { queue: s.queue, processing: s.processing.remove(i) }
    }
}

/// `delete`: drop each listed identifier in turn.
pub open spec fn spec_delete(s: StoreView, ids: Seq<u128>) -> StoreView
    decreases ids.len(),
{
    if ids.len() == 0 {
        s
    } else {
        spec_delete(delete_one(s, ids[0]), ids.skip(1))
    }
}

/// `retry` of a single identifier: if present in processing, remove it there
/// and append it to the tail of the queue, ready again with its retry
/// counter bumped; otherwise do nothing.
pub open spec fn retry_one(s: StoreView, id: u128) -> StoreView {
    let i = find_id(s.processing, id);
    if i < 0 {
        s
    } else {
        StoreView {
            queue: s.queue.push(bump_retry(s.processing[i])),
            processing: s.processing.remove(i),
        }
    }
}

/// `retry`: process each listed identifier in input order.
pub open spec fn spec_retry(s: StoreView, ids: Seq<u128>) -> StoreView
    decreases ids.len(),
{
    if ids.len() == 0 {
        s
    } else {
        spec_retry(retry_one(s, ids[0]), ids.skip(1))
    }
}

/// `purge`: both locations emptied.
pub open spec fn spec_purge(s: StoreView) -> StoreView {
    StoreView::empty()
}

/// What `find_id` finds: a valid position holding `id`, first of its kind,
/// and `-1` exactly when `id` is absent.
pub proof fn lemma_find_id(msgs: Seq<MessageView>, id: u128)
    ensures
        find_id(msgs, id) >= 0 <==> has_id(msgs, id),
        find_id(msgs, id) >= 0 ==> find_id(msgs, id) < msgs.len() && msgs[find_id(msgs, id)].id
            == id,
        forall|j: int| 0 <= j < find_id(msgs, id) ==> (#[trigger] msgs[j]).id != id,
    decreases msgs.len(),
{
    if msgs.len() == 0 {
    } else if msgs[0].id == id {
    } else {
        lemma_find_id(msgs.skip(1), id);
        let rest = find_id(msgs.skip(1), id);
        if rest >= 0 {
            assert(msgs[rest + 1] == msgs.skip(1)[rest]);
            assert(forall|j: int|
                1 <= j < rest + 1 ==> (#[trigger] msgs[j]).id == msgs.skip(1)[j - 1].id);
        } else {
            assert(forall|i: int|
                1 <= i < msgs.len() ==> (#[trigger] msgs[i]).id == msgs.skip(1)[i - 1].id);
        }
    }
}

/// Folding `delete` over `ids` and then one more identifier is deleting the
/// identifiers of `ids.push(id)`.
pub proof fn lemma_delete_snoc(s: StoreView, ids: Seq<u128>, id: u128)
    ensures
        spec_delete(s, ids.push(id)) == delete_one(spec_delete(s, ids), id),
    decreases ids.len(),
{
    assert(ids.push(id)[0] == if ids.len() == 0 { id } else { ids[0] });
    if ids.len() == 0 {
        assert(ids.push(id).skip(1) =~= Seq::<u128>::empty());
        assert(spec_delete(delete_one(s, id), Seq::<u128>::empty()) == delete_one(s, id));
    } else {
        assert(ids.push(id).skip(1) =~= ids.skip(1).push(id));
        lemma_delete_snoc(delete_one(s, ids[0]), ids.skip(1), id);
    }
}

/// Folding `retry` over `ids` and then one more identifier is retrying the
/// identifiers of `ids.push(id)`.
pub proof fn lemma_retry_snoc(s: StoreView, ids: Seq<u128>, id: u128)
    ensures
        spec_retry(s, ids.push(id)) == retry_one(spec_retry(s, ids), id),
    decreases ids.len(),
{
    assert(ids.push(id)[0] == if ids.len() == 0 { id } else { ids[0] });
    if ids.len() == 0 {
        assert(ids.push(id).skip(1) =~= Seq::<u128>::empty());
        assert(spec_retry(retry_one(s, id), Seq::<u128>::empty()) == retry_one(s, id));
    } else {
        assert(ids.push(id).skip(1) =~= ids.skip(1).push(id));
        lemma_retry_snoc(retry_one(s, ids[0]), ids.skip(1), id);
    }
}

} // verus!
