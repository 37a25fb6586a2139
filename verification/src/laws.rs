//! Laws of the store's transitions: the structural invariant is preserved by
//! every operation, retry counters never decrease, stored bodies stay within
//! the admission bound, fetching respects insertion order, and delete and
//! retry are idempotent.

use vstd::prelude::*;

use crate::store_model::{
    body_size, bump_retry, delete_one, fetch_count, find_id, has_id, lemma_find_id,
    mark_processing, msg_ids, retry_one, spec_add, spec_delete, spec_get, spec_get_out, spec_purge,
    spec_retry, unique_ids, StoreView,
};
use crate::types::{MessageState, MessageView};

verus! {

/// Everything the store holds, queue first.
pub open spec fn all_msgs(s: StoreView) -> Seq<MessageView> {
    s.queue + s.processing
}

/// `post` is what an operation may make of `pre`: same identity, same body,
/// a retry counter at least as high.
pub open spec fn derived_msg(post: MessageView, pre: MessageView) -> bool {
    post.id == pre.id && post.body == pre.body && post.retry_count >= pre.retry_count
}

/// The message at position `j` of `post` is derived from some message of
/// `pre`.
pub open spec fn has_ancestor(post: Seq<MessageView>, j: int, pre: Seq<MessageView>) -> bool {
    exists|i: int| 0 <= i < pre.len() && derived_msg(post[j], #[trigger] pre[i])
}

/// Every message of `post` is derived from some message of `pre`: the store
/// never invents a message.
pub open spec fn descended_from(post: Seq<MessageView>, pre: Seq<MessageView>) -> bool {
    forall|j: int| 0 <= j < post.len() ==> #[trigger] has_ancestor(post, j, pre)
}

/// Between two states, no identifier's retry counter has decreased.
pub open spec fn retry_counts_nondecreasing(pre: StoreView, post: StoreView) -> bool {
    forall|i: int, j: int|
        0 <= i < all_msgs(pre).len() && 0 <= j < all_msgs(post).len() && (#[trigger] all_msgs(
            pre,
        )[i]).id == (#[trigger] all_msgs(post)[j]).id ==> all_msgs(post)[j].retry_count >= all_msgs(
            pre,
        )[i].retry_count
}

/// In a state satisfying the invariant, identifiers are unique across the
/// whole store.
pub proof fn lemma_inv_all_unique(s: StoreView)
    requires
        s.inv(),
    ensures
        unique_ids(all_msgs(s)),
{
    assert forall|i: int, j: int| 0 <= i < j < all_msgs(s).len() implies (#[trigger] all_msgs(
        s,
    )[i]).id != (#[trigger] all_msgs(s)[j]).id by {
        let q = s.queue.len() as int;
        if i < q && j < q {
            assert(all_msgs(s)[i] == s.queue[i] && all_msgs(s)[j] == s.queue[j]);
        } else if i < q {
            assert(all_msgs(s)[i] == s.queue[i] && all_msgs(s)[j] == s.processing[j - q]);
        } else {
            assert(all_msgs(s)[i] == s.processing[i - q] && all_msgs(s)[j] == s.processing[j - q]);
        }
    }
}

/// With unique identifiers in `pre`, descent implies that no retry counter
/// decreases.
pub proof fn lemma_descended_counts(pre: StoreView, post: StoreView)
    requires
        unique_ids(all_msgs(pre)),
        descended_from(all_msgs(post), all_msgs(pre)),
    ensures
        retry_counts_nondecreasing(pre, post),
{
    assert forall|i: int, j: int|
        0 <= i < all_msgs(pre).len() && 0 <= j < all_msgs(post).len() && (#[trigger] all_msgs(
            pre,
        )[i]).id == (#[trigger] all_msgs(post)[j]).id implies all_msgs(post)[j].retry_count
        >= all_msgs(pre)[i].retry_count by {
        assert(has_ancestor(all_msgs(post), j, all_msgs(pre)));
        let i0 = choose|i0: int|
            0 <= i0 < all_msgs(pre).len() && derived_msg(
                all_msgs(post)[j],
                #[trigger] all_msgs(pre)[i0],
            );
        assert(all_msgs(pre)[i0].id == all_msgs(pre)[i].id);
        assert(i0 == i);
    }
}

/// Descent carries the body bound from `pre` to `post`.
pub proof fn lemma_descended_bounded(pre: StoreView, post: StoreView, max: int)
    requires
        pre.bodies_bounded(max),
        descended_from(all_msgs(post), all_msgs(pre)),
    ensures
        post.bodies_bounded(max),
{
    let q = pre.queue.len() as int;
    assert forall|k: int| 0 <= k < post.queue.len() implies body_size(#[trigger] post.queue[k])
        <= max by {
        assert(all_msgs(post)[k] == post.queue[k]);
        assert(has_ancestor(all_msgs(post), k, all_msgs(pre)));
        let i = choose|i: int|
            0 <= i < all_msgs(pre).len() && derived_msg(
                all_msgs(post)[k],
                #[trigger] all_msgs(pre)[i],
            );
        if i < q {
            assert(all_msgs(pre)[i] == pre.queue[i]);
        } else {
            assert(all_msgs(pre)[i] == pre.processing[i - q]);
        }
    }
    assert forall|k: int| 0 <= k < post.processing.len() implies body_size(
        #[trigger] post.processing[k],
    ) <= max by {
        let j = post.queue.len() + k;
        assert(all_msgs(post)[j] == post.processing[k]);
        assert(has_ancestor(all_msgs(post), j, all_msgs(pre)));
        let i = choose|i: int|
            0 <= i < all_msgs(pre).len() && derived_msg(
                all_msgs(post)[j],
                #[trigger] all_msgs(pre)[i],
            );
        if i < q {
            assert(all_msgs(pre)[i] == pre.queue[i]);
        } else {
            assert(all_msgs(pre)[i] == pre.processing[i - q]);
        }
    }
}

/// Descent composes across consecutive operations.
pub proof fn lemma_descended_trans(a: Seq<MessageView>, b: Seq<MessageView>, c: Seq<MessageView>)
    requires
        descended_from(c, b),
        descended_from(b, a),
    ensures
        descended_from(c, a),
{
    assert forall|j: int| 0 <= j < c.len() implies #[trigger] has_ancestor(c, j, a) by {
        assert(has_ancestor(c, j, b));
        let jb = choose|jb: int| 0 <= jb < b.len() && derived_msg(c[j], #[trigger] b[jb]);
        assert(has_ancestor(b, jb, a));
        let ia = choose|ia: int| 0 <= ia < a.len() && derived_msg(b[jb], #[trigger] a[ia]);
        assert(derived_msg(c[j], a[ia]));
    }
}

/// A state descends from itself.
pub proof fn lemma_descended_refl(msgs: Seq<MessageView>)
    ensures
        descended_from(msgs, msgs),
{
    assert forall|j: int| 0 <= j < msgs.len() implies #[trigger] has_ancestor(msgs, j, msgs) by {
        assert(derived_msg(msgs[j], msgs[j]));
    }
}

/// A state left unchanged lowers no retry counter.
pub proof fn lemma_counts_refl(s: StoreView)
    requires
        s.inv(),
    ensures
        retry_counts_nondecreasing(s, s),
{
    lemma_inv_all_unique(s);
    lemma_descended_refl(all_msgs(s));
    lemma_descended_counts(s, s);
}

/// Adding a message whose body fits the bound keeps every stored body
/// within the bound.
pub proof fn lemma_add_bounded(s: StoreView, m: MessageView, max: int)
    requires
        s.bodies_bounded(max),
        body_size(m) <= max,
    ensures
        spec_add(s, m).bodies_bounded(max),
{
    let post = spec_add(s, m);
    assert forall|i: int| 0 <= i < post.queue.len() implies body_size(#[trigger] post.queue[i])
        <= max by {
        if i < s.queue.len() {
            assert(post.queue[i] == s.queue[i]);
        } else {
            assert(post.queue[i] == m);
        }
    }
}

/// Fetching keeps every stored body within the bound.
pub proof fn lemma_get_bounded(s: StoreView, count: int, max: int)
    requires
        s.bodies_bounded(max),
    ensures
        spec_get(s, count).bodies_bounded(max),
{
    lemma_get_descended(s, count);
    lemma_descended_bounded(s, spec_get(s, count), max);
}

/// Deleting keeps every stored body within the bound.
pub proof fn lemma_delete_bounded(s: StoreView, ids: Seq<u128>, max: int)
    requires
        s.inv(),
        s.bodies_bounded(max),
    ensures
        spec_delete(s, ids).bodies_bounded(max),
{
    lemma_delete_preserves_inv(s, ids);
    lemma_descended_bounded(s, spec_delete(s, ids), max);
}

/// Retrying keeps every stored body within the bound.
pub proof fn lemma_retry_bounded(s: StoreView, ids: Seq<u128>, max: int)
    requires
        s.inv(),
        s.bodies_bounded(max),
    ensures
        spec_retry(s, ids).bodies_bounded(max),
{
    lemma_retry_preserves_inv(s, ids);
    lemma_descended_bounded(s, spec_retry(s, ids), max);
}

/// Adding a fresh message never lowers a retry counter.
pub proof fn lemma_add_counts(s: StoreView, m: MessageView)
    requires
        s.inv(),
        !s.contains_id(m.id),
    ensures
        retry_counts_nondecreasing(s, spec_add(s, m)),
{
    lemma_inv_all_unique(s);
    let post = spec_add(s, m);
    let ql = s.queue.len() as int;
    assert forall|i: int, j: int|
        0 <= i < all_msgs(s).len() && 0 <= j < all_msgs(post).len() && (#[trigger] all_msgs(
            s,
        )[i]).id == (#[trigger] all_msgs(post)[j]).id implies all_msgs(post)[j].retry_count
        >= all_msgs(s)[i].retry_count by {
        if j < ql {
            assert(all_msgs(post)[j] == s.queue[j] && all_msgs(s)[j] == s.queue[j]);
            assert(i == j);
        } else if j == ql {
            assert(all_msgs(post)[j] == m);
            if i < ql {
                assert(s.queue[i].id == m.id);
                assert(has_id(s.queue, m.id));
            } else {
                assert(s.processing[i - ql].id == m.id);
                assert(has_id(s.processing, m.id));
            }
        } else {
            assert(all_msgs(post)[j] == s.processing[j - ql - 1]);
            assert(all_msgs(s)[j - 1] == s.processing[j - ql - 1]);
            assert(i == j - 1);
        }
    }
}

/// Fetching never lowers a retry counter.
pub proof fn lemma_get_counts(s: StoreView, count: int)
    requires
        s.inv(),
    ensures
        retry_counts_nondecreasing(s, spec_get(s, count)),
{
    lemma_inv_all_unique(s);
    lemma_get_descended(s, count);
    lemma_descended_counts(s, spec_get(s, count));
}

/// Deleting never lowers a retry counter.
pub proof fn lemma_delete_counts(s: StoreView, ids: Seq<u128>)
    requires
        s.inv(),
    ensures
        retry_counts_nondecreasing(s, spec_delete(s, ids)),
{
    lemma_inv_all_unique(s);
    lemma_delete_preserves_inv(s, ids);
    lemma_descended_counts(s, spec_delete(s, ids));
}

/// Retrying never lowers a retry counter: it raises the counter of each
/// message it moves and leaves every other counter alone.
pub proof fn lemma_retry_counts(s: StoreView, ids: Seq<u128>)
    requires
        s.inv(),
    ensures
        retry_counts_nondecreasing(s, spec_retry(s, ids)),
{
    lemma_inv_all_unique(s);
    lemma_retry_preserves_inv(s, ids);
    lemma_descended_counts(s, spec_retry(s, ids));
}

/// Adding a fresh, ready message preserves the structural invariant.
pub proof fn lemma_add_preserves_inv(s: StoreView, m: MessageView)
    requires
        s.inv(),
        m.state == MessageState::Ready,
        m.retry_count >= 0,
        !s.contains_id(m.id),
    ensures
        spec_add(s, m).inv(),
{
    let post = spec_add(s, m);
    assert forall|i: int, j: int| 0 <= i < j < post.queue.len() implies (#[trigger] post.queue[i]).id
        != (#[trigger] post.queue[j]).id by {
        if j < s.queue.len() {
        } else {
            assert(post.queue[j] == m);
            assert(!has_id(s.queue, m.id));
            assert(post.queue[i] == s.queue[i]);
        }
    }
    assert forall|i: int, j: int|
        0 <= i < post.queue.len() && 0 <= j < post.processing.len() implies (
    #[trigger] post.queue[i]).id != (#[trigger] post.processing[j]).id by {
        if i == s.queue.len() {
            assert(post.queue[i] == m);
            assert(!has_id(s.processing, m.id));
        }
    }
}

/// Fetching preserves the structural invariant: the batch moves from the
/// head of the queue into processing, marked `Processing`.
pub proof fn lemma_get_preserves_inv(s: StoreView, count: int)
    requires
        s.inv(),
    ensures
        spec_get(s, count).inv(),
{
    let post = spec_get(s, count);
    let n = fetch_count(s, count);
    let p = s.processing.len() as int;
    assert forall|i: int| 0 <= i < post.queue.len() implies (#[trigger] post.queue[i]).state
        == MessageState::Ready && post.queue[i].retry_count >= 0 by {
        assert(post.queue[i] == s.queue[n + i]);
    }
    assert forall|i: int| 0 <= i < post.processing.len() implies (
    #[trigger] post.processing[i]).state == MessageState::Processing
        && post.processing[i].retry_count >= 0 by {
        if i < p {
            assert(post.processing[i] == s.processing[i]);
        } else {
            assert(post.processing[i] == mark_processing(s.queue[i - p]));
        }
    }
    assert forall|i: int, j: int| 0 <= i < j < post.queue.len() implies (#[trigger] post.queue[i]).id
        != (#[trigger] post.queue[j]).id by {
        assert(post.queue[i] == s.queue[n + i] && post.queue[j] == s.queue[n + j]);
    }
    assert forall|i: int, j: int|
        0 <= i < j < post.processing.len() implies (#[trigger] post.processing[i]).id != (
    #[trigger] post.processing[j]).id by {
        if i < p && j < p {
        } else if i < p {
            assert(post.processing[i] == s.processing[i]);
            assert(post.processing[j] == mark_processing(s.queue[j - p]));
        } else {
            assert(post.processing[i] == mark_processing(s.queue[i - p]));
            assert(post.processing[j] == mark_processing(s.queue[j - p]));
        }
    }
    assert forall|i: int, j: int|
        0 <= i < post.queue.len() && 0 <= j < post.processing.len() implies (
    #[trigger] post.queue[i]).id != (#[trigger] post.processing[j]).id by {
        assert(post.queue[i] == s.queue[n + i]);
        if j < p {
            assert(post.processing[j] == s.processing[j]);
        } else {
            assert(post.processing[j] == mark_processing(s.queue[j - p]));
        }
    }
}

/// The fetched batch, like the rest of the store, descends from the prior
/// state.
pub proof fn lemma_get_descended(s: StoreView, count: int)
    ensures
        descended_from(all_msgs(spec_get(s, count)), all_msgs(s)),
{
    let post = spec_get(s, count);
    let n = fetch_count(s, count);
    let p = s.processing.len() as int;
    assert forall|j: int| 0 <= j < all_msgs(post).len() implies #[trigger] has_ancestor(
        all_msgs(post),
        j,
        all_msgs(s),
    ) by {
        let ql = post.queue.len() as int;
        if j < ql {
            assert(all_msgs(post)[j] == s.queue[n + j]);
            assert(all_msgs(s)[n + j] == s.queue[n + j]);
            assert(derived_msg(all_msgs(post)[j], all_msgs(s)[n + j]));
        } else if j - ql < p {
            assert(all_msgs(post)[j] == s.processing[j - ql]);
            let i = s.queue.len() + (j - ql);
            assert(all_msgs(s)[i] == s.processing[j - ql]);
            assert(derived_msg(all_msgs(post)[j], all_msgs(s)[i]));
        } else {
            let k = j - ql - p;
            assert(all_msgs(post)[j] == mark_processing(s.queue[k]));
            assert(all_msgs(s)[k] == s.queue[k]);
            assert(derived_msg(all_msgs(post)[j], all_msgs(s)[k]));
        }
    }
}

/// Deleting one identifier preserves the structural invariant.
pub proof fn lemma_delete_one_preserves_inv(s: StoreView, id: u128)
    requires
        s.inv(),
    ensures
        delete_one(s, id).inv(),
{
    let k = find_id(s.processing, id);
    lemma_find_id(s.processing, id);
    if k >= 0 {
        s.processing.remove_ensures(k);
    }
}

/// Deleting one identifier leaves only prior messages in the store.
pub proof fn lemma_delete_one_descended(s: StoreView, id: u128)
    ensures
        descended_from(all_msgs(delete_one(s, id)), all_msgs(s)),
{
    let k = find_id(s.processing, id);
    lemma_find_id(s.processing, id);
    let post = delete_one(s, id);
    if k < 0 {
        lemma_descended_refl(all_msgs(s));
    } else {
        s.processing.remove_ensures(k);
        let ql = s.queue.len() as int;
        assert forall|j: int| 0 <= j < all_msgs(post).len() implies #[trigger] has_ancestor(
            all_msgs(post),
            j,
            all_msgs(s),
        ) by {
            if j < ql {
                assert(all_msgs(post)[j] == s.queue[j] && all_msgs(s)[j] == s.queue[j]);
                assert(derived_msg(all_msgs(post)[j], all_msgs(s)[j]));
            } else if j - ql < k {
                assert(all_msgs(post)[j] == s.processing[j - ql]);
                assert(all_msgs(s)[j] == s.processing[j - ql]);
                assert(derived_msg(all_msgs(post)[j], all_msgs(s)[j]));
            } else {
                assert(all_msgs(post)[j] == s.processing[j - ql + 1]);
                assert(all_msgs(s)[j + 1] == s.processing[j - ql + 1]);
                assert(derived_msg(all_msgs(post)[j], all_msgs(s)[j + 1]));
            }
        }
    }
}

/// Deleting a batch preserves the structural invariant and never invents a
/// message.
pub proof fn lemma_delete_preserves_inv(s: StoreView, ids: Seq<u128>)
    requires
        s.inv(),
    ensures
        spec_delete(s, ids).inv(),
        descended_from(all_msgs(spec_delete(s, ids)), all_msgs(s)),
    decreases ids.len(),
{
    if ids.len() == 0 {
        lemma_descended_refl(all_msgs(s));
    } else {
        let s1 = delete_one(s, ids[0]);
        lemma_delete_one_preserves_inv(s, ids[0]);
        lemma_delete_one_descended(s, ids[0]);
        lemma_delete_preserves_inv(s1, ids.skip(1));
        lemma_descended_trans(all_msgs(s), all_msgs(s1), all_msgs(spec_delete(s, ids)));
    }
}

/// Retrying one identifier preserves the structural invariant.
pub proof fn lemma_retry_one_preserves_inv(s: StoreView, id: u128)
    requires
        s.inv(),
    ensures
        retry_one(s, id).inv(),
{
    let k = find_id(s.processing, id);
    lemma_find_id(s.processing, id);
    if k >= 0 {
        s.processing.remove_ensures(k);
        let post = retry_one(s, id);
        let moved = bump_retry(s.processing[k]);
        assert forall|i: int, j: int|
            0 <= i < j < post.queue.len() implies (#[trigger] post.queue[i]).id != (
        #[trigger] post.queue[j]).id by {
            if j == s.queue.len() {
                assert(post.queue[i] == s.queue[i] && post.queue[j] == moved);
            }
        }
        assert forall|i: int, j: int|
            0 <= i < post.queue.len() && 0 <= j < post.processing.len() implies (
        #[trigger] post.queue[i]).id != (#[trigger] post.processing[j]).id by {
            let orig = if j < k {
                j
            } else {
                j + 1
            };
            assert(post.processing[j] == s.processing[orig]);
            if i == s.queue.len() {
                assert(post.queue[i] == moved);
                assert(s.processing[k].id != s.processing[orig].id);
            } else {
                assert(post.queue[i] == s.queue[i]);
            }
        }
    }
}

/// Retrying one identifier only re-derives prior messages.
pub proof fn lemma_retry_one_descended(s: StoreView, id: u128)
    ensures
        descended_from(all_msgs(retry_one(s, id)), all_msgs(s)),
{
    let k = find_id(s.processing, id);
    lemma_find_id(s.processing, id);
    let post = retry_one(s, id);
    if k < 0 {
        lemma_descended_refl(all_msgs(s));
    } else {
        s.processing.remove_ensures(k);
        let ql = s.queue.len() as int;
        assert forall|j: int| 0 <= j < all_msgs(post).len() implies #[trigger] has_ancestor(
            all_msgs(post),
            j,
            all_msgs(s),
        ) by {
            if j < ql {
                assert(all_msgs(post)[j] == s.queue[j] && all_msgs(s)[j] == s.queue[j]);
                assert(derived_msg(all_msgs(post)[j], all_msgs(s)[j]));
            } else if j == ql {
                assert(all_msgs(post)[j] == bump_retry(s.processing[k]));
                assert(all_msgs(s)[ql + k] == s.processing[k]);
                assert(derived_msg(all_msgs(post)[j], all_msgs(s)[ql + k]));
            } else if j - ql - 1 < k {
                assert(all_msgs(post)[j] == s.processing[j - ql - 1]);
                assert(all_msgs(s)[j - 1] == s.processing[j - ql - 1]);
                assert(derived_msg(all_msgs(post)[j], all_msgs(s)[j - 1]));
            } else {
                assert(all_msgs(post)[j] == s.processing[j - ql]);
                assert(all_msgs(s)[j] == s.processing[j - ql]);
                assert(derived_msg(all_msgs(post)[j], all_msgs(s)[j]));
            }
        }
    }
}

/// Retrying a batch preserves the structural invariant and never invents a
/// message.
pub proof fn lemma_retry_preserves_inv(s: StoreView, ids: Seq<u128>)
    requires
        s.inv(),
    ensures
        spec_retry(s, ids).inv(),
        descended_from(all_msgs(spec_retry(s, ids)), all_msgs(s)),
    decreases ids.len(),
{
    if ids.len() == 0 {
        lemma_descended_refl(all_msgs(s));
    } else {
        let s1 = retry_one(s, ids[0]);
        lemma_retry_one_preserves_inv(s, ids[0]);
        lemma_retry_one_descended(s, ids[0]);
        lemma_retry_preserves_inv(s1, ids.skip(1));
        lemma_descended_trans(all_msgs(s), all_msgs(s1), all_msgs(spec_retry(s, ids)));
    }
}

/// A fetched batch preserves queue order: whatever stands earlier in the
/// queue comes out earlier, unchanged but for the `Processing` mark. With
/// [`lemma_fifo`] this is the first-in, first-out guarantee: however many
/// messages were queued between or after two additions, a fetch that
/// returns both returns them in their queue order.
pub proof fn lemma_get_preserves_order(s: StoreView, count: int, i: int, j: int)
    requires
        0 <= i < j < fetch_count(s, count),
    ensures
        spec_get_out(s, count)[i] == mark_processing(s.queue[i]),
        spec_get_out(s, count)[j] == mark_processing(s.queue[j]),
{
}

/// First-in, first-out: when `add(a)` happens before `add(b)` with no step
/// in between, a fetch large enough to return both returns `a` immediately
/// before `b`, after whatever was queued earlier.
pub proof fn lemma_fifo(s: StoreView, a: MessageView, b: MessageView, count: int)
    requires
        count >= s.queue.len() + 2,
    ensures
        spec_get_out(spec_add(spec_add(s, a), b), count).len() == s.queue.len() + 2,
        spec_get_out(spec_add(spec_add(s, a), b), count)[s.queue.len() as int] == mark_processing(
            a,
        ),
        spec_get_out(spec_add(spec_add(s, a), b), count)[s.queue.len() as int + 1]
            == mark_processing(b),
{
    let s2 = spec_add(spec_add(s, a), b);
    assert(s2.queue.take(fetch_count(s2, count)) =~= s2.queue);
}

/// Delete is idempotent: deleting an identifier twice in one request has
/// the effect of deleting it once.
pub proof fn lemma_delete_idempotent(s: StoreView, id: u128)
    requires
        unique_ids(s.processing),
    ensures
        spec_delete(s, seq![id, id]) == spec_delete(s, seq![id]),
{
    let s1 = delete_one(s, id);
    let k = find_id(s.processing, id);
    lemma_find_id(s.processing, id);
    assert(seq![id, id][0] == id && seq![id][0] == id);
    assert(seq![id, id].skip(1) =~= seq![id]);
    assert(seq![id].skip(1) =~= Seq::<u128>::empty());
    assert(spec_delete(s, seq![id, id]) == spec_delete(s1, seq![id]));
    assert(spec_delete(s1, Seq::<u128>::empty()) == s1);
    assert(spec_delete(s, seq![id]) == spec_delete(s1, Seq::<u128>::empty()));
    if k >= 0 {
        s.processing.remove_ensures(k);
        assert forall|j: int| 0 <= j < s1.processing.len() implies (#[trigger] s1.processing[j]).id
            != id by {
            if j < k {
                assert(s1.processing[j] == s.processing[j]);
            } else {
                assert(s1.processing[j] == s.processing[j + 1]);
            }
        }
    }
    lemma_find_id(s1.processing, id);
    assert(delete_one(s1, id) == s1);
}

/// Retry is idempotent: a second retry of the same identifier finds it back
/// in the queue, not in processing, and does nothing, so the retry counter
/// rises exactly once.
pub proof fn lemma_retry_idempotent(s: StoreView, id: u128)
    requires
        unique_ids(s.processing),
    ensures
        spec_retry(spec_retry(s, seq![id]), seq![id]) == spec_retry(s, seq![id]),
{
    let s1 = retry_one(s, id);
    let k = find_id(s.processing, id);
    lemma_find_id(s.processing, id);
    assert(seq![id][0] == id);
    assert(seq![id].skip(1) =~= Seq::<u128>::empty());
    assert(spec_retry(s1, Seq::<u128>::empty()) == s1);
    assert(spec_retry(retry_one(s1, id), Seq::<u128>::empty()) == retry_one(s1, id));
    assert(spec_retry(s, seq![id]) == s1);
    assert(spec_retry(s1, seq![id]) == retry_one(s1, id));
    if k >= 0 {
        s.processing.remove_ensures(k);
        assert forall|j: int| 0 <= j < s1.processing.len() implies (#[trigger] s1.processing[j]).id
            != id by {
            if j < k {
                assert(s1.processing[j] == s.processing[j]);
            } else {
                assert(s1.processing[j] == s.processing[j + 1]);
            }
        }
    }
    lemma_find_id(s1.processing, id);
    assert(retry_one(s1, id) == s1);
}

/// A store of `n` messages cannot contain all of the `n + 1` identifiers
/// `0 ..= n`: some small identifier is always free. This is what makes a
/// fresh identifier always obtainable.
pub proof fn lemma_small_id_free(s: StoreView)
    requires
        s.inv(),
        all_msgs(s).len() < u128::MAX,
    ensures
        exists|c: u128| c <= all_msgs(s).len() && !(#[trigger] s.contains_id(c)),
{
    if !(exists|c: u128| c <= all_msgs(s).len() && !(#[trigger] s.contains_id(c))) {
        lemma_no_small_id_free_contradicts(s);
    }
}

/// Auxiliary step: assuming every identifier up to the store's size is
/// taken leads, by counting, to an impossibility; the inconsistent
/// assumption is recorded in the conclusion.
proof fn lemma_no_small_id_free_contradicts(s: StoreView)
    requires
        s.inv(),
        all_msgs(s).len() < u128::MAX,
        forall|c: u128| c <= all_msgs(s).len() ==> #[trigger] s.contains_id(c),
    ensures
        exists|c: u128| c <= all_msgs(s).len() && !(#[trigger] s.contains_id(c)),
{
    let n = all_msgs(s).len() as int;
    let ids = msg_ids(all_msgs(s));
    lemma_inv_all_unique(s);
    assert forall|i: int, j: int|
        0 <= i < ids.len() && 0 <= j < ids.len() && i != j implies ids[i] != ids[j] by {
        if i < j {
            assert(all_msgs(s)[i].id != all_msgs(s)[j].id);
        } else {
            assert(all_msgs(s)[j].id != all_msgs(s)[i].id);
        }
    }
    assert(ids.no_duplicates());
    ids.unique_seq_to_set();
    vstd::seq_lib::seq_to_set_is_finite::<u128>(ids);
    let idset = ids.to_set();
    let cand_int = vstd::set_lib::set_int_range(0, n + 1);
    vstd::set_lib::lemma_int_range(0, n + 1);
    let f = |i: int| i as u128;
    let cand = cand_int.map(f);
    assert(vstd::relations::injective_on(f, cand_int)) by {
        assert forall|x: int, y: int|
            cand_int.contains(x) && cand_int.contains(y) && f(x) == f(y) implies x == y by {
            assert(x as u128 as int == x && y as u128 as int == y);
        }
    }
    vstd::set_lib::lemma_map_size(cand_int, cand, f);
    assert forall|x: u128| cand.contains(x) implies idset.contains(x) by {
        let i = choose|i: int| cand_int.contains(i) && f(i) == x;
        assert(x as int == i);
        assert(s.contains_id(x));
        if has_id(s.queue, x) {
            let w = choose|w: int| 0 <= w < s.queue.len() && s.queue[w].id == x;
            assert(all_msgs(s)[w].id == x);
            assert(ids[w] == x);
        } else {
            let w = choose|w: int| 0 <= w < s.processing.len() && s.processing[w].id == x;
            assert(all_msgs(s)[s.queue.len() + w].id == x);
            assert(ids[s.queue.len() + w] == x);
        }
        assert(ids.contains(x));
    }
    assert(cand.subset_of(idset));
    vstd::set_lib::lemma_len_subset(cand, idset);
}

/// After a purge, any fetch returns the empty batch and changes nothing.
pub proof fn lemma_purge_total(s: StoreView, count: int)
    ensures
        spec_get_out(spec_purge(s), count) == Seq::<MessageView>::empty(),
        spec_get(spec_purge(s), count) == spec_purge(s),
{
    assert(spec_get_out(spec_purge(s), count) =~= Seq::<MessageView>::empty());
    assert(spec_get(spec_purge(s), count).queue =~= spec_purge(s).queue);
    assert(spec_get(spec_purge(s), count).processing =~= spec_purge(s).processing);
    assert(spec_get(spec_purge(s), count) =~= spec_purge(s));
}

} // verus!
