//! Store-wide laws, stated over the abstract store state and proved from the
//! operations' contracts.

use crate::record::RecordSpec;
use crate::store::{read_result, store_inv, StoreView};
use vstd::prelude::*;

verus! {

/// Law: the ids returned by successive creates are strictly increasing, and
/// so never repeat. The first create returns the counter of the state it ran
/// in and leaves the counter one higher; every other operation — updates,
/// deletes, reads, and a restart, which preserves the whole state — leaves
/// the counter no smaller, which is the middle premise.
pub proof fn lemma_create_ids_strictly_increase(
    pre1: StoreView,
    post1: StoreView,
    id1: u64,
    pre2: StoreView,
    post2: StoreView,
    id2: u64,
)
    requires
        id1 == pre1.counter,
        post1.counter == pre1.counter + 1,
        pre2.counter >= post1.counter,
        id2 == pre2.counter,
        post2.counter == pre2.counter + 1,
    ensures
        id2 > id1,
        post2.counter > id2,
{
}

/// Chains the adjacent increases of a sequence.
proof fn lemma_chain_lt(ids: Seq<u64>, i: int, j: int)
    requires
        forall|p: int| 0 <= p < ids.len() - 1 ==> #[trigger] ids[p] < ids[p + 1],
        0 <= i < j < ids.len(),
    ensures
        ids[i] < ids[j],
    decreases j - i,
{
    if i + 1 < j {
        lemma_chain_lt(ids, i + 1, j);
    }
}

/// Law: over a whole run, the ids returned by the creates, in order, are
/// pairwise distinct and strictly increasing, given only that each id is
/// strictly below the next (which consecutive creates guarantee, by
/// `lemma_create_ids_strictly_increase`, across any other operations and
/// restarts between them).
pub proof fn lemma_create_id_sequence_strictly_increasing(ids: Seq<u64>)
    requires
        forall|p: int| 0 <= p < ids.len() - 1 ==> #[trigger] ids[p] < ids[p + 1],
    ensures
        forall|i: int, j: int| 0 <= i < j < ids.len() ==> ids[i] < ids[j],
{
    assert forall|i: int, j: int| 0 <= i < j < ids.len() implies ids[i] < ids[j] by {
        lemma_chain_lt(ids, i, j);
    }
}

/// Law: an id handed out by the allocator is fresh — it keys no record in
/// the state the create ran in.
pub proof fn lemma_created_id_fresh(v: StoreView, id: u64)
    requires
        store_inv(v),
        id == v.counter,
    ensures
        !v.records.contains_key(id),
{
}

/// Law: creating a record and then reading its id returns exactly the
/// created record.
pub proof fn lemma_create_then_read(pre: StoreView, post: StoreView, rec: RecordSpec)
    requires
        post.records == pre.records.insert(rec.id, rec),
    ensures
        read_result(post, rec.id) == Some(rec),
{
}

/// Law: deleting a record removes it — a subsequent read of its id finds
/// nothing.
pub proof fn lemma_delete_then_read(pre: StoreView, post: StoreView, id: u64)
    requires
        post.records == pre.records.remove(id),
    ensures
        read_result(post, id) == None::<RecordSpec>,
{
}

} // verus!
