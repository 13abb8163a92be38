//! Reference counts of features by id, and the store that holds each
//! feature once however many chunks refer to it.

use crate::entity::Id;
use std::collections::HashMap;
use vstd::prelude::*;

verus! {

broadcast use vstd::std_specs::hash::group_hash_axioms;

/// How many chunks refer to `id`: its count, or zero where it has none.
pub open spec fn refcount(refs: Map<Id, u16>, id: Id) -> nat {
    if refs.contains_key(id) {
        refs[id] as nat
    } else {
        0
    }
}

/// The counts after one more chunk has referred to each id of `ids`.
pub open spec fn bumped(refs: Map<Id, u16>, ids: Seq<Id>) -> Map<Id, u16> {
    Map::new(
        |id: Id| refs.contains_key(id) || ids.contains(id),
        |id: Id|
            if ids.contains(id) {
                (refcount(refs, id) + 1) as u16
            } else {
                refs[id]
            },
    )
}

/// The ids of `ids` that no chunk has referred to yet, in their order.
pub open spec fn first_seen(ids: Seq<Id>, known: Set<Id>) -> Seq<Id> {
    ids.filter(|id: Id| !known.contains(id))
}

/// The objects that stand in `objs` under `ids`, in the order of `ids`.
pub open spec fn picked<T>(ids: Seq<Id>, objs: Map<Id, T>) -> Seq<T> {
    ids.map_values(|id: Id| objs[id])
}

/// No count is zero.
pub open spec fn counts_positive(refs: Map<Id, u16>) -> bool {
    forall|id: Id| refs.contains_key(id) ==> #[trigger] refs[id] > 0
}

/// Every id of `ids` has a count that can take one more.
pub open spec fn counts_can_grow(refs: Map<Id, u16>, ids: Set<Id>) -> bool {
    forall|id: Id| ids.contains(id) ==> #[trigger] refcount(refs, id) < u16::MAX
}

/// The chunks whose list of ids holds `id`.
pub open spec fn users<C>(lists: Map<C, Seq<Id>>, id: Id) -> Set<C> {
    Set::new(|c: C| lists.contains_key(c) && lists[c].contains(id))
}

/// The counts are those of the chunks: each id is counted once for each
/// chunk whose list holds it.
pub open spec fn counts_match<C>(refs: Map<Id, u16>, lists: Map<C, Seq<Id>>) -> bool {
    forall|id: Id| #[trigger] refcount(refs, id) == users(lists, id).len()
}

/// The stored features are those with a count, each once.
pub open spec fn stored_match(refs: Map<Id, u16>, stored: Seq<Id>) -> bool {
    &&& stored.no_duplicates()
    &&& stored.to_set() == refs.dom()
}

/// The chunks that refer to an id are among all chunks, so no id is counted
/// more often than there are chunks.
pub proof fn lemma_count_at_most_chunks<C>(refs: Map<Id, u16>, lists: Map<C, Seq<Id>>, id: Id)
    requires
        counts_match(refs, lists),
        lists.dom().finite(),
    ensures
        refcount(refs, id) <= lists.dom().len(),
        users(lists, id).finite(),
{
    assert(users(lists, id).subset_of(lists.dom()));
    vstd::set_lib::lemma_len_subset(users(lists, id), lists.dom());
}

/// Counting one more chunk keeps the counts those of the chunks.
pub proof fn lemma_counts_after_chunk<C>(
    refs: Map<Id, u16>,
    lists: Map<C, Seq<Id>>,
    c: C,
    ids: Seq<Id>,
)
    requires
        counts_match(refs, lists),
        counts_positive(refs),
        lists.dom().finite(),
        counts_can_grow(refs, ids.to_set()),
        !lists.contains_key(c),
    ensures
        counts_match(bumped(refs, ids), lists.insert(c, ids)),
        counts_positive(bumped(refs, ids)),
{
    let refs2 = bumped(refs, ids);
    let lists2 = lists.insert(c, ids);
    assert forall|id: Id| #[trigger] refcount(refs2, id) == users(lists2, id).len() by {
        lemma_count_at_most_chunks(refs, lists, id);
        assert(refcount(refs, id) == users(lists, id).len());
        if ids.contains(id) {
            assert(ids.to_set().contains(id));
            assert(users(lists2, id) =~= users(lists, id).insert(c));
            assert(!users(lists, id).contains(c));
        } else {
            assert(users(lists2, id) =~= users(lists, id));
        }
    }
    assert forall|id: Id| refs2.contains_key(id) implies #[trigger] refs2[id] > 0 by {
        if ids.contains(id) {
            assert(ids.to_set().contains(id));
        } else {
            assert(refs[id] > 0);
        }
    }
}

/// The ids seen for the first time are ids of the list, none twice, none
/// known before.
pub proof fn lemma_first_seen(ids: Seq<Id>, known: Set<Id>)
    requires
        ids.no_duplicates(),
    ensures
        first_seen(ids, known).no_duplicates(),
        forall|id: Id|
            first_seen(ids, known).contains(id) <==> ids.contains(id) && !known.contains(id),
    decreases ids.len(),
{
    let pred = |id: Id| !known.contains(id);
    if ids.len() > 0 {
        let head = ids.drop_last();
        let last = ids.last();
        assert(ids =~= head.push(last));
        lemma_first_seen(head, known);
        head.lemma_filter_push(last, pred);
        assert(first_seen(ids, known) == if pred(last) {
            first_seen(head, known).push(last)
        } else {
            first_seen(head, known)
        });
        assert(!head.contains(last));
        assert forall|id: Id|
            first_seen(ids, known).contains(id) <==> ids.contains(id) && !known.contains(
                id,
            ) by {
            if first_seen(ids, known).contains(id) {
                let i = choose|i: int|
                    0 <= i < first_seen(ids, known).len() && first_seen(ids, known)[i] == id;
                if pred(last) && i == first_seen(head, known).len() {
                    assert(id == last);
                    assert(ids[ids.len() - 1] == last);
                } else {
                    assert(first_seen(head, known)[i] == id);
                    assert(first_seen(head, known).contains(id));
                    let j = choose|j: int| 0 <= j < head.len() && head[j] == id;
                    assert(ids[j] == id);
                }
            }
            if ids.contains(id) && !known.contains(id) {
                let j = choose|j: int| 0 <= j < ids.len() && ids[j] == id;
                if j == ids.len() - 1 {
                    assert(first_seen(ids, known)[first_seen(head, known).len() as int] == id);
                } else {
                    assert(head[j] == id);
                    assert(head.contains(id));
                    let i = choose|i: int|
                        0 <= i < first_seen(head, known).len() && first_seen(head, known)[i]
                            == id;
                    assert(first_seen(ids, known)[i] == id);
                }
            }
        }
        if pred(last) {
            assert(!first_seen(head, known).contains(last));
        }
    } else {
        assert(first_seen(ids, known) =~= Seq::<Id>::empty()) by {
            reveal(Seq::filter);
        }
    }
}

/// Storing the features seen for the first time keeps the stored features
/// those with a count.
pub proof fn lemma_stored_after_chunk(refs: Map<Id, u16>, stored: Seq<Id>, ids: Seq<Id>)
    requires
        stored_match(refs, stored),
        ids.no_duplicates(),
    ensures
        stored_match(bumped(refs, ids), stored + first_seen(ids, refs.dom())),
{
    let fresh = first_seen(ids, refs.dom());
    lemma_first_seen(ids, refs.dom());
    assert forall|i: int, j: int| 0 <= i < stored.len() && 0 <= j < fresh.len() implies stored[i]
        != fresh[j] by {
        assert(stored.to_set().contains(stored[i]));
        assert(fresh.contains(fresh[j]));
    }
    vstd::seq_lib::lemma_no_dup_in_concat(stored, fresh);
    vstd::seq_lib::seq_to_set_distributes_over_add(stored, fresh);
    assert forall|id: Id| (stored.to_set() + fresh.to_set()).contains(id) <==> bumped(
        refs,
        ids,
    ).dom().contains(id) by {
        if fresh.to_set().contains(id) {
            assert(fresh.contains(id));
        }
        if ids.contains(id) && !refs.dom().contains(id) {
            assert(fresh.contains(id));
        }
    }
    assert((stored + fresh).to_set() =~= bumped(refs, ids).dom());
}

/// Whether every id of `ids` has a count that can take one more.
pub fn all_can_grow(refs: &HashMap<Id, u16>, ids: &Vec<Id>) -> (ok: bool)
    ensures
        ok == counts_can_grow(refs@, ids@.to_set()),
{
    let mut i: usize = 0;
    while i < ids.len()
        invariant
            i <= ids@.len(),
            forall|j: int| 0 <= j < i ==> refcount(refs@, #[trigger] ids@[j]) < u16::MAX,
        decreases ids@.len() - i,
    {
        let id = ids[i];
        let count: u16 = match refs.get(&id) {
            Some(c) => *c,
            None => 0,
        };
        if count == 0xffff {
            assert(ids@.to_set().contains(ids@[i as int]));
            return false;
        }
        i = i + 1;
    }
    assert forall|id: Id| ids@.to_set().contains(id) implies #[trigger] refcount(refs@, id)
        < u16::MAX by {
        let j = choose|j: int| 0 <= j < ids@.len() && ids@[j] == id;
        assert(ids@[j] == id);
    }
    true
}

/// Counts one more reference to each id of `chunk_refs`. A feature that had
/// none before moves from `chunk_objs` to the end of `world_objs`.
pub fn inc_refs<T>(
    chunk_refs: &Vec<Id>,
    world_refs: &mut HashMap<Id, u16>,
    chunk_objs: &mut HashMap<Id, T>,
    world_objs: &mut Vec<T>,
)
    requires
        chunk_refs@.no_duplicates(),
        forall|i: int|
            0 <= i < chunk_refs@.len() ==> old(chunk_objs)@.contains_key(#[trigger] chunk_refs@[i]),
        forall|i: int|
            0 <= i < chunk_refs@.len() ==> refcount(old(world_refs)@, #[trigger] chunk_refs@[i])
                < u16::MAX,
        counts_positive(old(world_refs)@),
    ensures
        final(world_refs)@ == bumped(old(world_refs)@, chunk_refs@),
        final(world_objs)@ == old(world_objs)@ + picked(
            first_seen(chunk_refs@, old(world_refs)@.dom()),
            old(chunk_objs)@,
        ),
        final(chunk_objs)@ == old(chunk_objs)@.remove_keys(
            first_seen(chunk_refs@, old(world_refs)@.dom()).to_set(),
        ),
{
    let ghost refs0 = world_refs@;
    let ghost objs0 = chunk_objs@;
    let ghost stored0 = world_objs@;
    let ghost known = refs0.dom();
    let ghost pred = |id: Id| !known.contains(id);
    let ghost pick = |id: Id| objs0[id];
    let mut i: usize = 0;
    proof {
        assert(chunk_refs@.take(0) =~= Seq::<Id>::empty());
        assert(first_seen(chunk_refs@.take(0), known) =~= Seq::<Id>::empty()) by {
            reveal(Seq::filter);
        }
        assert(world_refs@ =~= bumped(refs0, chunk_refs@.take(0)));
        assert(world_objs@ =~= stored0 + picked(first_seen(chunk_refs@.take(0), known), objs0));
        assert(chunk_objs@ =~= objs0.remove_keys(
            first_seen(chunk_refs@.take(0), known).to_set(),
        ));
    }
    while i < chunk_refs.len()
        invariant
            i <= chunk_refs@.len(),
            chunk_refs@.no_duplicates(),
            known == refs0.dom(),
            counts_positive(refs0),
            forall|j: int|
                0 <= j < chunk_refs@.len() ==> objs0.contains_key(#[trigger] chunk_refs@[j]),
            forall|j: int|
                0 <= j < chunk_refs@.len() ==> refcount(refs0, #[trigger] chunk_refs@[j])
                    < u16::MAX,
            world_refs@ == bumped(refs0, chunk_refs@.take(i as int)),
            world_objs@ == stored0 + picked(first_seen(chunk_refs@.take(i as int), known), objs0),
            chunk_objs@ == objs0.remove_keys(
                first_seen(chunk_refs@.take(i as int), known).to_set(),
            ),
            forall|j: int|
                i <= j < chunk_refs@.len() ==> chunk_objs@.contains_key(#[trigger] chunk_refs@[j])
                    && chunk_objs@[chunk_refs@[j]] == objs0[chunk_refs@[j]],
        decreases chunk_refs@.len() - i,
    {
        let id = chunk_refs[i];
        let ghost done = chunk_refs@.take(i as int);
        let ghost next = chunk_refs@.take(i + 1);
        let ghost refs_before = world_refs@;
        let ghost objs_before = chunk_objs@;
        let ghost stored_before = world_objs@;
        proof {
            assert(next =~= done.push(id));
            assert(!done.contains(id)) by {
                if done.contains(id) {
                    let j = choose|j: int| 0 <= j < done.len() && done[j] == id;
                    assert(chunk_refs@[j] == id);
                }
            }
            assert(chunk_refs@[i as int] == id);
            done.lemma_filter_push(id, |id: Id| !known.contains(id));
        }
        let count: u16 = match world_refs.get(&id) {
            Some(c) => *c,
            None => 0,
        };
        assert(count == refcount(refs0, id));
        if count == 0 {
            match chunk_objs.remove(&id) {
                Some(obj) => {
                    world_objs.push(obj);
                },
                None => {},
            }
            proof {
                assert(!known.contains(id));
                assert(first_seen(next, known) == first_seen(done, known).push(id));
                assert(picked(first_seen(next, known), objs0) =~= picked(
                    first_seen(done, known),
                    objs0,
                ).push(objs0[id]));
                assert(world_objs@ =~= stored0 + picked(first_seen(next, known), objs0));
                first_seen(done, known).lemma_push_to_set_commute(id);
                assert(chunk_objs@ =~= objs0.remove_keys(first_seen(next, known).to_set()));
            }
        } else {
            proof {
                assert(known.contains(id));
                assert(first_seen(next, known) == first_seen(done, known));
            }
        }
        world_refs.insert(id, count + 1);
        proof {
            assert forall|j: int| i + 1 <= j < chunk_refs@.len() implies chunk_objs@.contains_key(
                #[trigger] chunk_refs@[j],
            ) && chunk_objs@[chunk_refs@[j]] == objs0[chunk_refs@[j]] by {
                assert(chunk_refs@[j] != id);
                assert(objs_before.contains_key(chunk_refs@[j]));
            }
            assert forall|k: Id| next.contains(k) <==> done.contains(k) || k == id by {
                if next.contains(k) {
                    let j = choose|j: int| 0 <= j < next.len() && next[j] == k;
                    if j < done.len() {
                        assert(done[j] == k);
                    }
                }
                if done.contains(k) {
                    let j = choose|j: int| 0 <= j < done.len() && done[j] == k;
                    assert(next[j] == k);
                }
                assert(next[i as int] == id);
            }
            assert(world_refs@ =~= bumped(refs0, next));
        }
        i = i + 1;
    }
    assert(chunk_refs@.take(chunk_refs@.len() as int) =~= chunk_refs@);
}

} // verus!
