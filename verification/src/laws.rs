//! What holds of a world over its whole history of requests and loads.

use crate::entity::{Id, Point};
use crate::model::{
    land_use_ids, land_use_lists, lemma_failed_wf, lemma_fresh_wf, lemma_merged_wf,
    lemma_requested_wf, road_ids, road_lists, WorldView,
};
use crate::parsed::PartialWorldView;
use crate::store::users;
use vstd::prelude::*;

verus! {

/// One thing that happens to a world.
pub enum WorldEvent {
    /// The chunk was asked for.
    Requested((i32, i32)),
    /// The chunk's load failed.
    Failed((i32, i32)),
    /// The chunk's load brought `chunk`, whose ids were taken in the order
    /// of `roads` and `land_uses`.
    Merged { coord: (i32, i32), chunk: PartialWorldView, roads: Seq<Id>, land_uses: Seq<Id> },
}

/// The world after `event`.
pub open spec fn after_event(w: WorldView, event: WorldEvent) -> WorldView {
    match event {
        WorldEvent::Requested(coord) => w.requested(coord),
        WorldEvent::Failed(coord) => w.failed(coord),
        WorldEvent::Merged { coord, chunk, roads, land_uses } => w.merged(
            coord,
            chunk,
            roads,
            land_uses,
        ),
    }
}

/// Whether `event` may happen to `w`: a chunk that is merged is well formed,
/// comes with the lists of its ids, and can be merged.
pub open spec fn event_allowed(w: WorldView, event: WorldEvent) -> bool {
    match event {
        WorldEvent::Merged { coord, chunk, roads, land_uses } => {
            &&& chunk.wf()
            &&& w.can_merge(coord, chunk)
            &&& WorldView::lists_of(chunk, roads, land_uses)
        },
        _ => true,
    }
}

/// The world after `events`, one after the other.
pub open spec fn after_events(w: WorldView, events: Seq<WorldEvent>) -> WorldView
    decreases events.len(),
{
    if events.len() == 0 {
        w
    } else {
        after_event(after_events(w, events.drop_last()), events.last())
    }
}

/// Whether each of `events` may happen when its turn comes.
pub open spec fn events_allowed(w: WorldView, events: Seq<WorldEvent>) -> bool
    decreases events.len(),
{
    if events.len() == 0 {
        true
    } else {
        &&& events_allowed(w, events.drop_last())
        &&& event_allowed(after_events(w, events.drop_last()), events.last())
    }
}

/// Whether `event` is a successful load of `coord`.
pub open spec fn merges(event: WorldEvent, coord: (i32, i32)) -> bool {
    event matches WorldEvent::Merged { coord: c, .. } && c == coord
}

/// Whether `event` is a successful load of `coord` that brought the road
/// `id`.
pub open spec fn merges_road(event: WorldEvent, coord: (i32, i32), id: Id) -> bool {
    event matches WorldEvent::Merged { coord: c, chunk, .. } && c == coord
        && chunk.roads.contains_key(id)
}

/// Whether `event` is a successful load of `coord` that brought the land
/// use `id`.
pub open spec fn merges_land_use(event: WorldEvent, coord: (i32, i32), id: Id) -> bool {
    event matches WorldEvent::Merged { coord: c, chunk, .. } && c == coord
        && chunk.land_uses.contains_key(id)
}

/// The chunks whose load succeeded among `events`.
pub open spec fn merged_coords(events: Seq<WorldEvent>) -> Set<(i32, i32)> {
    Set::new(
        |coord: (i32, i32)| exists|i: int| 0 <= i < events.len() && merges(#[trigger] events[i], coord),
    )
}

/// The chunks whose load succeeded among `events` and brought the road `id`.
pub open spec fn merged_with_road(events: Seq<WorldEvent>, id: Id) -> Set<(i32, i32)> {
    Set::new(
        |coord: (i32, i32)|
            exists|i: int| 0 <= i < events.len() && merges_road(#[trigger] events[i], coord, id),
    )
}

/// The chunks whose load succeeded among `events` and brought the land use
/// `id`.
pub open spec fn merged_with_land_use(events: Seq<WorldEvent>, id: Id) -> Set<(i32, i32)> {
    Set::new(
        |coord: (i32, i32)|
            exists|i: int|
                0 <= i < events.len() && merges_land_use(#[trigger] events[i], coord, id),
    )
}

/// Whatever is asked of a fresh world and however the loads end, the chunks
/// that are loaded in the end are exactly those whose load succeeded.
pub proof fn lemma_loaded_are_the_merged(name: Seq<char>, origin: Point, events: Seq<WorldEvent>)
    ensures
        after_events(WorldView::fresh(name, origin), events).loaded() == merged_coords(events),
    decreases events.len(),
{
    let fresh = WorldView::fresh(name, origin);
    let end = after_events(fresh, events);
    if events.len() == 0 {
        assert(end.loaded() =~= merged_coords(events));
    } else {
        let head = events.drop_last();
        let last = events.last();
        let mid = after_events(fresh, head);
        lemma_loaded_are_the_merged(name, origin, head);
        assert forall|c: (i32, i32)| end.loaded().contains(c) <==> merged_coords(events).contains(
            c,
        ) by {
            if merged_coords(head).contains(c) {
                let i = choose|i: int| 0 <= i < head.len() && merges(#[trigger] head[i], c);
                assert(merges(events[i], c));
            }
            if merges(last, c) {
                assert(merges(events[events.len() - 1], c));
            }
            if merged_coords(events).contains(c) {
                let i = choose|i: int| 0 <= i < events.len() && merges(#[trigger] events[i], c);
                if i < head.len() {
                    assert(merges(head[i], c));
                }
            }
        }
        assert(end.loaded() =~= merged_coords(events));
    }
}

/// A fresh world stays well formed under every event that is allowed.
pub proof fn lemma_events_keep_wf(name: Seq<char>, origin: Point, events: Seq<WorldEvent>)
    requires
        events_allowed(WorldView::fresh(name, origin), events),
    ensures
        after_events(WorldView::fresh(name, origin), events).wf(),
    decreases events.len(),
{
    let fresh = WorldView::fresh(name, origin);
    if events.len() == 0 {
        lemma_fresh_wf(name, origin);
    } else {
        let mid = after_events(fresh, events.drop_last());
        lemma_events_keep_wf(name, origin, events.drop_last());
        match events.last() {
            WorldEvent::Requested(coord) => lemma_requested_wf(mid, coord),
            WorldEvent::Failed(coord) => lemma_failed_wf(mid, coord),
            WorldEvent::Merged { coord, chunk, roads, land_uses } => lemma_merged_wf(
                mid,
                coord,
                chunk,
                roads,
                land_uses,
            ),
        }
    }
}

/// Each loaded chunk keeps the ids of the features that its load brought.
proof fn lemma_chunk_lists(name: Seq<char>, origin: Point, events: Seq<WorldEvent>, i: int)
    requires
        events_allowed(WorldView::fresh(name, origin), events),
        0 <= i < events.len(),
        events[i] is Merged,
    ensures
        ({
            let end = after_events(WorldView::fresh(name, origin), events);
            &&& end.chunks.contains_key(events[i]->coord)
            &&& end.chunks[events[i]->coord].road_refs.to_set() == events[i]->chunk.roads.dom()
            &&& end.chunks[events[i]->coord].land_use_refs.to_set()
                == events[i]->chunk.land_uses.dom()
        }),
    decreases events.len(),
{
    let fresh = WorldView::fresh(name, origin);
    let head = events.drop_last();
    let mid = after_events(fresh, head);
    if i < head.len() {
        assert(head[i] == events[i]);
        lemma_chunk_lists(name, origin, head, i);
    }
}

/// In a world that went from fresh through events that were allowed, a
/// road's count is the number of chunks whose load succeeded and brought
/// that road, and a land use's count likewise.
pub proof fn lemma_refcount_counts_merges(
    name: Seq<char>,
    origin: Point,
    events: Seq<WorldEvent>,
    id: Id,
)
    requires
        events_allowed(WorldView::fresh(name, origin), events),
    ensures
        after_events(WorldView::fresh(name, origin), events).road_refcount(id) == merged_with_road(
            events,
            id,
        ).len(),
        after_events(WorldView::fresh(name, origin), events).land_use_refcount(id)
            == merged_with_land_use(events, id).len(),
{
    let end = after_events(WorldView::fresh(name, origin), events);
    lemma_events_keep_wf(name, origin, events);
    lemma_loaded_are_the_merged(name, origin, events);
    assert forall|c: (i32, i32)| end.road_users(id).contains(c) <==> merged_with_road(
        events,
        id,
    ).contains(c) by {
        if end.road_users(id).contains(c) {
            assert(merged_coords(events).contains(c));
            let i = choose|i: int| 0 <= i < events.len() && merges(#[trigger] events[i], c);
            lemma_chunk_lists(name, origin, events, i);
            assert(end.chunks[c].road_refs.to_set().contains(id));
            assert(merges_road(events[i], c, id));
        }
        if merged_with_road(events, id).contains(c) {
            let i = choose|i: int|
                0 <= i < events.len() && merges_road(#[trigger] events[i], c, id);
            lemma_chunk_lists(name, origin, events, i);
            assert(end.chunks[c].road_refs.to_set().contains(id));
        }
    }
    assert(end.road_users(id) =~= merged_with_road(events, id));
    assert forall|c: (i32, i32)| end.land_use_users(id).contains(c) <==> merged_with_land_use(
        events,
        id,
    ).contains(c) by {
        if end.land_use_users(id).contains(c) {
            assert(merged_coords(events).contains(c));
            let i = choose|i: int| 0 <= i < events.len() && merges(#[trigger] events[i], c);
            lemma_chunk_lists(name, origin, events, i);
            assert(end.chunks[c].land_use_refs.to_set().contains(id));
            assert(merges_land_use(events[i], c, id));
        }
        if merged_with_land_use(events, id).contains(c) {
            let i = choose|i: int|
                0 <= i < events.len() && merges_land_use(#[trigger] events[i], c, id);
            lemma_chunk_lists(name, origin, events, i);
            assert(end.chunks[c].land_use_refs.to_set().contains(id));
        }
    }
    assert(end.land_use_users(id) =~= merged_with_land_use(events, id));
}

/// A request for a chunk that the world knows changes nothing.
pub proof fn lemma_known_chunk_request_changes_nothing(w: WorldView, coord: (i32, i32))
    requires
        w.knows(coord),
    ensures
        w.requested(coord) == w,
{
}

/// In every well-formed world a stored feature has a count that is not
/// zero, and each count is the number of loaded chunks that hold the
/// feature.
pub proof fn lemma_counts_are_users(w: WorldView, id: Id)
    requires
        w.wf(),
    ensures
        w.road_refcount(id) == w.road_users(id).len(),
        w.land_use_refcount(id) == w.land_use_users(id).len(),
        w.road_refs.contains_key(id) ==> w.road_refcount(id) > 0,
        w.land_use_refs.contains_key(id) ==> w.land_use_refcount(id) > 0,
{
    assert(crate::store::refcount(w.road_refs, id) == users(road_lists(w.chunks), id).len());
    assert(crate::store::refcount(w.land_use_refs, id) == users(
        land_use_lists(w.chunks),
        id,
    ).len());
}

/// In every well-formed world as many features are stored as have a count:
/// each counted feature is stored, and stored once.
pub proof fn lemma_stored_as_many_as_counted(w: WorldView)
    requires
        w.wf(),
    ensures
        w.roads.len() == w.road_refs.dom().len(),
        w.land_uses.len() == w.land_use_refs.dom().len(),
        forall|id: Id| road_ids(w.roads).contains(id) <==> w.road_refs.contains_key(id),
        forall|id: Id| land_use_ids(w.land_uses).contains(id) <==> w.land_use_refs.contains_key(id),
{
    road_ids(w.roads).unique_seq_to_set();
    land_use_ids(w.land_uses).unique_seq_to_set();
    assert forall|id: Id| road_ids(w.roads).contains(id) <==> w.road_refs.contains_key(id) by {
        assert(road_ids(w.roads).to_set().contains(id) <==> road_ids(w.roads).contains(id));
    }
    assert forall|id: Id|
        land_use_ids(w.land_uses).contains(id) <==> w.land_use_refs.contains_key(id) by {
        assert(land_use_ids(w.land_uses).to_set().contains(id) <==> land_use_ids(
            w.land_uses,
        ).contains(id));
    }
}

/// The chunk that `event` is about.
pub open spec fn event_coord(event: WorldEvent) -> (i32, i32) {
    match event {
        WorldEvent::Requested(coord) => coord,
        WorldEvent::Failed(coord) => coord,
        WorldEvent::Merged { coord, .. } => coord,
    }
}

/// The chunks that `events` are about.
pub open spec fn coords_of(events: Seq<WorldEvent>) -> Set<(i32, i32)> {
    Set::new(
        |coord: (i32, i32)|
            exists|i: int| 0 <= i < events.len() && event_coord(#[trigger] events[i]) == coord,
    )
}

/// Whether every one of `events` is a request.
pub open spec fn all_requests(events: Seq<WorldEvent>) -> bool {
    forall|i: int| 0 <= i < events.len() ==> (#[trigger] events[i]) is Requested
}

/// Whether every one of `events` is the end of a load.
pub open spec fn all_completions(events: Seq<WorldEvent>) -> bool {
    forall|i: int| 0 <= i < events.len() ==> !((#[trigger] events[i]) is Requested)
}

/// What happens first and what happens then, taken together.
pub proof fn lemma_events_in_two_parts(w: WorldView, first: Seq<WorldEvent>, then: Seq<WorldEvent>)
    ensures
        after_events(w, first + then) == after_events(after_events(w, first), then),
    decreases then.len(),
{
    if then.len() == 0 {
        assert(first + then =~= first);
    } else {
        assert((first + then).drop_last() =~= first + then.drop_last());
        assert((first + then).last() == then.last());
        lemma_events_in_two_parts(w, first, then.drop_last());
    }
}

/// Requests change nothing but the chunks that are being loaded: those that
/// were asked for and are not loaded join them.
pub proof fn lemma_requests_mark_loading(w: WorldView, requests: Seq<WorldEvent>)
    requires
        all_requests(requests),
    ensures
        after_events(w, requests) == (WorldView {
            loading: w.loading + coords_of(requests).difference(w.chunks.dom()),
            ..w
        }),
    decreases requests.len(),
{
    let end = after_events(w, requests);
    let want = w.loading + coords_of(requests).difference(w.chunks.dom());
    if requests.len() == 0 {
        assert(end.loading =~= want);
    } else {
        let head = requests.drop_last();
        let last = requests.last();
        assert(requests[requests.len() - 1] is Requested);
        assert forall|i: int| 0 <= i < head.len() implies (#[trigger] head[i]) is Requested by {
            assert(head[i] == requests[i]);
        }
        lemma_requests_mark_loading(w, head);
        let coord = event_coord(last);
        assert forall|c: (i32, i32)| end.loading.contains(c) <==> want.contains(c) by {
            if coords_of(head).contains(c) {
                let i = choose|i: int| 0 <= i < head.len() && event_coord(#[trigger] head[i]) == c;
                assert(event_coord(requests[i]) == c);
            }
            if c == coord {
                assert(event_coord(requests[requests.len() - 1]) == c);
            }
            if coords_of(requests).contains(c) {
                let i = choose|i: int|
                    0 <= i < requests.len() && event_coord(#[trigger] requests[i]) == c;
                if i < head.len() {
                    assert(event_coord(head[i]) == c);
                }
            }
        }
        assert(end.loading =~= want);
    }
}

/// The end of a load takes its chunk, and no other, out of the chunks that
/// are being loaded.
pub proof fn lemma_completions_clear_loading(w: WorldView, completions: Seq<WorldEvent>)
    requires
        all_completions(completions),
    ensures
        after_events(w, completions).loading == w.loading.difference(coords_of(completions)),
    decreases completions.len(),
{
    let end = after_events(w, completions);
    let want = w.loading.difference(coords_of(completions));
    if completions.len() == 0 {
        assert(end.loading =~= want);
    } else {
        let head = completions.drop_last();
        let last = completions.last();
        assert(!(completions[completions.len() - 1] is Requested));
        assert forall|i: int| 0 <= i < head.len() implies !((#[trigger] head[i]) is Requested) by {
            assert(head[i] == completions[i]);
        }
        lemma_completions_clear_loading(w, head);
        let coord = event_coord(last);
        assert forall|c: (i32, i32)| end.loading.contains(c) <==> want.contains(c) by {
            if coords_of(head).contains(c) {
                let i = choose|i: int| 0 <= i < head.len() && event_coord(#[trigger] head[i]) == c;
                assert(event_coord(completions[i]) == c);
            }
            if c == coord {
                assert(event_coord(completions[completions.len() - 1]) == c);
            }
            if coords_of(completions).contains(c) {
                let i = choose|i: int|
                    0 <= i < completions.len() && event_coord(#[trigger] completions[i]) == c;
                if i < head.len() {
                    assert(event_coord(head[i]) == c);
                }
            }
        }
        assert(end.loading =~= want);
    }
}

/// Where chunks are asked of a fresh world and the load of each of them has
/// ended, in whatever order, the loaded chunks are exactly those whose load
/// succeeded, and nothing is left being loaded.
pub proof fn lemma_all_loads_ended(
    name: Seq<char>,
    origin: Point,
    requests: Seq<WorldEvent>,
    completions: Seq<WorldEvent>,
)
    requires
        all_requests(requests),
        all_completions(completions),
        coords_of(requests).subset_of(coords_of(completions)),
    ensures
        after_events(WorldView::fresh(name, origin), requests + completions).loaded()
            == merged_coords(completions),
        after_events(WorldView::fresh(name, origin), requests + completions).loading
            == Set::<(i32, i32)>::empty(),
{
    let fresh = WorldView::fresh(name, origin);
    let events = requests + completions;
    let mid = after_events(fresh, requests);
    let end = after_events(fresh, events);
    lemma_events_in_two_parts(fresh, requests, completions);
    lemma_requests_mark_loading(fresh, requests);
    lemma_completions_clear_loading(mid, completions);
    assert(end.loading =~= Set::<(i32, i32)>::empty());
    lemma_loaded_are_the_merged(name, origin, events);
    assert forall|c: (i32, i32)| merged_coords(events).contains(c) <==> merged_coords(
        completions,
    ).contains(c) by {
        if merged_coords(events).contains(c) {
            let i = choose|i: int| 0 <= i < events.len() && merges(#[trigger] events[i], c);
            if i < requests.len() {
                assert(events[i] == requests[i]);
            } else {
                assert(events[i] == completions[i - requests.len()]);
                assert(merges(completions[i - requests.len()], c));
            }
        }
        if merged_coords(completions).contains(c) {
            let i = choose|i: int|
                0 <= i < completions.len() && merges(#[trigger] completions[i], c);
            assert(events[requests.len() + i] == completions[i]);
            assert(merges(events[requests.len() + i], c));
        }
    }
    assert(merged_coords(events) =~= merged_coords(completions));
}

/// What was stored before a chunk is merged stays stored as it was, and in
/// its place: a feature that a later chunk brings again is not taken.
pub proof fn lemma_merge_keeps_stored(
    w: WorldView,
    coord: (i32, i32),
    chunk: PartialWorldView,
    roads: Seq<Id>,
    land_uses: Seq<Id>,
)
    ensures
        w.roads.is_prefix_of(w.merged(coord, chunk, roads, land_uses).roads),
        w.land_uses.is_prefix_of(w.merged(coord, chunk, roads, land_uses).land_uses),
{
    let m = w.merged(coord, chunk, roads, land_uses);
    assert(m.roads.subrange(0, w.roads.len() as int) =~= w.roads);
    assert(m.land_uses.subrange(0, w.land_uses.len() as int) =~= w.land_uses);
}

/// Two chunks can be merged in either order: the counts, the loaded chunks,
/// the chunks being loaded and the ids of the stored features come out the
/// same. Only the order of the stored features, and which copy of a shared
/// feature is stored, may differ.
pub proof fn lemma_merges_commute(
    w: WorldView,
    a: WorldEvent,
    b: WorldEvent,
)
    requires
        w.wf(),
        a is Merged,
        b is Merged,
        event_coord(a) != event_coord(b),
        event_allowed(w, a),
        event_allowed(after_event(w, a), b),
        event_allowed(w, b),
        event_allowed(after_event(w, b), a),
    ensures
        ({
            let ab = after_event(after_event(w, a), b);
            let ba = after_event(after_event(w, b), a);
            &&& ab.road_refs == ba.road_refs
            &&& ab.land_use_refs == ba.land_use_refs
            &&& ab.chunks == ba.chunks
            &&& ab.loading == ba.loading
            &&& road_ids(ab.roads).to_set() == road_ids(ba.roads).to_set()
            &&& land_use_ids(ab.land_uses).to_set() == land_use_ids(ba.land_uses).to_set()
        }),
{
    let wa = after_event(w, a);
    let wb = after_event(w, b);
    let ab = after_event(wa, b);
    let ba = after_event(wb, a);
    lemma_merged_wf(w, a->coord, a->chunk, a->roads, a->land_uses);
    lemma_merged_wf(w, b->coord, b->chunk, b->roads, b->land_uses);
    lemma_merged_wf(wa, b->coord, b->chunk, b->roads, b->land_uses);
    lemma_merged_wf(wb, a->coord, a->chunk, a->roads, a->land_uses);
    assert forall|id: Id| ab.road_refs.contains_key(id) implies #[trigger] ab.road_refs[id]
        == ba.road_refs[id] by {
        if a->roads.contains(id) {
            assert(a->roads.to_set().contains(id));
        }
        if b->roads.contains(id) {
            assert(b->roads.to_set().contains(id));
        }
    }
    assert(ab.road_refs =~= ba.road_refs);
    assert forall|id: Id|
        ab.land_use_refs.contains_key(id) implies #[trigger] ab.land_use_refs[id]
        == ba.land_use_refs[id] by {
        if a->land_uses.contains(id) {
            assert(a->land_uses.to_set().contains(id));
        }
        if b->land_uses.contains(id) {
            assert(b->land_uses.to_set().contains(id));
        }
    }
    assert(ab.land_use_refs =~= ba.land_use_refs);
    assert(ab.chunks =~= ba.chunks);
    assert(ab.loading =~= ba.loading);
}

} // verus!
