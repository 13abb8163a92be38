//! The world as a mathematical value: which chunks are loaded or being
//! loaded, which features are stored, and how many chunks refer to each.

use crate::entity::{Id, LandUseView, Point, RoadView};
use crate::parsed::PartialWorldView;
use crate::viewport::ChunkChange;
use crate::store::{
    bumped, counts_can_grow, counts_match, counts_positive, first_seen, lemma_counts_after_chunk,
    lemma_first_seen, lemma_stored_after_chunk, picked, refcount, stored_match, users,
};
use vstd::prelude::*;

verus! {

/// What a loaded chunk leaves behind: the ids of the features it held.
pub struct ChunkView {
    pub road_refs: Seq<Id>,
    pub land_use_refs: Seq<Id>,
}

/// The state of a world.
pub struct WorldView {
    pub origin: Point,
    pub name: Seq<char>,
    pub road_refs: Map<Id, u16>,
    pub land_use_refs: Map<Id, u16>,
    pub roads: Seq<RoadView>,
    pub land_uses: Seq<LandUseView>,
    pub chunks: Map<(i32, i32), ChunkView>,
    pub loading: Set<(i32, i32)>,
}

/// The ids of `roads`, in their order.
pub open spec fn road_ids(roads: Seq<RoadView>) -> Seq<Id> {
    roads.map_values(|r: RoadView| r.id)
}

/// The ids of `land_uses`, in their order.
pub open spec fn land_use_ids(land_uses: Seq<LandUseView>) -> Seq<Id> {
    land_uses.map_values(|l: LandUseView| l.id)
}

/// For each loaded chunk, the ids of its roads.
pub open spec fn road_lists(chunks: Map<(i32, i32), ChunkView>) -> Map<(i32, i32), Seq<Id>> {
    Map::new(|c: (i32, i32)| chunks.contains_key(c), |c: (i32, i32)| chunks[c].road_refs)
}

/// For each loaded chunk, the ids of its land uses.
pub open spec fn land_use_lists(chunks: Map<(i32, i32), ChunkView>) -> Map<(i32, i32), Seq<Id>> {
    Map::new(|c: (i32, i32)| chunks.contains_key(c), |c: (i32, i32)| chunks[c].land_use_refs)
}

impl WorldView {
    /// A world in which nothing is loaded.
    pub open spec fn fresh(name: Seq<char>, origin: Point) -> WorldView {
        WorldView {
            origin,
            name,
            road_refs: Map::empty(),
            land_use_refs: Map::empty(),
            roads: Seq::empty(),
            land_uses: Seq::empty(),
            chunks: Map::empty(),
            loading: Set::empty(),
        }
    }

    /// The chunks that are loaded.
    pub open spec fn loaded(self) -> Set<(i32, i32)> {
        self.chunks.dom()
    }

    /// Whether `coord` is loaded or being loaded.
    pub open spec fn knows(self, coord: (i32, i32)) -> bool {
        self.chunks.contains_key(coord) || self.loading.contains(coord)
    }

    /// How many loaded chunks hold the road `id`.
    pub open spec fn road_refcount(self, id: Id) -> nat {
        refcount(self.road_refs, id)
    }

    /// How many loaded chunks hold the land use `id`.
    pub open spec fn land_use_refcount(self, id: Id) -> nat {
        refcount(self.land_use_refs, id)
    }

    /// The loaded chunks that hold the road `id`.
    pub open spec fn road_users(self, id: Id) -> Set<(i32, i32)> {
        users(road_lists(self.chunks), id)
    }

    /// The loaded chunks that hold the land use `id`.
    pub open spec fn land_use_users(self, id: Id) -> Set<(i32, i32)> {
        users(land_use_lists(self.chunks), id)
    }

    /// What holds of every world:
    /// no chunk is loaded and being loaded at once; each stored feature is
    /// stored once and has a count, which is not zero and is the number of
    /// loaded chunks that hold the feature.
    pub open spec fn wf(self) -> bool {
        &&& self.chunks.dom().finite()
        &&& forall|c: (i32, i32)| !(self.chunks.contains_key(c) && self.loading.contains(c))
        &&& stored_match(self.road_refs, road_ids(self.roads))
        &&& stored_match(self.land_use_refs, land_use_ids(self.land_uses))
        &&& counts_positive(self.road_refs)
        &&& counts_positive(self.land_use_refs)
        &&& counts_match(self.road_refs, road_lists(self.chunks))
        &&& counts_match(self.land_use_refs, land_use_lists(self.chunks))
    }

    /// The world after a request for `coord`: the chunk is being loaded,
    /// unless the world knew it already.
    pub open spec fn requested(self, coord: (i32, i32)) -> WorldView {
        if self.knows(coord) {
            self
        } else {
            WorldView { loading: self.loading.insert(coord), ..self }
        }
    }

    /// The world after `changes` of the visible range: each chunk that came
    /// into view was asked for, in turn. A chunk that left the view stays as
    /// it is.
    pub open spec fn requested_all(self, changes: Seq<ChunkChange>) -> WorldView
        decreases changes.len(),
    {
        if changes.len() == 0 {
            self
        } else {
            let before = self.requested_all(changes.drop_last());
            let last = changes.last();
            if last.load {
                before.requested((last.x, last.y))
            } else {
                before
            }
        }
    }

    /// The chunks that came into view with `changes` and that the world did
    /// not know when their turn came: those are to be loaded.
    pub open spec fn newly_requested(self, changes: Seq<ChunkChange>) -> Seq<(i32, i32)>
        decreases changes.len(),
    {
        if changes.len() == 0 {
            Seq::empty()
        } else {
            let before = self.requested_all(changes.drop_last());
            let found = self.newly_requested(changes.drop_last());
            let last = changes.last();
            if last.load && !before.knows((last.x, last.y)) {
                found.push((last.x, last.y))
            } else {
                found
            }
        }
    }

    /// The world after the load of `coord` has failed.
    pub open spec fn failed(self, coord: (i32, i32)) -> WorldView {
        WorldView { loading: self.loading.remove(coord), ..self }
    }

    /// The world after the load of `coord` has brought `chunk`, whose roads
    /// were taken in the order `roads` and whose land uses in the order
    /// `land_uses`.
    pub open spec fn merged(
        self,
        coord: (i32, i32),
        chunk: PartialWorldView,
        roads: Seq<Id>,
        land_uses: Seq<Id>,
    ) -> WorldView {
        WorldView {
            road_refs: bumped(self.road_refs, roads),
            land_use_refs: bumped(self.land_use_refs, land_uses),
            roads: self.roads + picked(first_seen(roads, self.road_refs.dom()), chunk.roads),
            land_uses: self.land_uses + picked(
                first_seen(land_uses, self.land_use_refs.dom()),
                chunk.land_uses,
            ),
            chunks: self.chunks.insert(
                coord,
                ChunkView { road_refs: roads, land_use_refs: land_uses },
            ),
            loading: self.loading.remove(coord),
            ..self
        }
    }

    /// Whether `roads` and `land_uses` list the ids of `chunk`, each once.
    pub open spec fn lists_of(chunk: PartialWorldView, roads: Seq<Id>, land_uses: Seq<Id>) -> bool {
        &&& roads.no_duplicates()
        &&& roads.to_set() == chunk.roads.dom()
        &&& land_uses.no_duplicates()
        &&& land_uses.to_set() == chunk.land_uses.dom()
    }

    /// Whether `after` is this world with `chunk` merged as the chunk at
    /// `coord`, the ids of its features taken in the order in which `after`
    /// keeps them for that chunk.
    pub open spec fn merged_into(
        self,
        after: WorldView,
        coord: (i32, i32),
        chunk: PartialWorldView,
    ) -> bool {
        &&& after.chunks.contains_key(coord)
        &&& WorldView::lists_of(
            chunk,
            after.chunks[coord].road_refs,
            after.chunks[coord].land_use_refs,
        )
        &&& after == self.merged(
            coord,
            chunk,
            after.chunks[coord].road_refs,
            after.chunks[coord].land_use_refs,
        )
    }

    /// Whether `chunk` can be merged as the chunk at `coord`: that chunk is
    /// not loaded yet, and the count of each road and of each land use of
    /// `chunk` can take one more.
    pub open spec fn can_merge(self, coord: (i32, i32), chunk: PartialWorldView) -> bool {
        &&& !self.chunks.contains_key(coord)
        &&& counts_can_grow(self.road_refs, chunk.roads.dom())
        &&& counts_can_grow(self.land_use_refs, chunk.land_uses.dom())
    }
}

/// A fresh world is well formed.
pub proof fn lemma_fresh_wf(name: Seq<char>, origin: Point)
    ensures
        WorldView::fresh(name, origin).wf(),
{
    let w = WorldView::fresh(name, origin);
    assert(road_ids(w.roads) =~= Seq::<Id>::empty());
    assert(land_use_ids(w.land_uses) =~= Seq::<Id>::empty());
    assert(road_ids(w.roads).to_set() =~= w.road_refs.dom());
    assert(land_use_ids(w.land_uses).to_set() =~= w.land_use_refs.dom());
    assert forall|id: Id| #[trigger] refcount(w.road_refs, id) == users(
        road_lists(w.chunks),
        id,
    ).len() by {
        assert(users(road_lists(w.chunks), id) =~= Set::<(i32, i32)>::empty());
    }
    assert forall|id: Id| #[trigger] refcount(w.land_use_refs, id) == users(
        land_use_lists(w.chunks),
        id,
    ).len() by {
        assert(users(land_use_lists(w.chunks), id) =~= Set::<(i32, i32)>::empty());
    }
}

/// A request keeps a world well formed.
pub proof fn lemma_requested_wf(w: WorldView, coord: (i32, i32))
    requires
        w.wf(),
    ensures
        w.requested(coord).wf(),
{
}

/// A failed load keeps a world well formed.
pub proof fn lemma_failed_wf(w: WorldView, coord: (i32, i32))
    requires
        w.wf(),
    ensures
        w.failed(coord).wf(),
{
}

/// The ids of the features taken from a chunk are the ids under which they
/// stood.
pub proof fn lemma_picked_road_ids(ids: Seq<Id>, chunk: PartialWorldView)
    requires
        chunk.wf(),
        forall|i: int| 0 <= i < ids.len() ==> chunk.roads.contains_key(#[trigger] ids[i]),
    ensures
        road_ids(picked(ids, chunk.roads)) == ids,
{
    assert(road_ids(picked(ids, chunk.roads)) =~= ids);
}

/// The ids of the features taken from a chunk are the ids under which they
/// stood.
pub proof fn lemma_picked_land_use_ids(ids: Seq<Id>, chunk: PartialWorldView)
    requires
        chunk.wf(),
        forall|i: int| 0 <= i < ids.len() ==> chunk.land_uses.contains_key(#[trigger] ids[i]),
    ensures
        land_use_ids(picked(ids, chunk.land_uses)) == ids,
{
    assert(land_use_ids(picked(ids, chunk.land_uses)) =~= ids);
}

/// Merging a chunk keeps a world well formed.
pub proof fn lemma_merged_wf(
    w: WorldView,
    coord: (i32, i32),
    chunk: PartialWorldView,
    roads: Seq<Id>,
    land_uses: Seq<Id>,
)
    requires
        w.wf(),
        chunk.wf(),
        w.can_merge(coord, chunk),
        WorldView::lists_of(chunk, roads, land_uses),
    ensures
        w.merged(coord, chunk, roads, land_uses).wf(),
{
    let m = w.merged(coord, chunk, roads, land_uses);
    let cv = ChunkView { road_refs: roads, land_use_refs: land_uses };
    assert(road_lists(m.chunks) =~= road_lists(w.chunks).insert(coord, roads));
    assert(land_use_lists(m.chunks) =~= land_use_lists(w.chunks).insert(coord, land_uses));
    assert(road_lists(w.chunks).dom() =~= w.chunks.dom());
    assert(land_use_lists(w.chunks).dom() =~= w.chunks.dom());
    lemma_counts_after_chunk(w.road_refs, road_lists(w.chunks), coord, roads);
    lemma_counts_after_chunk(w.land_use_refs, land_use_lists(w.chunks), coord, land_uses);
    lemma_stored_after_chunk(w.road_refs, road_ids(w.roads), roads);
    lemma_stored_after_chunk(w.land_use_refs, land_use_ids(w.land_uses), land_uses);
    let fresh_roads = first_seen(roads, w.road_refs.dom());
    let fresh_land_uses = first_seen(land_uses, w.land_use_refs.dom());
    lemma_first_seen(roads, w.road_refs.dom());
    lemma_first_seen(land_uses, w.land_use_refs.dom());
    assert forall|i: int| 0 <= i < fresh_roads.len() implies chunk.roads.contains_key(
        #[trigger] fresh_roads[i],
    ) by {
        assert(fresh_roads.contains(fresh_roads[i]));
        assert(roads.to_set().contains(fresh_roads[i]));
    }
    assert forall|i: int| 0 <= i < fresh_land_uses.len() implies chunk.land_uses.contains_key(
        #[trigger] fresh_land_uses[i],
    ) by {
        assert(fresh_land_uses.contains(fresh_land_uses[i]));
        assert(land_uses.to_set().contains(fresh_land_uses[i]));
    }
    lemma_picked_road_ids(fresh_roads, chunk);
    lemma_picked_land_use_ids(fresh_land_uses, chunk);
    assert(road_ids(m.roads) =~= road_ids(w.roads) + fresh_roads);
    assert(land_use_ids(m.land_uses) =~= land_use_ids(w.land_uses) + fresh_land_uses);
}

} // verus!
