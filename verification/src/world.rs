//! The world: the chunks that are loaded or being loaded, and the features
//! of the loaded chunks, each stored once and counted by the chunks that
//! hold it.

use crate::entity::{Id, LandUse, LandUseView, Point, Road, RoadView};
use crate::error::LoadError;
use crate::model::{
    lemma_failed_wf, lemma_fresh_wf, lemma_merged_wf, lemma_requested_wf, ChunkView, WorldView,
};
use crate::parsed::{ids_of, land_uses_view, roads_view, PartialWorld};
use crate::viewport::ChunkChange;
use crate::store::{
    all_can_grow, first_seen, inc_refs, lemma_first_seen, picked, refcount,
};
use std::collections::HashMap;
use std::collections::HashSet;
use vstd::prelude::*;

verus! {

broadcast use vstd::std_specs::hash::group_hash_axioms;

/// The key under which a chunk stands in the world's tables: its two
/// coordinates side by side in one number.
pub open spec fn coord_key(coord: (i32, i32)) -> i64 {
    (coord.0 * 0x1_0000_0000 + (coord.1 + 0x8000_0000)) as i64
}

/// Two chunks with one key are one chunk.
pub proof fn lemma_coord_key_injective(a: (i32, i32), b: (i32, i32))
    requires
        coord_key(a) == coord_key(b),
    ensures
        a == b,
{
}

/// The key of a chunk.
pub fn key_of(coord: (i32, i32)) -> (key: i64)
    ensures
        key == coord_key(coord),
{
    let x: i64 = coord.0 as i64;
    let y: i64 = coord.1 as i64;
    x * 0x1_0000_0000 + (y + 0x8000_0000)
}

/// What is kept of a loaded chunk: the ids of the features it held.
#[derive(Debug, Clone, PartialEq, Eq)]
pub struct Chunk {
    road_refs: Vec<Id>,
    land_use_refs: Vec<Id>,
}

impl View for Chunk {
    type V = ChunkView;

    closed spec fn view(&self) -> ChunkView {
        ChunkView { road_refs: self.road_refs@, land_use_refs: self.land_use_refs@ }
    }
}

impl Chunk {
    /// The ids of the roads that the chunk held.
    pub fn road_refs(&self) -> (ids: &Vec<Id>)
        ensures
            ids@ == self@.road_refs,
    {
        &self.road_refs
    }

    /// The ids of the land uses that the chunk held.
    pub fn land_use_refs(&self) -> (ids: &Vec<Id>)
        ensures
            ids@ == self@.land_use_refs,
    {
        &self.land_use_refs
    }
}

/// How the load of one chunk ended, and which chunk it was.
#[derive(Debug)]
pub struct PartialChunk(pub Result<PartialWorld, LoadError>, pub (i32, i32));

/// The roads of a list, each by its view.
pub open spec fn road_views(roads: Seq<Road>) -> Seq<RoadView> {
    roads.map_values(|r: Road| r@)
}

/// The land uses of a list, each by its view.
pub open spec fn land_use_views(land_uses: Seq<LandUse>) -> Seq<LandUseView> {
    land_uses.map_values(|l: LandUse| l@)
}

/// The world of one origin.
#[derive(Debug)]
pub struct World {
    origin: Point,
    name: String,
    road_refs: HashMap<Id, u16>,
    land_use_refs: HashMap<Id, u16>,
    loaded_roads: Vec<Road>,
    loaded_land_uses: Vec<LandUse>,
    loaded_chunks: HashMap<i64, Chunk>,
    loading_chunks: HashSet<i64>,
}

impl View for World {
    type V = WorldView;

    closed spec fn view(&self) -> WorldView {
        WorldView {
            origin: self.origin,
            name: self.name@,
            road_refs: self.road_refs@,
            land_use_refs: self.land_use_refs@,
            roads: road_views(self.loaded_roads@),
            land_uses: land_use_views(self.loaded_land_uses@),
            chunks: Map::new(
                |c: (i32, i32)| self.loaded_chunks@.contains_key(coord_key(c)),
                |c: (i32, i32)| self.loaded_chunks@[coord_key(c)]@,
            ),
            loading: Set::new(|c: (i32, i32)| self.loading_chunks@.contains(coord_key(c))),
        }
    }
}

/// Taking features out of a map and viewing them is viewing the map and
/// taking them out of that.
proof fn lemma_picked_roads_view(ids: Seq<Id>, objs: Map<Id, Road>)
    requires
        forall|i: int| 0 <= i < ids.len() ==> objs.contains_key(#[trigger] ids[i]),
    ensures
        road_views(picked(ids, objs)) == picked(ids, roads_view(objs)),
{
    assert(road_views(picked(ids, objs)) =~= picked(ids, roads_view(objs)));
}

proof fn lemma_picked_land_uses_view(ids: Seq<Id>, objs: Map<Id, LandUse>)
    requires
        forall|i: int| 0 <= i < ids.len() ==> objs.contains_key(#[trigger] ids[i]),
    ensures
        land_use_views(picked(ids, objs)) == picked(ids, land_uses_view(objs)),
{
    assert(land_use_views(picked(ids, objs)) =~= picked(ids, land_uses_view(objs)));
}

impl World {
    /// Well-formedness: what holds of every world (see `WorldView::wf`).
    pub closed spec fn wf(&self) -> bool {
        &&& self@.wf()
        &&& self.loaded_chunks@.dom().len() == self@.chunks.dom().len()
    }

    /// A well-formed world has a well-formed view.
    pub proof fn lemma_view_wf(&self)
        requires
            self.wf(),
        ensures
            self@.wf(),
    {
    }

    /// A world in which nothing is loaded. `origin` is the pixel onto which
    /// the world's origin is projected.
    pub fn new(name: String, origin: Point) -> (w: World)
        ensures
            w@ == WorldView::fresh(name@, origin),
            w.wf(),
    {
        let w = World {
            origin,
            name,
            road_refs: HashMap::new(),
            land_use_refs: HashMap::new(),
            loaded_roads: Vec::new(),
            loaded_land_uses: Vec::new(),
            loaded_chunks: HashMap::new(),
            loading_chunks: HashSet::new(),
        };
        proof {
            let fresh = WorldView::fresh(name@, origin);
            assert(w@.roads =~= fresh.roads);
            assert(w@.land_uses =~= fresh.land_uses);
            assert(w@.chunks =~= fresh.chunks);
            assert(w@.loading =~= fresh.loading);
            lemma_fresh_wf(name@, origin);
        }
        w
    }

    /// The pixel onto which the world's origin is projected.
    pub fn origin(&self) -> (p: Point)
        ensures
            p == self@.origin,
    {
        self.origin
    }

    /// The world's name.
    pub fn name(&self) -> (s: &String)
        ensures
            s@ == self@.name,
    {
        &self.name
    }

    /// The directory below `root` in which the world keeps its files.
    pub fn get_save_dir(&self, root: &str) -> (dir: String)
        ensures
            dir@ == crate::cache::save_dir(root@, self@.name),
    {
        crate::cache::get_save_dir(root, self.name.as_str())
    }

    /// The roads of the loaded chunks, each once.
    pub fn loaded_roads(&self) -> (roads: &Vec<Road>)
        ensures
            road_views(roads@) == self@.roads,
    {
        &self.loaded_roads
    }

    /// The land uses of the loaded chunks, each once.
    pub fn loaded_land_uses(&self) -> (land_uses: &Vec<LandUse>)
        ensures
            land_use_views(land_uses@) == self@.land_uses,
    {
        &self.loaded_land_uses
    }

    /// Whether the chunk at `coord` is loaded.
    pub fn is_loaded(&self, coord: (i32, i32)) -> (b: bool)
        ensures
            b == self@.chunks.contains_key(coord),
    {
        let key = key_of(coord);
        self.loaded_chunks.contains_key(&key)
    }

    /// Whether the chunk at `coord` is being loaded.
    pub fn is_loading(&self, coord: (i32, i32)) -> (b: bool)
        ensures
            b == self@.loading.contains(coord),
    {
        let key = key_of(coord);
        self.loading_chunks.contains(&key)
    }

    /// How many chunks are loaded.
    pub fn loaded_chunk_count(&self) -> (n: usize)
        requires
            self.wf(),
        ensures
            n == self@.chunks.dom().len(),
    {
        self.loaded_chunks.len()
    }

    /// What is kept of the chunk at `coord`, if it is loaded.
    pub fn chunk(&self, coord: (i32, i32)) -> (c: Option<&Chunk>)
        ensures
            c is Some == self@.chunks.contains_key(coord),
            c matches Some(chunk) ==> chunk@ == self@.chunks[coord],
    {
        let key = key_of(coord);
        self.loaded_chunks.get(&key)
    }

    /// How many loaded chunks hold the road `id`.
    pub fn road_refcount(&self, id: Id) -> (n: u16)
        ensures
            n == self@.road_refcount(id),
    {
        match self.road_refs.get(&id) {
            Some(n) => *n,
            None => 0,
        }
    }

    /// How many loaded chunks hold the land use `id`.
    pub fn land_use_refcount(&self, id: Id) -> (n: u16)
        ensures
            n == self@.land_use_refcount(id),
    {
        match self.land_use_refs.get(&id) {
            Some(n) => *n,
            None => 0,
        }
    }

    /// Whether `chunk` can be merged as the chunk at `coord`: that chunk is
    /// not loaded yet, and no count of a road or land use of `chunk` is at
    /// its limit (see `WorldView::can_merge`).
    pub fn can_merge(&self, coord: (i32, i32), chunk: &PartialWorld) -> (b: bool)
        ensures
            b == self@.can_merge(coord, chunk@),
    {
        if self.is_loaded(coord) {
            return false;
        }
        let roads = chunk.roads();
        let road_refs = ids_of(roads);
        assert(road_refs@.to_set() =~= chunk@.roads.dom());
        if !all_can_grow(&self.road_refs, &road_refs) {
            return false;
        }
        let land_uses = chunk.land_uses();
        let land_use_refs = ids_of(land_uses);
        assert(land_use_refs@.to_set() =~= chunk@.land_uses.dom());
        all_can_grow(&self.land_use_refs, &land_use_refs)
    }

    /// `projected` as seen from the world's origin.
    pub fn convert_latlon_to_pixel(&self, projected: &Point) -> (p: Point)
        requires
            crate::entity::point_fits(*projected, self@.origin),
        ensures
            p == crate::entity::point_relative(*projected, self@.origin),
    {
        projected.relative_to(&self.origin)
    }

    /// Asks for the chunk at `(x, y)`.
    ///
    /// A chunk that is loaded or being loaded is refused with
    /// `ChunkAlreadyLoaded`, and the world stays as it is. Any other chunk
    /// counts as being loaded from now on, and its coordinates come back:
    /// the caller has it loaded and hands the outcome to
    /// `finish_chunk_request`.
    pub fn request_chunk_async(&mut self, x: i32, y: i32) -> (r: Result<(i32, i32), LoadError>)
        requires
            old(self).wf(),
        ensures
            final(self).wf(),
            final(self)@ == old(self)@.requested((x, y)),
            old(self)@.knows((x, y)) ==> r == Err::<(i32, i32), _>(
                LoadError::ChunkAlreadyLoaded((x, y)),
            ) && final(self)@ == old(self)@,
            !old(self)@.knows((x, y)) ==> r == Ok::<_, LoadError>((x, y)),
    {
        let coord = (x, y);
        let key = key_of(coord);
        let loaded_already = self.loaded_chunks.contains_key(&key) || self.loading_chunks.contains(
            &key,
        );
        if loaded_already {
            return Err(LoadError::ChunkAlreadyLoaded(coord));
        }
        self.loading_chunks.insert(key);
        proof {
            let want = old(self)@.requested(coord);
            assert forall|c: (i32, i32)| self@.loading.contains(c) == want.loading.contains(c) by {
                if coord_key(c) == key {
                    lemma_coord_key_injective(c, coord);
                }
            }
            assert(self@.loading =~= want.loading);
            assert(self@.chunks =~= want.chunks);
            lemma_requested_wf(old(self)@, coord);
        }
        Ok(coord)
    }

    /// Asks for each chunk that came into view with `changes`, in turn, and
    /// returns those that the world did not know: the caller has them
    /// loaded. Chunks that left the view are not touched.
    pub fn request_changes(&mut self, changes: &Vec<ChunkChange>) -> (to_load: Vec<(i32, i32)>)
        requires
            old(self).wf(),
        ensures
            final(self).wf(),
            final(self)@ == old(self)@.requested_all(changes@),
            to_load@ == old(self)@.newly_requested(changes@),
    {
        let mut to_load: Vec<(i32, i32)> = Vec::new();
        let mut i: usize = 0;
        while i < changes.len()
            invariant
                i <= changes@.len(),
                self.wf(),
                self@ == old(self)@.requested_all(changes@.take(i as int)),
                to_load@ == old(self)@.newly_requested(changes@.take(i as int)),
            decreases changes@.len() - i,
        {
            let change = changes[i];
            proof {
                assert(changes@.take(i + 1).drop_last() =~= changes@.take(i as int));
                assert(changes@.take(i + 1).last() == change);
            }
            if change.load {
                match self.request_chunk_async(change.x, change.y) {
                    Ok(coord) => {
                        to_load.push(coord);
                    },
                    Err(_) => {},
                }
            }
            i = i + 1;
        }
        assert(changes@.take(changes@.len() as int) =~= changes@);
        to_load
    }

    /// Takes the outcome of a chunk's load.
    ///
    /// The chunk is no longer being loaded. Where the load failed, nothing
    /// else changes and the error comes back. Where it brought features,
    /// each of them is counted once more; one that no loaded chunk held
    /// moves into the world; and the chunk is loaded, with the ids of its
    /// features in the order in which they were taken.
    pub fn finish_chunk_request(&mut self, partial_chunk: PartialChunk) -> (r: Result<
        (),
        LoadError,
    >)
        requires
            old(self).wf(),
            partial_chunk.0 matches Ok(chunk) ==> chunk.wf() && old(self)@.can_merge(
                partial_chunk.1,
                chunk@,
            ),
        ensures
            final(self).wf(),
            partial_chunk.0 matches Err(e) ==> r == Err::<(), _>(e) && final(self)@ == old(
                self,
            )@.failed(partial_chunk.1),
            partial_chunk.0 matches Ok(chunk) ==> r is Ok && old(self)@.merged_into(
                final(self)@,
                partial_chunk.1,
                chunk@,
            ),
    {
        let PartialChunk(partial_world, coord) = partial_chunk;
        let key = key_of(coord);
        self.loading_chunks.remove(&key);
        proof {
            let want = old(self)@.failed(coord);
            assert forall|c: (i32, i32)| self@.loading.contains(c) == want.loading.contains(c) by {
                if coord_key(c) == key {
                    lemma_coord_key_injective(c, coord);
                }
            }
            assert(self@.loading =~= want.loading);
            assert(self@.chunks =~= want.chunks);
            assert(self@ == want);
            lemma_failed_wf(old(self)@, coord);
        }
        match partial_world {
            Err(e) => Err(e),
            Ok(partial_world) => {
                let ghost chunk = partial_world@;
                let ghost before = self@;
                let (mut roads, mut land_uses) = partial_world.into_parts();
                let road_refs = ids_of(&roads);
                let land_use_refs = ids_of(&land_uses);
                let ghost roads0 = roads@;
                let ghost land_uses0 = land_uses@;
                proof {
                    assert(road_refs@.to_set() =~= chunk.roads.dom());
                    assert(land_use_refs@.to_set() =~= chunk.land_uses.dom());
                    assert forall|i: int| 0 <= i < road_refs@.len() implies roads@.contains_key(
                        #[trigger] road_refs@[i],
                    ) && refcount(self.road_refs@, road_refs@[i]) < u16::MAX by {
                        assert(road_refs@.to_set().contains(road_refs@[i]));
                    }
                    assert forall|i: int|
                        0 <= i < land_use_refs@.len() implies land_uses@.contains_key(
                        #[trigger] land_use_refs@[i],
                    ) && refcount(self.land_use_refs@, land_use_refs@[i]) < u16::MAX by {
                        assert(land_use_refs@.to_set().contains(land_use_refs@[i]));
                    }
                }
                inc_refs(&road_refs, &mut self.road_refs, &mut roads, &mut self.loaded_roads);
                inc_refs(
                    &land_use_refs,
                    &mut self.land_use_refs,
                    &mut land_uses,
                    &mut self.loaded_land_uses,
                );
                let ghost road_ids = road_refs@;
                let ghost land_use_ids = land_use_refs@;
                let ghost keys_before = self.loaded_chunks@;
                self.loaded_chunks.insert(key, Chunk { road_refs, land_use_refs });
                proof {
                    let want = before.merged(coord, chunk, road_ids, land_use_ids);
                    let fresh_roads = first_seen(road_ids, before.road_refs.dom());
                    let fresh_land_uses = first_seen(land_use_ids, before.land_use_refs.dom());
                    lemma_first_seen(road_ids, before.road_refs.dom());
                    lemma_first_seen(land_use_ids, before.land_use_refs.dom());
                    assert forall|i: int| 0 <= i < fresh_roads.len() implies roads0.contains_key(
                        #[trigger] fresh_roads[i],
                    ) by {
                        assert(fresh_roads.contains(fresh_roads[i]));
                        assert(road_ids.to_set().contains(fresh_roads[i]));
                    }
                    assert forall|i: int|
                        0 <= i < fresh_land_uses.len() implies land_uses0.contains_key(
                        #[trigger] fresh_land_uses[i],
                    ) by {
                        assert(fresh_land_uses.contains(fresh_land_uses[i]));
                        assert(land_use_ids.to_set().contains(fresh_land_uses[i]));
                    }
                    lemma_picked_roads_view(fresh_roads, roads0);
                    lemma_picked_land_uses_view(fresh_land_uses, land_uses0);
                    assert(self@.roads =~= want.roads);
                    assert(self@.land_uses =~= want.land_uses);
                    assert forall|c: (i32, i32)|
                        self@.chunks.contains_key(c) == want.chunks.contains_key(c) by {
                        if coord_key(c) == key {
                            lemma_coord_key_injective(c, coord);
                        }
                    }
                    assert forall|c: (i32, i32)| self@.chunks.contains_key(c) implies self@.chunks[c]
                        == want.chunks[c] by {
                        if coord_key(c) == key {
                            lemma_coord_key_injective(c, coord);
                        }
                    }
                    assert(self@.chunks =~= want.chunks);
                    assert(self@.loading =~= want.loading);
                    assert(self@ == want);
                    assert(road_ids.to_set() =~= chunk.roads.dom());
                    assert(land_use_ids.to_set() =~= chunk.land_uses.dom());
                    lemma_merged_wf(before, coord, chunk, road_ids, land_use_ids);
                    assert(!keys_before.contains_key(key));
                }
                Ok(())
            },
        }
    }

    /// Takes a result that came over the channel of results.
    ///
    /// A refusal (`ChunkAlreadyLoaded`) says that nothing was done for the
    /// request, so it changes nothing: the chunk stays loaded, or stays
    /// being loaded by the request that came first. Every other result ends
    /// a load and goes to `finish_chunk_request`.
    pub fn apply_completion(&mut self, partial_chunk: PartialChunk) -> (r: Result<(), LoadError>)
        requires
            old(self).wf(),
            partial_chunk.0 matches Ok(chunk) ==> chunk.wf() && old(self)@.can_merge(
                partial_chunk.1,
                chunk@,
            ),
        ensures
            final(self).wf(),
            partial_chunk.0 matches Err(e) ==> r == Err::<(), _>(e),
            partial_chunk.0 matches Err(LoadError::ChunkAlreadyLoaded(_)) ==> final(self)@ == old(
                self,
            )@,
            partial_chunk.0 matches Err(e) ==> e is ChunkAlreadyLoaded || final(self)@ == old(
                self,
            )@.failed(partial_chunk.1),
            partial_chunk.0 matches Ok(chunk) ==> r is Ok && old(self)@.merged_into(
                final(self)@,
                partial_chunk.1,
                chunk@,
            ),
    {
        match partial_chunk.0 {
            Err(LoadError::ChunkAlreadyLoaded(coord)) => Err(LoadError::ChunkAlreadyLoaded(coord)),
            _ => self.finish_chunk_request(partial_chunk),
        }
    }

    /// Takes what the wait for a chunk's result brought: the result, or
    /// nothing where the channel was closed before a result came. Nothing
    /// gives `ChannelClosed` and changes nothing; a result goes to
    /// `finish_chunk_request`, and its error, if it has one, comes back.
    pub fn complete_chunk_sync(&mut self, delivered: Option<PartialChunk>) -> (r: Result<
        (),
        LoadError,
    >)
        requires
            old(self).wf(),
            delivered matches Some(partial_chunk) ==> (partial_chunk.0 matches Ok(chunk)
                ==> chunk.wf() && old(self)@.can_merge(partial_chunk.1, chunk@)),
        ensures
            final(self).wf(),
            delivered is None ==> r == Err::<(), _>(LoadError::ChannelClosed) && final(self)@
                == old(self)@,
            delivered matches Some(partial_chunk) ==> {
                &&& partial_chunk.0 matches Err(e) ==> r == Err::<(), _>(e) && final(self)@
                    == old(self)@.failed(partial_chunk.1)
                &&& partial_chunk.0 matches Ok(chunk) ==> r is Ok && old(self)@.merged_into(
                    final(self)@,
                    partial_chunk.1,
                    chunk@,
                )
            },
    {
        match delivered {
            None => Err(LoadError::ChannelClosed),
            Some(partial_chunk) => self.finish_chunk_request(partial_chunk),
        }
    }
}

} // verus!
