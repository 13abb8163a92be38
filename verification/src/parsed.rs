//! What parsing one chunk's map data yields: its roads and land uses, each
//! under its id.

use crate::entity::{
    all_fit, make_relative, points_fit, points_relative, Id, LandUse, LandUseView, Point,
    PointsHolder, Road, RoadView,
};
use std::collections::HashMap;
use vstd::prelude::*;
use vstd::std_specs::iter::IteratorSpec;

verus! {

broadcast use vstd::std_specs::hash::group_hash_axioms;

/// The features of one chunk.
#[derive(Debug, Clone, PartialEq, Eq)]
pub struct PartialWorld {
    pub(crate) roads: HashMap<Id, Road>,
    pub(crate) land_uses: HashMap<Id, LandUse>,
}

/// The features of one chunk, as maps from id to feature.
pub struct PartialWorldView {
    pub roads: Map<Id, RoadView>,
    pub land_uses: Map<Id, LandUseView>,
}

/// A road with its points as seen from `origin`.
pub open spec fn road_relative(road: RoadView, origin: Point) -> RoadView {
    RoadView { segments: points_relative(road.segments, origin), ..road }
}

/// A land use with its points as seen from `origin`.
pub open spec fn land_use_relative(land_use: LandUseView, origin: Point) -> LandUseView {
    LandUseView { points: points_relative(land_use.points, origin), ..land_use }
}

/// The roads of a map, each by its view.
pub open spec fn roads_view(m: Map<Id, Road>) -> Map<Id, RoadView> {
    Map::new(|id: Id| m.contains_key(id), |id: Id| m[id]@)
}

/// The land uses of a map, each by its view.
pub open spec fn land_uses_view(m: Map<Id, LandUse>) -> Map<Id, LandUseView> {
    Map::new(|id: Id| m.contains_key(id), |id: Id| m[id]@)
}

impl PartialWorldView {
    pub open spec fn empty() -> PartialWorldView {
        PartialWorldView { roads: Map::empty(), land_uses: Map::empty() }
    }

    /// Every feature stands under its own id.
    pub open spec fn wf(self) -> bool {
        &&& forall|id: Id| self.roads.contains_key(id) ==> (#[trigger] self.roads[id]).id == id
        &&& forall|id: Id|
            self.land_uses.contains_key(id) ==> (#[trigger] self.land_uses[id]).id == id
    }

    /// Whether every point of every feature can be written relative to
    /// `origin`.
    pub open spec fn fits_relative_to(self, origin: Point) -> bool {
        &&& forall|id: Id|
            self.roads.contains_key(id) ==> points_fit((#[trigger] self.roads[id]).segments, origin)
        &&& forall|id: Id|
            self.land_uses.contains_key(id) ==> points_fit(
                (#[trigger] self.land_uses[id]).points,
                origin,
            )
    }

    /// The same features, with every point as seen from `origin`.
    pub open spec fn relative_to(self, origin: Point) -> PartialWorldView {
        PartialWorldView {
            roads: Map::new(
                |id: Id| self.roads.contains_key(id),
                |id: Id| road_relative(self.roads[id], origin),
            ),
            land_uses: Map::new(
                |id: Id| self.land_uses.contains_key(id),
                |id: Id| land_use_relative(self.land_uses[id], origin),
            ),
        }
    }
}

/// Seen from another origin, every feature still stands under its own id.
pub proof fn lemma_relative_keeps_wf(chunk: PartialWorldView, origin: Point)
    requires
        chunk.wf(),
    ensures
        chunk.relative_to(origin).wf(),
        chunk.relative_to(origin).roads.dom() == chunk.roads.dom(),
        chunk.relative_to(origin).land_uses.dom() == chunk.land_uses.dom(),
{
    assert(chunk.relative_to(origin).roads.dom() =~= chunk.roads.dom());
    assert(chunk.relative_to(origin).land_uses.dom() =~= chunk.land_uses.dom());
}

impl View for PartialWorld {
    type V = PartialWorldView;

    closed spec fn view(&self) -> PartialWorldView {
        PartialWorldView {
            roads: roads_view(self.roads@),
            land_uses: land_uses_view(self.land_uses@),
        }
    }
}

/// The ids of `m`, each once, in the order in which the map hands them out.
pub fn ids_of<T>(m: &HashMap<Id, T>) -> (ids: Vec<Id>)
    ensures
        ids@.no_duplicates(),
        ids@.to_set() == m@.dom(),
{
    let mut ids: Vec<Id> = Vec::new();
    for k in it: m.keys()
        invariant
            it.seq() == vstd::std_specs::hash::spec_keys_iter(m).remaining(),
            ids@ == it.seq().take(it.index()).unref(),
    {
        ids.push(*k);
    }
    assert(ids@ == vstd::std_specs::hash::spec_keys_iter(m).remaining().unref());
    ids
}

/// Rewrites every point of every feature of `m` as seen from `origin`.
/// The features stay under their ids and keep all but their points.
pub fn make_all_relative<T: PointsHolder>(m: &mut HashMap<Id, T>, origin: &Point)
    requires
        forall|id: Id|
            old(m)@.contains_key(id) ==> points_fit((#[trigger] old(m)@[id]).points(), *origin),
    ensures
        final(m)@.dom() == old(m)@.dom(),
        forall|id: Id|
            old(m)@.contains_key(id) ==> (#[trigger] final(m)@[id]).points() == points_relative(
                old(m)@[id].points(),
                *origin,
            ) && final(m)@[id].same_beside_points(&old(m)@[id]),
{
    let ghost before = m@;
    let ids = ids_of(m);
    let mut i: usize = 0;
    while i < ids.len()
        invariant
            i <= ids@.len(),
            ids@.no_duplicates(),
            ids@.to_set() == before.dom(),
            m@.dom() == before.dom(),
            forall|id: Id|
                before.contains_key(id) ==> points_fit((#[trigger] before[id]).points(), *origin),
            forall|j: int|
                0 <= j < i ==> m@[#[trigger] ids@[j]].points() == points_relative(
                    before[ids@[j]].points(),
                    *origin,
                ) && m@[ids@[j]].same_beside_points(&before[ids@[j]]),
            forall|j: int| i <= j < ids@.len() ==> m@[#[trigger] ids@[j]] == before[ids@[j]],
        decreases ids@.len() - i,
    {
        let id = ids[i];
        assert(ids@.to_set().contains(ids@[i as int]));
        let ghost so_far = m@;
        match m.remove(&id) {
            Some(feature) => {
                let mut feature = feature;
                assert(points_fit(before[id].points(), *origin));
                make_relative(&mut feature, origin);
                m.insert(id, feature);
                assert(m@.dom() =~= before.dom());
                assert forall|j: int| 0 <= j < i + 1 implies m@[#[trigger] ids@[j]].points()
                    == points_relative(before[ids@[j]].points(), *origin)
                    && m@[ids@[j]].same_beside_points(&before[ids@[j]]) by {
                    if j < i {
                        assert(ids@[j] != id);
                        assert(m@[ids@[j]] == so_far[ids@[j]]);
                    }
                }
                assert forall|j: int| i + 1 <= j < ids@.len() implies m@[#[trigger] ids@[j]]
                    == before[ids@[j]] by {
                    assert(ids@[j] != id);
                    assert(m@[ids@[j]] == so_far[ids@[j]]);
                }
            },
            None => {},
        }
        i = i + 1;
    }
    assert forall|id: Id| before.contains_key(id) implies (#[trigger] m@[id]).points()
        == points_relative(before[id].points(), *origin) && m@[id].same_beside_points(
        &before[id],
    ) by {
        assert(ids@.to_set().contains(id));
        let j = choose|j: int| 0 <= j < ids@.len() && ids@[j] == id;
        assert(ids@[j] == id);
    }
}

impl PartialWorld {
    /// Well-formedness: every feature stands under its own id.
    pub open spec fn wf(&self) -> bool {
        self@.wf()
    }

    /// A chunk without features.
    pub fn new() -> (pw: PartialWorld)
        ensures
            pw@ == PartialWorldView::empty(),
            pw.wf(),
    {
        let pw = PartialWorld { roads: HashMap::new(), land_uses: HashMap::new() };
        assert(pw@.roads =~= Map::empty());
        assert(pw@.land_uses =~= Map::empty());
        pw
    }

    /// Puts `road` under its id, in place of a road that stood there.
    pub fn insert_road(&mut self, road: Road)
        ensures
            final(self)@ == (PartialWorldView {
                roads: old(self)@.roads.insert(road.id, road@),
                ..old(self)@
            }),
            old(self).wf() ==> final(self).wf(),
    {
        let ghost id = road.id;
        let ghost rv = road@;
        self.roads.insert(road.id, road);
        assert(self@.roads =~= old(self)@.roads.insert(id, rv));
    }

    /// Puts `land_use` under its id, in place of one that stood there.
    pub fn insert_land_use(&mut self, land_use: LandUse)
        ensures
            final(self)@ == (PartialWorldView {
                land_uses: old(self)@.land_uses.insert(land_use.id, land_use@),
                ..old(self)@
            }),
            old(self).wf() ==> final(self).wf(),
    {
        let ghost id = land_use.id;
        let ghost lv = land_use@;
        self.land_uses.insert(land_use.id, land_use);
        assert(self@.land_uses =~= old(self)@.land_uses.insert(id, lv));
    }

    /// The roads, by id.
    pub fn roads(&self) -> (m: &HashMap<Id, Road>)
        ensures
            roads_view(m@) == self@.roads,
    {
        &self.roads
    }

    /// The land uses, by id.
    pub fn land_uses(&self) -> (m: &HashMap<Id, LandUse>)
        ensures
            land_uses_view(m@) == self@.land_uses,
    {
        &self.land_uses
    }

    /// Hands out the two maps.
    pub fn into_parts(self) -> (parts: (HashMap<Id, Road>, HashMap<Id, LandUse>))
        ensures
            roads_view(parts.0@) == self@.roads,
            land_uses_view(parts.1@) == self@.land_uses,
    {
        (self.roads, self.land_uses)
    }

    /// Whether every point of every feature can be written relative to
    /// `origin`.
    pub fn fits_relative_to(&self, origin: &Point) -> (ok: bool)
        ensures
            ok == self@.fits_relative_to(*origin),
    {
        let road_ids = ids_of(&self.roads);
        let mut i: usize = 0;
        while i < road_ids.len()
            invariant
                i <= road_ids@.len(),
                road_ids@.to_set() == self.roads@.dom(),
                forall|j: int|
                    0 <= j < i ==> points_fit(
                        self.roads@[#[trigger] road_ids@[j]].segments@,
                        *origin,
                    ),
            decreases road_ids@.len() - i,
        {
            let id = road_ids[i];
            assert(road_ids@.to_set().contains(road_ids@[i as int]));
            match self.roads.get(&id) {
                Some(road) => {
                    if !all_fit(&road.segments, origin) {
                        assert(self@.roads.contains_key(id));
                        assert(!points_fit(self@.roads[id].segments, *origin));
                        return false;
                    }
                },
                None => {},
            }
            i = i + 1;
        }
        let land_use_ids = ids_of(&self.land_uses);
        let mut k: usize = 0;
        while k < land_use_ids.len()
            invariant
                k <= land_use_ids@.len(),
                land_use_ids@.to_set() == self.land_uses@.dom(),
                forall|j: int|
                    0 <= j < k ==> points_fit(
                        self.land_uses@[#[trigger] land_use_ids@[j]].points@,
                        *origin,
                    ),
            decreases land_use_ids@.len() - k,
        {
            let id = land_use_ids[k];
            assert(land_use_ids@.to_set().contains(land_use_ids@[k as int]));
            match self.land_uses.get(&id) {
                Some(land_use) => {
                    if !all_fit(&land_use.points, origin) {
                        assert(self@.land_uses.contains_key(id));
                        assert(!points_fit(self@.land_uses[id].points, *origin));
                        return false;
                    }
                },
                None => {},
            }
            k = k + 1;
        }
        proof {
            assert forall|id: Id| self@.roads.contains_key(id) implies points_fit(
                (#[trigger] self@.roads[id]).segments,
                *origin,
            ) by {
                assert(road_ids@.to_set().contains(id));
                let j = choose|j: int| 0 <= j < road_ids@.len() && road_ids@[j] == id;
                assert(road_ids@[j] == id);
            }
            assert forall|id: Id| self@.land_uses.contains_key(id) implies points_fit(
                (#[trigger] self@.land_uses[id]).points,
                *origin,
            ) by {
                assert(land_use_ids@.to_set().contains(id));
                let j = choose|j: int| 0 <= j < land_use_ids@.len() && land_use_ids@[j] == id;
                assert(land_use_ids@[j] == id);
            }
        }
        true
    }

    /// Rewrites every point of every feature as seen from `origin`.
    pub fn make_coords_relative_to(&mut self, origin: &Point)
        requires
            old(self)@.fits_relative_to(*origin),
        ensures
            final(self)@ == old(self)@.relative_to(*origin),
            old(self).wf() ==> final(self).wf(),
    {
        proof {
            assert forall|id: Id| self.roads@.contains_key(id) implies points_fit(
                (#[trigger] self.roads@[id]).points(),
                *origin,
            ) by {
                assert(points_fit(self@.roads[id].segments, *origin));
            }
            assert forall|id: Id| self.land_uses@.contains_key(id) implies points_fit(
                (#[trigger] self.land_uses@[id]).points(),
                *origin,
            ) by {
                assert(points_fit(self@.land_uses[id].points, *origin));
            }
        }
        make_all_relative(&mut self.roads, origin);
        make_all_relative(&mut self.land_uses, origin);
        proof {
            let want = old(self)@.relative_to(*origin);
            assert(self@.roads =~= want.roads);
            assert(self@.land_uses =~= want.land_uses);
        }
    }
}

} // verus!
