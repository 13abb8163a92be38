//! The features of the map: roads, land uses and buildings, each an outline
//! of pixels.

use vstd::prelude::*;

verus! {

/// The id of a feature. It is the same in every chunk that holds the feature.
pub type Id = i64;

/// A projected position, in pixels.
#[derive(Debug, Clone, Copy, PartialEq, Eq, Structural)]
pub struct Point {
    pub x: i32,
    pub y: i32,
}

/// The kinds of road.
#[derive(Debug, Clone, Copy, PartialEq, Eq, Structural)]
pub enum RoadType {
    Unknown,
    Motorway,
    Primary,
    Secondary,
    Minor,
    Residential,
    Pedestrian,
}

/// The kinds of land use.
#[derive(Debug, Clone, Copy, PartialEq, Eq, Structural)]
pub enum LandUseType {
    Unknown,
    Residential,
    Commercial,
    Agriculture,
    Industrial,
    Green,
    Water,
}

/// A road: a line through its segments' points.
#[derive(Debug, Clone, PartialEq, Eq)]
pub struct Road {
    pub id: Id,
    pub road_type: RoadType,
    pub segments: Vec<Point>,
    pub name: String,
}

/// An area of one use, bounded by its points.
#[derive(Debug, Clone, PartialEq, Eq)]
pub struct LandUse {
    pub id: Id,
    pub land_use_type: LandUseType,
    pub points: Vec<Point>,
}

/// The outline of a building.
#[derive(Debug, Clone, PartialEq, Eq)]
pub struct Building {
    pub points: Vec<Point>,
}

/// What a road is, apart from where it is stored.
pub struct RoadView {
    pub id: Id,
    pub road_type: RoadType,
    pub segments: Seq<Point>,
    pub name: Seq<char>,
}

/// What a land use is, apart from where it is stored.
pub struct LandUseView {
    pub id: Id,
    pub land_use_type: LandUseType,
    pub points: Seq<Point>,
}

impl View for Road {
    type V = RoadView;

    open spec fn view(&self) -> RoadView {
        RoadView {
            id: self.id,
            road_type: self.road_type,
            segments: self.segments@,
            name: self.name@,
        }
    }
}

impl View for LandUse {
    type V = LandUseView;

    open spec fn view(&self) -> LandUseView {
        LandUseView { id: self.id, land_use_type: self.land_use_type, points: self.points@ }
    }
}

impl View for Building {
    type V = Seq<Point>;

    open spec fn view(&self) -> Seq<Point> {
        self.points@
    }
}

/// Whether `p - origin` can be written as a `Point`.
pub open spec fn point_fits(p: Point, origin: Point) -> bool {
    &&& i32::MIN <= p.x - origin.x <= i32::MAX
    &&& i32::MIN <= p.y - origin.y <= i32::MAX
}

/// `p` as seen from `origin`.
pub open spec fn point_relative(p: Point, origin: Point) -> Point {
    Point { x: (p.x - origin.x) as i32, y: (p.y - origin.y) as i32 }
}

/// Whether every point of `points` can be written relative to `origin`.
pub open spec fn points_fit(points: Seq<Point>, origin: Point) -> bool {
    forall|i: int| 0 <= i < points.len() ==> point_fits(#[trigger] points[i], origin)
}

/// `points`, each as seen from `origin`.
pub open spec fn points_relative(points: Seq<Point>, origin: Point) -> Seq<Point> {
    Seq::new(points.len(), |i: int| point_relative(points[i], origin))
}

impl Point {
    /// Whether `self - origin` can be written as a `Point`.
    pub fn fits_relative_to(&self, origin: &Point) -> (ok: bool)
        ensures
            ok == point_fits(*self, *origin),
    {
        let dx: i64 = self.x as i64 - origin.x as i64;
        let dy: i64 = self.y as i64 - origin.y as i64;
        -2147483648 <= dx && dx <= 2147483647 && -2147483648 <= dy && dy <= 2147483647
    }

    /// This point as seen from `origin`.
    pub fn relative_to(&self, origin: &Point) -> (p: Point)
        requires
            point_fits(*self, *origin),
        ensures
            p == point_relative(*self, *origin),
    {
        Point { x: self.x - origin.x, y: self.y - origin.y }
    }
}

/// Something that is drawn through a list of points.
pub trait PointsHolder: Sized {
    /// The points held.
    spec fn points(&self) -> Seq<Point>;

    /// Whether `self` and `other` are the same but for their points.
    spec fn same_beside_points(&self, other: &Self) -> bool;

    /// The points held, to be changed in place. Nothing else changes.
    fn pixels(&mut self) -> (r: &mut Vec<Point>)
        ensures
            r@ == old(self).points(),
            final(self).points() == final(r)@,
            final(self).same_beside_points(old(self)),
    ;
}

impl PointsHolder for Road {
    open spec fn points(&self) -> Seq<Point> {
        self.segments@
    }

    open spec fn same_beside_points(&self, other: &Self) -> bool {
        self.id == other.id && self.road_type == other.road_type && self.name == other.name
    }

    fn pixels(&mut self) -> (r: &mut Vec<Point>) {
        &mut self.segments
    }
}

impl PointsHolder for LandUse {
    open spec fn points(&self) -> Seq<Point> {
        self.points@
    }

    open spec fn same_beside_points(&self, other: &Self) -> bool {
        self.id == other.id && self.land_use_type == other.land_use_type
    }

    fn pixels(&mut self) -> (r: &mut Vec<Point>) {
        &mut self.points
    }
}

impl PointsHolder for Building {
    open spec fn points(&self) -> Seq<Point> {
        self.points@
    }

    open spec fn same_beside_points(&self, other: &Self) -> bool {
        true
    }

    fn pixels(&mut self) -> (r: &mut Vec<Point>) {
        &mut self.points
    }
}

/// Whether every point of `points` can be written relative to `origin`.
pub fn all_fit(points: &Vec<Point>, origin: &Point) -> (ok: bool)
    ensures
        ok == points_fit(points@, *origin),
{
    let mut i: usize = 0;
    while i < points.len()
        invariant
            i <= points@.len(),
            forall|j: int| 0 <= j < i ==> point_fits(#[trigger] points@[j], *origin),
        decreases points@.len() - i,
    {
        if !points[i].fits_relative_to(origin) {
            return false;
        }
        i = i + 1;
    }
    true
}

/// Rewrites every point of `x` as seen from `origin`.
pub fn make_relative<T: PointsHolder>(x: &mut T, origin: &Point)
    requires
        points_fit(old(x).points(), *origin),
    ensures
        final(x).points() == points_relative(old(x).points(), *origin),
        final(x).same_beside_points(old(x)),
{
    let points = x.pixels();
    let ghost before = points@;
    let mut i: usize = 0;
    while i < points.len()
        invariant
            i <= points@.len(),
            points@.len() == before.len(),
            points_fit(before, *origin),
            forall|j: int| 0 <= j < i ==> points@[j] == point_relative(before[j], *origin),
            forall|j: int| i <= j < before.len() ==> points@[j] == before[j],
        decreases points@.len() - i,
    {
        assert(point_fits(before[i as int], *origin));
        let p = points[i].relative_to(origin);
        points[i] = p;
        i = i + 1;
    }
    assert(points@ =~= points_relative(before, *origin));
}

} // verus!
