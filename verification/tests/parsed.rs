use chunk_world::entity::{LandUse, LandUseType, Point, Road, RoadType};
use chunk_world::parsed::{ids_of, PartialWorld};

fn pt(x: i32, y: i32) -> Point {
    Point { x, y }
}

fn road(id: i64, points: Vec<Point>) -> Road {
    Road { id, road_type: RoadType::Residential, segments: points, name: format!("road {}", id) }
}

fn land_use(id: i64, points: Vec<Point>) -> LandUse {
    LandUse { id, land_use_type: LandUseType::Green, points }
}

#[test]
fn new_partial_world_is_empty() {
    let pw = PartialWorld::new();
    assert!(pw.roads().is_empty());
    assert!(pw.land_uses().is_empty());
}

#[test]
fn features_stand_under_their_ids() {
    let mut pw = PartialWorld::new();
    pw.insert_road(road(5, vec![pt(1, 1)]));
    pw.insert_road(road(6, vec![pt(2, 2)]));
    pw.insert_road(road(5, vec![pt(3, 3)]));
    pw.insert_land_use(land_use(5, vec![pt(4, 4)]));
    assert_eq!(pw.roads().len(), 2);
    assert_eq!(pw.roads().get(&5), Some(&road(5, vec![pt(3, 3)])));
    assert_eq!(pw.roads().get(&6), Some(&road(6, vec![pt(2, 2)])));
    assert_eq!(pw.land_uses().len(), 1);
    assert_eq!(pw.land_uses().get(&5), Some(&land_use(5, vec![pt(4, 4)])));
}

#[test]
fn keys_come_each_once() {
    let mut pw = PartialWorld::new();
    for id in [9i64, -3, 0, 42] {
        pw.insert_road(road(id, vec![]));
    }
    pw.insert_land_use(land_use(1, vec![]));
    let mut ids = ids_of(pw.roads());
    ids.sort();
    assert_eq!(ids, vec![-3, 0, 9, 42]);
    assert_eq!(ids_of(pw.land_uses()), vec![1]);
}

#[test]
fn make_coords_relative_rewrites_roads_and_land_uses() {
    let mut pw = PartialWorld::new();
    pw.insert_road(road(1, vec![pt(1000, 2000), pt(1010, 1990)]));
    pw.insert_road(road(2, vec![pt(0, 0)]));
    pw.insert_land_use(land_use(3, vec![pt(1000, 2000), pt(999, 2001), pt(1001, 2001)]));
    let origin = pt(1000, 2000);
    assert!(pw.fits_relative_to(&origin));
    pw.make_coords_relative_to(&origin);
    assert_eq!(pw.roads().get(&1), Some(&road(1, vec![pt(0, 0), pt(10, -10)])));
    assert_eq!(pw.roads().get(&2), Some(&road(2, vec![pt(-1000, -2000)])));
    assert_eq!(
        pw.land_uses().get(&3),
        Some(&land_use(3, vec![pt(0, 0), pt(-1, 1), pt(1, 1)]))
    );
    assert_eq!(pw.roads().len(), 2);
    assert_eq!(pw.land_uses().len(), 1);
}

#[test]
fn fits_relative_to_finds_the_point_that_overflows() {
    let origin = pt(-1, -1);
    let mut pw = PartialWorld::new();
    pw.insert_road(road(1, vec![pt(0, 0)]));
    pw.insert_land_use(land_use(2, vec![pt(5, 5)]));
    assert!(pw.fits_relative_to(&origin));
    pw.insert_land_use(land_use(3, vec![pt(5, 5), pt(0, i32::MAX)]));
    assert!(!pw.fits_relative_to(&origin));
    let mut other = PartialWorld::new();
    other.insert_road(road(1, vec![pt(i32::MAX, 0)]));
    assert!(!other.fits_relative_to(&origin));
    assert!(other.fits_relative_to(&pt(0, 0)));
}

#[test]
fn into_parts_hands_out_both_maps() {
    let mut pw = PartialWorld::new();
    pw.insert_road(road(1, vec![pt(0, 0)]));
    pw.insert_land_use(land_use(2, vec![pt(5, 5)]));
    let (roads, land_uses) = pw.into_parts();
    assert_eq!(roads.len(), 1);
    assert_eq!(roads.get(&1), Some(&road(1, vec![pt(0, 0)])));
    assert_eq!(land_uses.get(&2), Some(&land_use(2, vec![pt(5, 5)])));
}
