use chunk_world::entity::{
    all_fit, make_relative, Building, LandUse, LandUseType, Point, PointsHolder, Road, RoadType,
};

fn pt(x: i32, y: i32) -> Point {
    Point { x, y }
}

#[test]
fn point_relative_subtracts_the_origin() {
    assert_eq!(pt(10, 20).relative_to(&pt(3, 25)), pt(7, -5));
    assert_eq!(pt(-10, 0).relative_to(&pt(-10, 0)), pt(0, 0));
    assert_eq!(pt(i32::MAX, i32::MIN).relative_to(&pt(0, 0)), pt(i32::MAX, i32::MIN));
}

#[test]
fn point_fits_unless_the_difference_overflows() {
    assert!(pt(10, 20).fits_relative_to(&pt(3, 25)));
    assert!(pt(i32::MAX, 0).fits_relative_to(&pt(0, 0)));
    assert!(pt(-1, 0).fits_relative_to(&pt(i32::MAX, 0)));
    assert!(!pt(i32::MAX, 0).fits_relative_to(&pt(-1, 0)));
    assert!(!pt(0, i32::MIN).fits_relative_to(&pt(0, 1)));
    assert!(!pt(-2, 0).fits_relative_to(&pt(i32::MAX, 0)));
}

#[test]
fn all_fit_asks_every_point() {
    let origin = pt(-1, 0);
    assert!(all_fit(&vec![], &origin));
    assert!(all_fit(&vec![pt(0, 0), pt(5, 5)], &origin));
    assert!(!all_fit(&vec![pt(0, 0), pt(i32::MAX, 5), pt(1, 1)], &origin));
    assert!(!all_fit(&vec![pt(0, 0), pt(1, 1), pt(i32::MAX, 5)], &origin));
}

#[test]
fn pixels_hands_out_the_points_of_each_holder() {
    let mut road = Road {
        id: 1,
        road_type: RoadType::Primary,
        segments: vec![pt(1, 2)],
        name: String::from("High Street"),
    };
    road.pixels().push(pt(3, 4));
    assert_eq!(road.segments, vec![pt(1, 2), pt(3, 4)]);

    let mut land_use =
        LandUse { id: 2, land_use_type: LandUseType::Water, points: vec![pt(5, 6)] };
    land_use.pixels()[0] = pt(7, 8);
    assert_eq!(land_use.points, vec![pt(7, 8)]);

    let mut building = Building { points: vec![] };
    building.pixels().push(pt(9, 9));
    assert_eq!(building.points, vec![pt(9, 9)]);
}

#[test]
fn make_relative_rewrites_points_and_nothing_else() {
    let mut road = Road {
        id: 7,
        road_type: RoadType::Minor,
        segments: vec![pt(100, 200), pt(110, 190), pt(90, 210)],
        name: String::from("Mill Lane"),
    };
    make_relative(&mut road, &pt(100, 200));
    assert_eq!(
        road,
        Road {
            id: 7,
            road_type: RoadType::Minor,
            segments: vec![pt(0, 0), pt(10, -10), pt(-10, 10)],
            name: String::from("Mill Lane"),
        }
    );
    let mut building = Building { points: vec![pt(1, 1)] };
    make_relative(&mut building, &pt(-1, 2));
    assert_eq!(building.points, vec![pt(2, -1)]);
}
