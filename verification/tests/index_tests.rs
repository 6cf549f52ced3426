use sled_core::geometry::Vec2i;
use sled_core::index::{GeometryError, SpatialIndex};

type Rgb8 = (u8, u8, u8);

const LINE: &str = "center: (0, 0)\ndensity: 1\n--segments--\n(0, 0) --> (10, 0)";

fn line() -> SpatialIndex<Rgb8> {
    SpatialIndex::new_from_str(LINE, (0, 0, 0)).unwrap()
}

#[test]
fn query_returns_exactly_the_points_within_radius() {
    let ix = line();
    // Points sit at x = 0, 1, ..., 10 units; radius 2 from the origin
    // reaches x = 0, 1, 2, with the boundary point included.
    let mut hits = ix.query_within_distance(Vec2i::new(0, 0), 2000).unwrap();
    hits.sort();
    assert_eq!(hits, vec![0, 1, 2]);
}

#[test]
fn query_boundary_is_inclusive_from_inner_point() {
    let ix = line();
    let mut hits = ix.query_within_distance(Vec2i::new(5000, 0), 1000).unwrap();
    hits.sort();
    assert_eq!(hits, vec![4, 5, 6]);
}

#[test]
fn query_with_negative_radius_is_an_error_not_empty() {
    let ix = line();
    assert_eq!(
        ix.query_within_distance(Vec2i::new(0, 0), -1).unwrap_err(),
        GeometryError::NegativeRadius
    );
}

#[test]
fn query_with_out_of_range_center_is_an_error() {
    let ix = line();
    assert_eq!(
        ix.query_within_distance(Vec2i::new(2_000_000_000, 0), 10).unwrap_err(),
        GeometryError::OutOfRange
    );
}

#[test]
fn direction_ties_resolve_to_lowest_index() {
    // All three points share x = 0, so the direction (1, 0) scores them
    // equally; the lowest index wins.
    let cfg = "center: (0, 0)\ndensity: 1\n--segments--\n(0, 1) --> (0, -1)";
    let mut ix = SpatialIndex::<Rgb8>::new_from_str(cfg, (0, 0, 0)).unwrap();
    let picked = ix.set_at_direction(Vec2i::new(1, 0), (9, 9, 9)).unwrap();
    assert_eq!(picked, 0);
}

#[test]
fn zero_direction_is_rejected() {
    let mut ix = line();
    assert_eq!(
        ix.set_at_direction(Vec2i::new(0, 0), (1, 1, 1)).unwrap_err(),
        GeometryError::ZeroDirection
    );
}

#[test]
fn direction_from_reference_point() {
    let ix = line();
    // Looking in -x from the middle of the strip selects the origin end.
    let picked = ix
        .index_at_direction_from(Vec2i::new(-1, 0), Vec2i::new(5000, 0))
        .unwrap();
    assert_eq!(picked, 0);
}

#[test]
fn set_at_overwrites_one_entry_and_checks_bounds() {
    let mut ix = line();
    ix.set_at(4, (7, 7, 7)).unwrap();
    assert_eq!(ix.color_at(4), (7, 7, 7));
    assert_eq!(ix.color_at(5), (0, 0, 0));
    assert_eq!(ix.set_at(11, (7, 7, 7)).unwrap_err(), GeometryError::OutOfRange);
}

#[test]
fn vertices_of_open_chain_are_its_endpoints() {
    let ix = line();
    for i in 0..11 {
        assert_eq!(ix.is_vertex(i), i == 0 || i == 10);
    }
}

#[test]
fn domain_is_tight_bounding_box() {
    let cfg = "center: (0, 0)\ndensity: 1\n--segments--\n(-2, 1) --> (4, -3)";
    let ix = SpatialIndex::<Rgb8>::new_from_str(cfg, (0, 0, 0)).unwrap();
    let d = ix.domain();
    assert_eq!(d.start, Vec2i::new(-2000, -3000));
    assert_eq!(d.end, Vec2i::new(4000, 1000));
}

#[test]
fn colors_and_positions_has_one_pair_per_point() {
    let mut ix = line();
    let pairs = ix.colors_and_positions();
    assert_eq!(pairs.len(), ix.num_points());
    assert_eq!(pairs[3], (Vec2i::new(3000, 0), (0, 0, 0)));
    ix.set_all((1, 2, 3));
    let pairs = ix.colors_and_positions();
    assert_eq!(pairs.len(), ix.num_points());
    assert_eq!(pairs[3], (Vec2i::new(3000, 0), (1, 2, 3)));
}

#[test]
fn map_by_position_visits_every_point_once() {
    let mut ix = line();
    ix.map_by_position(|p: Vec2i| ((p.x / 1000) as u8, 0, 0));
    for i in 0..11 {
        assert_eq!(ix.color_at(i), (i as u8, 0, 0));
    }
}

#[test]
fn modulate_within_distance_touches_only_points_in_radius() {
    let mut ix = line();
    ix.set_all((10, 10, 10));
    ix.modulate_within_distance(2000, Vec2i::new(0, 0), |_p: Vec2i, d: u64, c: Rgb8| {
        ((c.0 + 1), (d / 1000) as u8, c.2)
    })
    .unwrap();
    for i in 0..11 {
        if i <= 2 {
            assert_eq!(ix.color_at(i), (11, i as u8, 10));
        } else {
            assert_eq!(ix.color_at(i), (10, 10, 10));
        }
    }
}

#[test]
fn modulate_with_negative_radius_is_an_error() {
    let mut ix = line();
    assert_eq!(
        ix.modulate_within_distance(-5, Vec2i::new(0, 0), |_p: Vec2i, _d: u64, c: Rgb8| c)
            .unwrap_err(),
        GeometryError::NegativeRadius
    );
}

#[test]
fn distances_from_center_are_exact() {
    let ix = line();
    assert_eq!(ix.distance_squared_from_center(3), 9_000_000);
    assert_eq!(ix.distance_from_center(3), 3000);
    let cfg = "center: (0, 0)\ndensity: 1\n--segments--\n(3, 4) --> (3, 4)";
    let ix2 = SpatialIndex::<Rgb8>::new_from_str(cfg, (0, 0, 0)).unwrap();
    assert_eq!(ix2.distance_from_center(0), 5000);
}

#[test]
fn center_point_is_the_declared_center() {
    let cfg = "center: (1.5, -2)\ndensity: 1\n--segments--\n(0, 0) --> (1, 0)";
    let ix = SpatialIndex::<Rgb8>::new_from_str(cfg, (0, 0, 0)).unwrap();
    assert_eq!(ix.center_point(), Vec2i::new(1500, -2000));
}

#[test]
fn query_matches_direct_distance_check_on_room_layout() {
    let cfg = "center: (1.75, 0.5)\ndensity: 7\n--segments--\n\
(0, 2.8) --> (0, 3.5) --> (1.54, 3.15) --> (3.64, 3.15) --> \
(4.2, 2.8) --> (4.1, -0.7) --> (-1.4, -0.7) --> (-1.4, 2.1) --> (0, 2.8)";
    let ix = SpatialIndex::<Rgb8>::new_from_str(cfg, (0, 0, 0)).unwrap();
    let centers = [Vec2i::new(0, 0), Vec2i::new(1750, 500), Vec2i::new(-1400, 2100)];
    let radii = [0i64, 900, 2500, 10_000];
    for c in centers {
        for r in radii {
            let mut hits = ix.query_within_distance(c, r).unwrap();
            hits.sort();
            let mut expected = Vec::new();
            for i in 0..ix.num_points() {
                let p = ix.position_at(i);
                let dx = (p.x - c.x) as i128;
                let dy = (p.y - c.y) as i128;
                if dx * dx + dy * dy <= (r as i128) * (r as i128) {
                    expected.push(i);
                }
            }
            assert_eq!(hits, expected);
        }
    }
}
