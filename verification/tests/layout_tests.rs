use sled_core::geometry::Vec2i;
use sled_core::index::SpatialIndex;
use sled_core::layout::{parse_layout, LayoutParseError};

type Rgb8 = (u8, u8, u8);

const LINE: &str = "center: (0, 0)\ndensity: 1\n--segments--\n(0, 0) --> (10, 0)";

#[test]
fn line_layout_yields_eleven_points() {
    let ix = SpatialIndex::<Rgb8>::new_from_str(LINE, (0, 0, 0)).unwrap();
    assert_eq!(ix.num_points(), 11);
    for i in 0..11 {
        let p = ix.position_at(i);
        assert_eq!(p.x, (i as i64) * 1000);
        assert_eq!(p.y, 0);
    }
}

#[test]
fn set_all_makes_every_color_equal() {
    let mut ix = SpatialIndex::<Rgb8>::new_from_str(LINE, (0, 0, 0)).unwrap();
    let white = (255, 255, 255);
    ix.set_all(white);
    for c in ix.colors().iter() {
        assert_eq!(*c, white);
    }
}

#[test]
fn set_at_direction_recolors_only_far_end() {
    let mut ix = SpatialIndex::<Rgb8>::new_from_str(LINE, (0, 0, 0)).unwrap();
    let red = (255, 0, 0);
    let picked = ix.set_at_direction(Vec2i::new(1, 0), red).unwrap();
    assert_eq!(picked, 10);
    assert_eq!(ix.position_at(picked), Vec2i::new(10000, 0));
    for i in 0..11 {
        if i == 10 {
            assert_eq!(ix.color_at(i), red);
        } else {
            assert_eq!(ix.color_at(i), (0, 0, 0));
        }
    }
}

#[test]
fn chained_segments_share_vertices() {
    let cfg = "center: (0, 0)\ndensity: 1\n--segments--\n(0, 0) --> (10, 0) --> (10, 5)";
    let ix = SpatialIndex::<Rgb8>::new_from_str(cfg, (0, 0, 0)).unwrap();
    // 1 head vertex + 10 samples + 5 samples; the shared vertex (10, 0)
    // appears once.
    assert_eq!(ix.num_points(), 16);
    let mut hits = 0;
    for i in 0..16 {
        if ix.position_at(i) == Vec2i::new(10000, 0) {
            hits += 1;
        }
    }
    assert_eq!(hits, 1);
}

#[test]
fn closed_loop_drops_duplicate_head() {
    let cfg =
        "center: (5, 5)\ndensity: 1\n--segments--\n(0, 0) --> (10, 0) --> (10, 10) --> (0, 10) --> (0, 0)";
    let ix = SpatialIndex::<Rgb8>::new_from_str(cfg, (0, 0, 0)).unwrap();
    // Four sides of 10 samples each; the closing vertex coincides with the
    // head and is counted once.
    assert_eq!(ix.num_points(), 40);
    let mut at_origin = 0;
    for i in 0..40 {
        if ix.position_at(i) == Vec2i::new(0, 0) {
            at_origin += 1;
        }
    }
    assert_eq!(at_origin, 1);
}

#[test]
fn zero_length_segment_still_yields_a_point() {
    // A chain that ends on its first vertex closes; the degenerate loop
    // keeps the minimum one sample of its only segment.
    let cfg = "center: (0, 0)\ndensity: 1\n--segments--\n(3, 4) --> (3, 4)";
    let ix = SpatialIndex::<Rgb8>::new_from_str(cfg, (0, 0, 0)).unwrap();
    assert_eq!(ix.num_points(), 1);
    assert_eq!(ix.position_at(0), Vec2i::new(3000, 4000));
    // A zero-length segment inside an open chain also yields its minimum one
    // sample.
    let cfg2 = "center: (0, 0)\ndensity: 1\n--segments--\n(0, 0) --> (5, 0) --> (5, 0)";
    let ix2 = SpatialIndex::<Rgb8>::new_from_str(cfg2, (0, 0, 0)).unwrap();
    assert_eq!(ix2.num_points(), 7);
    assert_eq!(ix2.position_at(5), Vec2i::new(5000, 0));
    assert_eq!(ix2.position_at(6), Vec2i::new(5000, 0));
}

#[test]
fn sample_count_rounds_half_up() {
    // Length 10 at density 0.25: 2.5 rounds to 3 samples, plus the head.
    let cfg = "center: (0, 0)\ndensity: 0.25\n--segments--\n(0, 0) --> (10, 0)";
    let ix = SpatialIndex::<Rgb8>::new_from_str(cfg, (0, 0, 0)).unwrap();
    assert_eq!(ix.num_points(), 4);
}

#[test]
fn fractional_coordinates_parse_exactly() {
    let l = parse_layout("center: (1.75, -0.5)\ndensity: 45\n--segments--\n(0, 2.8) --> (-1.4, 0.125)")
        .unwrap();
    assert_eq!(l.center, Vec2i::new(1750, -500));
    assert_eq!(l.density, 45000);
    assert_eq!(l.vertices[0], Vec2i::new(0, 2800));
    assert_eq!(l.vertices[1], Vec2i::new(-1400, 125));
}

#[test]
fn whitespace_and_line_breaks_are_insignificant() {
    let cfg = "  center:   (0, 0) \n\n density: 1 \n --segments-- \n (0, 0) --> \n (10, 0) ";
    let ix = SpatialIndex::<Rgb8>::new_from_str(cfg, (0, 0, 0)).unwrap();
    assert_eq!(ix.num_points(), 11);
}

#[test]
fn room_style_config_parses() {
    let cfg = "center: (1.75, 0.5) \n\
density: 45 \n\
--segments-- \n\
(0, 2.8) --> (0, 3.5) --> (1.54, 3.15) --> (3.64, 3.15) --> \n\
(4.2, 2.8) --> (4.1, -0.7) --> (-1.4, -0.7) --> (-1.4, 2.1) --> \n\
(0, 2.8) --> (1.54, 2.45) --> (2.85, 1.8) --> (2.85, 1.4)";
    let mut ix = SpatialIndex::<Rgb8>::new_from_str(cfg, (0, 0, 0)).unwrap();
    assert!(ix.num_points() > 100);
    ix.set_at_vertices((255, 25, 255));
    let mut vertex_colored = 0;
    for i in 0..ix.num_points() {
        if ix.is_vertex(i) {
            assert_eq!(ix.color_at(i), (255, 25, 255));
            vertex_colored += 1;
        } else {
            assert_eq!(ix.color_at(i), (0, 0, 0));
        }
    }
    assert!(vertex_colored >= 12);
}

#[test]
fn malformed_inputs_are_rejected() {
    assert_eq!(
        parse_layout("density: 1\n--segments--\n(0, 0) --> (1, 0)").unwrap_err(),
        LayoutParseError::Malformed
    );
    assert_eq!(
        parse_layout("center: (0, 0)\n--segments--\n(0, 0) --> (1, 0)").unwrap_err(),
        LayoutParseError::Malformed
    );
    assert_eq!(
        parse_layout("center: (0, 0)\ndensity: 1\n(0, 0) --> (1, 0)").unwrap_err(),
        LayoutParseError::Malformed
    );
    assert_eq!(
        parse_layout("center: (0, x)\ndensity: 1\n--segments--\n(0, 0) --> (1, 0)").unwrap_err(),
        LayoutParseError::Malformed
    );
    assert_eq!(
        parse_layout("center: (0, 0)\ndensity: 1\n--segments--\n(0, 0) -> (1, 0)").unwrap_err(),
        LayoutParseError::Malformed
    );
}

#[test]
fn bad_density_is_rejected() {
    assert_eq!(
        parse_layout("center: (0, 0)\ndensity: 0\n--segments--\n(0, 0) --> (1, 0)").unwrap_err(),
        LayoutParseError::BadDensity
    );
    assert_eq!(
        parse_layout("center: (0, 0)\ndensity: -2\n--segments--\n(0, 0) --> (1, 0)").unwrap_err(),
        LayoutParseError::BadDensity
    );
}

#[test]
fn empty_segment_list_is_rejected() {
    assert_eq!(
        parse_layout("center: (0, 0)\ndensity: 1\n--segments--\n(0, 0)").unwrap_err(),
        LayoutParseError::EmptySegments
    );
}

#[test]
fn oversized_layouts_are_rejected_atomically() {
    // A million units at the maximum density would sample a billion points,
    // far over the cap; construction fails and no index is produced.
    let cfg = "center: (0, 0)\ndensity: 1000\n--segments--\n(0, 0) --> (1000000, 0)";
    assert_eq!(
        SpatialIndex::<Rgb8>::new_from_str(cfg, (0, 0, 0)).unwrap_err(),
        LayoutParseError::TooManyPoints
    );
}

#[test]
fn out_of_range_coordinate_is_rejected() {
    assert_eq!(
        parse_layout("center: (0, 0)\ndensity: 1\n--segments--\n(0, 0) --> (2000000, 0)")
            .unwrap_err(),
        LayoutParseError::Malformed
    );
}
