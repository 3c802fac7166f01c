use tmap_core::astrometrics::{
    coordinates_to_location, location_to_coordinates, parse_hex, quadrant_index, reference_hex_distance,
    subsector_hex, subsector_index, subsector_letter, Coord,
};

#[test]
fn reference_hex_distance_matches_csharp() {
    let regina = Coord::new(-110, -70);
    let forboldn = Coord::new(-111, -72);
    assert_eq!(reference_hex_distance(regina, forboldn), 2);
    assert_eq!(reference_hex_distance(forboldn, regina), 2);
    assert_eq!(reference_hex_distance(regina, regina), 0);
    assert_eq!(reference_hex_distance(regina, Coord::new(-110, -68)), 2);
}

#[test]
fn parses_hex_labels() {
    assert_eq!(parse_hex("1910"), Some((19, 10)));
    assert_eq!(parse_hex("0101"), Some((1, 1)));
    assert_eq!(parse_hex("3240"), Some((32, 40)));
    assert_eq!(parse_hex("19x0"), None);
    assert_eq!(parse_hex("191"), None);
}

#[test]
fn distance_to_self_is_zero() {
    let a = Coord::new(5, 5);
    assert_eq!(a.hex_distance(a), 0);
}

#[test]
fn adjacent_hexes_are_one_apart() {
    assert_eq!(Coord::new(1, 1).hex_distance(Coord::new(2, 1)), 1);
}

#[test]
fn coordinates_match_reference() {
    assert_eq!(location_to_coordinates(-4, -1, 19, 10), (-110, -70));
    assert_eq!(coordinates_to_location(-110, -70), (-4, -1, 19, 10));
    assert_eq!(location_to_coordinates(0, 0, 1, 40), (0, 0));
    assert_eq!(coordinates_to_location(0, 0), (0, 0, 1, 40));
}

#[test]
fn column_crossing_distance_is_correct() {
    assert_eq!(Coord::new(21, 16).hex_distance(Coord::new(20, 18)), 3);
    assert_eq!(Coord::new(20, 18).hex_distance(Coord::new(21, 16)), 3);
    assert_eq!(Coord::new(20, 18).hex_distance(Coord::new(20, 20)), 2);
    for n in [(20, 16), (20, 15), (21, 15), (22, 15), (22, 16), (21, 17)] {
        assert_eq!(Coord::new(21, 16).hex_distance(Coord::new(n.0, n.1)), 1, "{n:?}");
    }
}

#[test]
fn location_round_trips_through_coordinates() {
    for (sx, sy, hx, hy) in [(-4, -1, 19, 10), (0, 0, 1, 1), (3, -2, 32, 40), (-1, 5, 8, 21)] {
        let (x, y) = location_to_coordinates(sx, sy, hx, hy);
        assert_eq!(coordinates_to_location(x, y), (sx, sy, hx, hy));
    }
}

#[test]
fn hex_distance_is_symmetric_and_meets_triangle_inequality() {
    let a = Coord::new(3, 7);
    let b = Coord::new(-5, 2);
    let c = Coord::new(10, -4);
    assert_eq!(a.hex_distance(b), b.hex_distance(a));
    assert!(a.hex_distance(c) <= a.hex_distance(b) + b.hex_distance(c));
}

#[test]
fn subsector_helpers() {
    assert_eq!(subsector_index("0101"), 0);
    assert_eq!(subsector_index("0908"), 1);
    assert_eq!(subsector_index("3240"), 15);
    assert_eq!(subsector_letter("1910"), 'C');
    assert_eq!(quadrant_index("1910"), 1);
    assert_eq!(quadrant_index("0101"), 0);
    assert_eq!(subsector_hex("0911"), "0101");
    assert_eq!(subsector_hex("1910"), "0310");
}

#[test]
fn subsector_of_out_of_range_hex_is_zero() {
    assert_eq!(subsector_index("9999"), 0);
    assert_eq!(subsector_index("3340"), 0);
    assert_eq!(subsector_index("0141"), 0);
    assert_eq!(subsector_index("0000"), 0);
    assert_eq!(subsector_index("bad"), 0);
    assert_eq!(subsector_index("3231"), 15);
    assert_eq!(subsector_letter("9999"), 'A');
}
