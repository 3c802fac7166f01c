use tmap_core::astrometrics::Coord;
use tmap_core::route::{find_route, path_parsecs, RouteOptions, RouteWorld};

fn w(x: i32, y: i32) -> RouteWorld {
    RouteWorld { coord: Coord::new(x, y), red: false, anomaly: false, imperial: true, refuel: true }
}

#[test]
fn straight_chain_jump1() {
    let worlds = vec![w(1, 1), w(1, 2), w(1, 3), w(1, 4)];
    let path = find_route(&worlds, 0, 3, 1, RouteOptions::default()).expect("route exists");
    assert_eq!(path, vec![0, 1, 2, 3]);
    assert_eq!(path_parsecs(&worlds, &path), 3);
}

#[test]
fn jump2_skips_worlds() {
    let worlds = vec![w(1, 1), w(1, 2), w(1, 3), w(1, 4), w(1, 5)];
    let path = find_route(&worlds, 0, 4, 2, RouteOptions::default()).expect("route exists");
    assert_eq!(path.len(), 3);
    assert_eq!(path.first(), Some(&0));
    assert_eq!(path.last(), Some(&4));
    assert_eq!(path.len() - 1, 2, "should take exactly 2 jumps");
}

#[test]
fn no_route_across_gap() {
    let worlds = vec![w(1, 1), w(1, 2), w(1, 7), w(1, 8)];
    assert!(find_route(&worlds, 0, 3, 2, RouteOptions::default()).is_none());
}

#[test]
fn ties_break_on_distance() {
    let worlds = vec![w(1, 1), w(1, 3), w(3, 2), w(1, 5)];
    let path = find_route(&worlds, 0, 3, 2, RouteOptions::default()).expect("route");
    assert_eq!(path.len() - 1, 2, "2 jumps");
    assert_eq!(path[1], 1, "should route via the closer intermediate");
}

#[test]
fn avoid_red_reroutes() {
    let mut worlds = vec![w(1, 1), w(1, 3), w(1, 5)];
    worlds[1].red = true;
    assert!(find_route(&worlds, 0, 2, 2, RouteOptions::default()).is_some());
    let opts = RouteOptions { avoid_red: true, ..Default::default() };
    assert!(find_route(&worlds, 0, 2, 2, opts).is_none());
    let mut worlds2 = vec![w(1, 1), w(1, 2)];
    worlds2[1].red = true;
    assert!(find_route(&worlds2, 0, 1, 1, opts).is_some());
}

#[test]
fn start_equals_end() {
    let worlds = vec![w(1, 1)];
    let path = find_route(&worlds, 0, 0, 2, RouteOptions::default()).unwrap();
    assert_eq!(path, vec![0]);
    assert_eq!(path_parsecs(&worlds, &path), 0);
}

#[test]
fn bad_inputs_give_no_route() {
    let worlds = vec![w(1, 1), w(1, 2)];
    assert!(find_route(&worlds, 0, 5, 2, RouteOptions::default()).is_none());
    assert!(find_route(&worlds, 0, 1, 0, RouteOptions::default()).is_none());
}

#[test]
fn every_leg_is_within_jump_range() {
    let worlds = vec![w(1, 1), w(2, 3), w(4, 4), w(5, 6), w(7, 7), w(2, 2)];
    let path = find_route(&worlds, 0, 4, 2, RouteOptions::default()).expect("route");
    for leg in path.windows(2) {
        assert!(worlds[leg[0]].coord.hex_distance(worlds[leg[1]].coord) <= 2);
    }
}
