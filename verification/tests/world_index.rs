use tmap_core::dto::{Subsector, World};
use tmap_core::route::RouteOptions;
use tmap_core::world_index::{
    allegiance_names, index_world, plan_route, resolve_location, IndexedWorld, RoutePlanError, WorldIndex,
};

fn world(hex: &str, name: &str, uwp: &str, pbg: &str, zone: &str, alleg: &str) -> World {
    World {
        hex: hex.into(),
        name: name.into(),
        uwp: uwp.into(),
        pbg: pbg.into(),
        zone: zone.into(),
        allegiance: alleg.into(),
        ..Default::default()
    }
}

fn names() -> Vec<(String, String)> {
    allegiance_names(
        "Code\tLegacy\tBaseCode\tName\tLocation\n\
         ImDd\tIm\tIm\tThird Imperium, Domain of Deneb\tSpinward Marches\n\
         \tXx\t\tNo Code\t\n\
         Zh\tZh\t\t\t\n\
         ImDd\tIm\tIm\tDomain of Deneb\t\n",
    )
}

fn subsectors() -> Vec<Subsector> {
    vec![
        Subsector { index: "C".into(), name: "Regina".into() },
        Subsector { index: "D".into(), name: String::new() },
    ]
}

/// The Spinward Marches worlds around Regina (sector at grid (-4, -1)).
fn marches() -> WorldIndex {
    let ws = vec![
        world("1910", "Regina", "A788899-C", "703", "", "ImDd"),
        world("2110", "Yori", "C560757-A", "710", "", "ImDd"),
        world("2010", "Roup", "C9C4733-9", "302", "A", "ImDd"),
        world("3124", "Mora", "AA99AC7-F", "403", "", "ImDd"),
        world("1910", "Regina Duplicate", "X000000-0", "000", "", "ImDd"),
    ];
    let ns = names();
    let subs = subsectors();
    let indexed: Vec<IndexedWorld> =
        ws.iter().filter_map(|w| index_world(-4, -1, "Spinward Marches", w, &subs, &ns)).collect();
    WorldIndex::from_worlds(&indexed)
}

#[test]
fn route_regina_to_yori() {
    let index = marches();
    let start = resolve_location(&index, "Spinward Marches 1910").expect("Regina (1910) resolves");
    let end = resolve_location(&index, "Spinward Marches 2110").expect("Yori (2110) resolves");
    let result = index.find_route(start, end, 2, RouteOptions::default()).expect("a jump-2 route from Regina to Yori exists");
    assert_eq!(result.waypoints.first().unwrap().name, "Regina");
    assert_eq!(result.waypoints.last().unwrap().name, "Yori");
    assert_eq!(result.jumps, result.waypoints.len() - 1);
    assert!(result.jumps >= 1 && result.jumps <= 2, "got {} jumps", result.jumps);
    assert!(result.parsecs >= 1);
}

#[test]
fn route_no_path_is_clean() {
    let index = marches();
    let start = resolve_location(&index, "Spinward Marches 1910").unwrap();
    if let Some(end) = resolve_location(&index, "Spinward Marches 3124") {
        let r = index.find_route(start, end, 1, RouteOptions::default());
        if let Some(res) = r {
            assert_eq!(res.waypoints.first().unwrap().name, "Regina");
        }
    }
}

#[test]
fn index_keeps_first_world_per_hex() {
    let index = marches();
    assert_eq!(index.len(), 4);
    assert_eq!(resolve_location(&index, "regina"), Some(0));
    assert_eq!(resolve_location(&index, "Regina Duplicate"), None);
    assert_eq!(resolve_location(&index, "  spinward marches   2010 "), Some(2));
    assert_eq!(resolve_location(&index, "Mora"), Some(3));
    assert_eq!(resolve_location(&index, "Deneb 1910"), None);
    assert_eq!(resolve_location(&index, "   "), None);
}

#[test]
fn indexed_world_fields() {
    let ns = names();
    let subs = subsectors();
    let regina = index_world(-4, -1, "Spinward Marches", &world("1910", "Regina", "A788899-C", "703", "", "ImDd"), &subs, &ns)
        .unwrap();
    assert_eq!(regina.node.coord.x, -4 * 32 + 19);
    assert_eq!(regina.node.coord.y, -40 + 10);
    assert_eq!(regina.subsector, "Regina");
    // The later table line for a code wins.
    assert_eq!(regina.allegiance, "Domain of Deneb");
    assert!(!regina.node.red && !regina.node.anomaly && regina.node.imperial && regina.node.refuel);
    let roup = index_world(-4, -1, "Spinward Marches", &world("2010", "Roup", "C9C4733-9", "302", "A", "Zh"), &subs, &ns)
        .unwrap();
    assert_eq!(roup.subsector, "Regina");
    // "Zh" has no name in the table.
    assert_eq!(roup.allegiance, "Zh");
    assert!(!roup.node.imperial);
    // Subsector D is unnamed.
    let d = index_world(-4, -1, "Spinward Marches", &world("2510", "Far", "X000000-0", "000", "", "Zh"), &subs, &ns).unwrap();
    assert_eq!(d.subsector, "");
    let red = index_world(0, 0, "Core", &world("0101", "Hot", "?000000-0", "000", "R", "ImDd"), &subs, &ns).unwrap();
    assert!(red.node.red && red.node.anomaly && !red.node.refuel);
    assert!(index_world(0, 0, "Core", &world("01x1", "Bad", "", "", "", ""), &subs, &ns).is_none());
}

#[test]
fn allegiance_table_pairs() {
    let ns = names();
    assert_eq!(
        ns,
        vec![
            ("ImDd".to_string(), "Third Imperium, Domain of Deneb".to_string()),
            ("ImDd".to_string(), "Domain of Deneb".to_string()),
        ]
    );
    assert!(allegiance_names("").is_empty());
}

#[test]
fn plan_route_answers() {
    let index = marches();
    let ok = plan_route(&index, "Regina", "Spinward Marches 2110", 2, RouteOptions::default()).unwrap();
    assert_eq!(ok.waypoints.last().unwrap().name, "Yori");
    // A jump of 0 counts as 1; Roup lies between Regina and Yori.
    let one = plan_route(&index, "Regina", "Yori", 0, RouteOptions::default()).unwrap();
    let stops: Vec<&str> = one.waypoints.iter().map(|w| w.name.as_str()).collect();
    assert_eq!(stops, vec!["Regina", "Roup", "Yori"]);
    assert_eq!(one.jumps, 2);
    assert_eq!(one.parsecs, 2);
    let err = plan_route(&index, "Nowhere", "Yori", 2, RouteOptions::default()).unwrap_err();
    assert_eq!(err, RoutePlanError::StartNotFound("Nowhere".into()));
    assert_eq!(err.message(), "start not found: Nowhere");
    let err = plan_route(&index, "Regina", "Elsewhere", 2, RouteOptions::default()).unwrap_err();
    assert_eq!(err.message(), "end not found: Elsewhere");
    let none = plan_route(&index, "Regina", "Mora", 1, RouteOptions::default()).unwrap_err();
    assert_eq!(none, RoutePlanError::NoRoute);
    assert_eq!(none.message(), "no route found");
}

#[test]
fn public_stops_recover_sector_and_hex() {
    let index = marches();
    let route = plan_route(&index, "Regina", "Yori", 2, RouteOptions::default()).unwrap();
    let stops = route.to_public_stops();
    assert_eq!((stops[0].sector_x, stops[0].sector_y, stops[0].hex_x, stops[0].hex_y), (-4, -1, 19, 10));
    let last = stops.last().unwrap();
    assert_eq!((last.sector_x, last.sector_y, last.hex_x, last.hex_y), (-4, -1, 21, 10));
    assert_eq!(last.sector, "Spinward Marches");
}
