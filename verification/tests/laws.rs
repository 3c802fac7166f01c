use tmap_core::dto::World;
use tmap_core::sector_writer::{write_second_survey, write_tab, WriteOptions};
use tmap_core::astrometrics::Coord;
use tmap_core::like::soundex;
use tmap_core::parse::{border_region, parse_tab};
use tmap_core::route::{find_route, path_parsecs, RouteOptions, RouteWorld};

fn w(x: i32, y: i32) -> RouteWorld {
    RouteWorld { coord: Coord::new(x, y), red: false, anomaly: false, imperial: true, refuel: true }
}

#[test]
fn reversed_route_covers_the_same_parsecs() {
    let worlds = vec![w(1, 1), w(2, 3), w(4, 4), w(4, 7)];
    let fwd = vec![0, 1, 2, 3];
    let back = vec![3, 2, 1, 0];
    assert_eq!(path_parsecs(&worlds, &fwd), path_parsecs(&worlds, &back));
}

#[test]
fn fewest_jumps_win_over_fewer_parsecs() {
    // Two jumps of 2 parsecs beat three jumps of 1 parsec... and a direct
    // jump beats both.
    let worlds = vec![w(1, 1), w(1, 2), w(1, 3), w(1, 5)];
    let p = find_route(&worlds, 0, 3, 2, RouteOptions::default()).expect("route");
    assert_eq!(p, vec![0, 2, 3]);
    let p4 = find_route(&worlds, 0, 3, 4, RouteOptions::default()).expect("route");
    assert_eq!(p4, vec![0, 3]);
}

#[test]
fn soundex_codes_have_letter_and_three_digits() {
    assert_eq!(soundex("Robert"), "R163");
    assert_eq!(soundex("rupert"), "R163");
    assert_eq!(soundex("Lee"), "L000");
    assert_eq!(soundex("1234"), "0000");
    for s in ["Regina", "Vland", "x", "Zhodane"] {
        let c = soundex(s);
        assert_eq!(c.len(), 4);
        assert!(c.as_bytes()[0].is_ascii_uppercase());
    }
}

#[test]
fn border_region_stays_in_sector() {
    let hexes: Vec<String> = vec!["0101".into(), "0102".into()];
    let r = border_region(&hexes, 1, -1);
    assert_eq!(r, vec![(33, -39), (33, -38)]);
}

#[test]
fn comment_only_tab_file_is_refused() {
    assert!(parse_tab("# only a comment\n\n   \n#another\n").is_err());
    let ok = parse_tab("Hex\tName\tUWP\n0101\tA\tA000000-0\nbad row\n0102\tB\t\n").expect("header");
    assert_eq!(ok.worlds.len() + ok.warnings.len(), 3);
}

fn sample_worlds() -> Vec<World> {
    vec![
        World { hex: "1910".into(), name: "Regina".into(), uwp: "A788899-C".into(), remarks: "Ri Pa Ph An Cp".into(), ..Default::default() },
        World { hex: "0101".into(), name: "Zeycude".into(), uwp: "C430698-9".into(), zone: "A".into(), ..Default::default() },
    ]
}

#[test]
fn tab_table_has_a_line_per_world_and_seventeen_fields() {
    let opts = WriteOptions { include_header: true, sscoords: false };
    let out = write_tab(&sample_worlds(), "Spin", &opts);
    assert_eq!(out.matches('\n').count(), 3);
    for line in out.split("\r\n").filter(|l| !l.is_empty()) {
        assert_eq!(line.split('\t').count(), 17);
    }
    assert!(out.lines().nth(1).unwrap().starts_with("Spin\tA\t0101\tZeycude"));
}

#[test]
fn second_survey_lines_line_up() {
    let opts = WriteOptions { include_header: true, sscoords: false };
    let out = write_second_survey(&sample_worlds(), &opts);
    let lines: Vec<&str> = out.split("\r\n").filter(|l| !l.is_empty()).collect();
    assert_eq!(lines.len(), 4);
    assert!(lines.iter().all(|l| l.len() == lines[0].len()));
}

#[test]
fn border_region_works_near_the_coordinate_limit() {
    let hexes: Vec<String> = vec!["0101".into(), "0102".into()];
    let sx = 60_000_000;
    let sy = -50_000_000;
    let r = border_region(&hexes, sx, sy);
    assert_eq!(r, vec![(sx * 32 + 1, sy * 40 + 1), (sx * 32 + 1, sy * 40 + 2)]);
}
