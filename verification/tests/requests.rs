use tmap_core::astrometrics::Coord;
use tmap_core::dto::{SectorIndexEntry, Subsector, World};
use tmap_core::requests::{
    is_safe_asset_path, is_safe_segment, segment_verdict, jump_center, parse_data_file, jump_sector_span, media_type, not_modified, parse_world_text, sec_format, select_worlds,
    switch_on, JumpError, JumpWorldsQuery, SecError, SecFormat,
};

fn world(hex: &str, name: &str) -> World {
    World { hex: hex.to_string(), name: name.to_string(), ..Default::default() }
}

fn names(ws: &[World]) -> Vec<String> {
    ws.iter().map(|w| w.name.clone()).collect()
}

fn sector_worlds() -> Vec<World> {
    vec![
        world("0101", "Alpha One"),
        world("1910", "Regina"),
        world("1710", "Efate"),
        world("3240", "Far Corner"),
        world("0940", "Gamma Edge"),
        world("2511", "Beta Side"),
    ]
}

#[test]
fn sec_type_defaults_to_second_survey() {
    assert_eq!(sec_format(&None), Ok(SecFormat::SecondSurvey));
    assert_eq!(sec_format(&Some("SecondSurvey".into())), Ok(SecFormat::SecondSurvey));
    assert_eq!(sec_format(&Some("TabDelimited".into())), Ok(SecFormat::TabDelimited));
    assert_eq!(sec_format(&Some("SEC".into())), Ok(SecFormat::Legacy));
    let bad = sec_format(&Some("sec".into())).unwrap_err();
    assert_eq!(bad, SecError::UnsupportedType("sec".into()));
    assert_eq!(bad.status(), 400);
    assert_eq!(bad.message(), "type 'sec' not supported; use type=SEC, type=TabDelimited or type=SecondSurvey");
}

#[test]
fn sec_selects_subsector_worlds() {
    let subs = vec![Subsector { index: "C".into(), name: "Regina".into() }];
    let ws = sector_worlds();
    // Subsector C holds columns 17-24, rows 1-10.
    let c = select_worlds(&ws, &Some("c".into()), &None, &subs).unwrap();
    assert_eq!(names(&c), vec!["Regina", "Efate"]);
    let by_name = select_worlds(&ws, &Some("REGINA".into()), &Some("alpha".into()), &subs).unwrap();
    assert_eq!(names(&by_name), vec!["Regina", "Efate"]);
    let a = select_worlds(&ws, &Some("A".into()), &None, &subs).unwrap();
    assert_eq!(names(&a), vec!["Alpha One"]);
    let missing = select_worlds(&ws, &Some("Nowhere".into()), &None, &subs).unwrap_err();
    assert_eq!(missing.status(), 404);
    assert_eq!(missing.message(), "subsector 'Nowhere' not found");
}

#[test]
fn sec_selects_quadrant_worlds() {
    let ws = sector_worlds();
    let alpha = select_worlds(&ws, &None, &Some("Alpha".into()), &vec![]).unwrap();
    assert_eq!(names(&alpha), vec!["Alpha One"]);
    let beta = select_worlds(&ws, &None, &Some("beta".into()), &vec![]).unwrap();
    assert_eq!(names(&beta), vec!["Regina", "Efate", "Beta Side"]);
    // A world's quadrant index is `(col-1)/16 + (row-1)/20 * 4`, so the
    // lower half of the sector has indices 4 and 5, which no name selects.
    let gamma = select_worlds(&ws, &None, &Some("GAMMA".into()), &vec![]).unwrap();
    assert!(gamma.is_empty());
    let delta = select_worlds(&ws, &None, &Some("delta".into()), &vec![]).unwrap();
    assert!(delta.is_empty());
    let bad = select_worlds(&ws, &None, &Some("epsilon".into()), &vec![]).unwrap_err();
    assert_eq!(bad, SecError::QuadrantInvalid("epsilon".into()));
    assert_eq!(bad.status(), 400);
    assert_eq!(bad.message(), "quadrant 'epsilon' is invalid");
    let all = select_worlds(&ws, &None, &None, &vec![]).unwrap();
    assert_eq!(names(&all), names(&ws));
}

fn sector(name: &str, abbr: Option<&str>, x: i32, y: i32) -> SectorIndexEntry {
    SectorIndexEntry {
        name: name.into(),
        abbreviation: abbr.map(|a| a.to_string()),
        location: Coord::new(x, y),
        names: Vec::new(),
        tags: String::new(),
        data_file: None,
        data_format: None,
        metadata_file: None,
        milieu: None,
        metafile_tag: None,
    }
}

#[test]
fn jump_center_of_regina() {
    let sectors = vec![sector("Deneb", None, -3, -1), sector("Spinward Marches", Some("Spin"), -4, -1)];
    let q = JumpWorldsQuery { sector: Some("spin".into()), hex: Some("1910".into()), ..JumpWorldsQuery::default() };
    let (i, c) = jump_center(&sectors, &q).unwrap();
    assert_eq!(i, 1);
    assert_eq!((c.x, c.y), (-110, -70));
    let by_grid = JumpWorldsQuery { sx: Some(-3), sy: Some(-1), hex: Some("0101".into()), ..JumpWorldsQuery::default() };
    assert_eq!(jump_center(&sectors, &by_grid).unwrap().0, 0);
    assert_eq!(JumpWorldsQuery::default().jump, 6);
}

#[test]
fn jump_center_errors() {
    let sectors = vec![sector("Deneb", None, -3, -1)];
    let none = jump_center(&sectors, &JumpWorldsQuery::default()).unwrap_err();
    assert_eq!(none, JumpError::NoSector);
    assert_eq!((none.status(), none.message()), (400, "No sector specified.".to_string()));
    let missing = jump_center(&sectors, &JumpWorldsQuery { sector: Some("Nowhere".into()), ..JumpWorldsQuery::default() })
        .unwrap_err();
    assert_eq!((missing.status(), missing.message()), (404, "The specified sector was not found.".to_string()));
    let no_hex = jump_center(&sectors, &JumpWorldsQuery { sector: Some("deneb".into()), ..JumpWorldsQuery::default() })
        .unwrap_err();
    assert_eq!((no_hex.status(), no_hex.message()), (400, "No hex specified.".to_string()));
    let bad = jump_center(
        &sectors,
        &JumpWorldsQuery { sector: Some("Deneb".into()), hex: Some("19x0".into()), ..JumpWorldsQuery::default() },
    )
    .unwrap_err();
    assert_eq!(bad, JumpError::InvalidHex("19x0".into()));
    assert_eq!(bad.message(), "Invalid hex: 19x0");
}

#[test]
fn jump_span_covers_neighbouring_sectors() {
    // Regina at (-110, -70), jump 6: the box spans x -117..-103, y -77..-63,
    // all inside the Spinward Marches (-4, -1).
    assert_eq!(jump_sector_span(Coord::new(-110, -70), 6), (-4, -1, -4, -1));
    // Near a corner the box reaches into the next sectors.
    assert_eq!(jump_sector_span(Coord::new(-97, -41), 2), (-4, -1, -3, 0));
    // The jump is clamped into 0..=12.
    assert_eq!(jump_sector_span(Coord::new(0, 0), 99), jump_sector_span(Coord::new(0, 0), 12));
    assert_eq!(jump_sector_span(Coord::new(0, 0), -5), jump_sector_span(Coord::new(0, 0), 0));
}

#[test]
fn asset_paths_stay_inside() {
    assert!(is_safe_asset_path("legend/marker.svg"));
    assert!(!is_safe_asset_path("../secret"));
    assert!(!is_safe_asset_path("a/./b"));
    assert!(!is_safe_asset_path("a//b"));
    assert!(!is_safe_asset_path("/etc/passwd"));
    assert!(!is_safe_asset_path("a\\b"));
    assert!(!is_safe_asset_path(""));
    assert_eq!(media_type(Some("svg")), "image/svg+xml");
    assert_eq!(media_type(Some("jpeg")), "image/jpeg");
    assert_eq!(media_type(Some("JPG")), "application/octet-stream");
    assert_eq!(media_type(None), "application/octet-stream");
}

#[test]
fn switches_and_freshness() {
    assert!(switch_on(Some(" Yes ")));
    assert!(switch_on(Some("1")));
    assert!(!switch_on(Some("0")));
    assert!(!switch_on(None));
    assert!(not_modified(Some("\"abc\""), "\"abc\""));
    assert!(!not_modified(Some("abc"), "\"abc\""));
    assert!(!not_modified(None, "\"abc\""));
}

#[test]
fn posted_world_text_in_any_format() {
    let tab = "Sector\tSS\tHex\tName\tUWP\tBases\tRemarks\tZone\tPBG\tAllegiance\tStars\n\
               Spin\tA\t0101\tZeycude\tC430698-9\t\tDe Na Ni Po\t\t613\tZhCo\tK9 V\n";
    let ws = parse_world_text(tab).unwrap();
    assert_eq!(ws.len(), 1);
    assert_eq!(ws[0].name, "Zeycude");
    // Nothing sniffs as legacy SEC, which always reads (here: no worlds).
    assert!(parse_world_text("").unwrap().is_empty());
}

#[test]
fn data_files_read_in_declared_or_sniffed_format() {
    let tab = "Sector\tSS\tHex\tName\tUWP\tBases\tRemarks\tZone\tPBG\tAllegiance\tStars\n\
               Spin\tA\t0101\tZeycude\tC430698-9\t\tDe Na Ni Po\t\t613\tZhCo\tK9 V\n";
    assert_eq!(parse_data_file(tab, None).worlds.len(), 1);
    assert_eq!(parse_data_file(tab, Some("TabDelimited")).worlds[0].name, "Zeycude");
    // A lone header read as Second Survey columns has no separator row: nothing.
    let none = parse_data_file("Hex  Name", Some("SecondSurvey"));
    assert!(none.worlds.is_empty() && none.warnings.is_empty());
    assert!(parse_data_file("", Some("TabDelimited")).worlds.is_empty());
}

#[test]
fn safe_segments() {
    assert!(is_safe_segment("M1105"));
    assert!(is_safe_segment("Spinward Marches"));
    assert!(!is_safe_segment(""));
    assert!(!is_safe_segment(".."));
    assert!(!is_safe_segment("a/b"));
    assert!(!is_safe_segment("a\\b"));
    assert!(segment_verdict("M1105", 1));
    assert!(!segment_verdict("M1105", 2));
    assert!(!segment_verdict("M1105", 0));
    assert!(!segment_verdict("..", 1));
    assert!(!segment_verdict("a/b", 1));
}
