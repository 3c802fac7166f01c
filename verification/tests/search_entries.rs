use tmap_core::astrometrics::Coord;
use tmap_core::borders::sector_borders;
use tmap_core::dto::{SearchItem, SectorIndexEntry, Subsector, World};
use tmap_core::metadata::parse_sector_metadata;
use tmap_core::search_entries::{run_query, search_entries, SectorSource};
use tmap_core::searchlang::{parse_query, SearchTypes};
use tmap_core::world_util::AllegianceCode;

fn entry(name: &str, x: i32, y: i32, tags: &str) -> SectorIndexEntry {
    SectorIndexEntry {
        name: name.into(),
        abbreviation: None,
        location: Coord::new(x, y),
        names: Vec::new(),
        tags: tags.into(),
        data_file: None,
        data_format: None,
        metadata_file: None,
        milieu: None,
        metafile_tag: None,
    }
}

fn world(hex: &str, name: &str, imp: Option<&str>) -> World {
    World {
        hex: hex.into(),
        name: name.into(),
        uwp: "A788899-C".into(),
        zone: String::new(),
        importance: imp.map(|s| s.to_string()),
        ..Default::default()
    }
}

const META: &str = r#"<?xml version="1.0"?>
<Sector>
  <Labels><Label Hex="2020"> Outrim   Void </Label></Labels>
</Sector>"#;

#[test]
fn search_entries_cover_searchable_sectors() {
    let sources = vec![
        SectorSource {
            entry: entry("Spinward Marches", 0, 0, "Official OTU"),
            subsectors: vec![Subsector { index: "C".into(), name: "Regina".into() }],
            meta: Some(parse_sector_metadata(META)),
            worlds: vec![world("1910", "Regina", Some("{ 4 }")), world("0101", "", None), world("zz", "Bad", None)],
        },
        SectorSource {
            entry: entry("Elsewhere", 1, 0, "Apocryphal"),
            subsectors: Vec::new(),
            meta: None,
            worlds: vec![world("0101", "Hidden", None)],
        },
    ];
    let table: Vec<AllegianceCode> = Vec::new();
    let r = search_entries(&sources, &table);
    assert_eq!(r.len(), 4);
    assert_eq!(r[0].kind, 0);
    assert!(matches!(&r[0].item, SearchItem::Sector(s) if s.name == "Spinward Marches" && s.sector_tags == "Official OTU"));
    assert_eq!(r[0].name_lower, "spinward marches");
    assert_eq!(r[1].kind, 1);
    assert!(matches!(&r[1].item, SearchItem::Subsector(s) if s.index == "C" && s.name == "Regina" && s.sector == "Spinward Marches"));
    assert_eq!(r[2].kind, 2);
    assert_eq!(r[2].importance, Some(4));
    assert_eq!(r[2].fields.sector_name, "spinward marches");
    assert_eq!(r[2].fields.zone, "g");
    assert!(matches!(&r[2].item, SearchItem::World(w) if w.hex_x == 19 && w.hex_y == 10 && w.name == "Regina"));
    assert_eq!(r[3].kind, 3);
    match &r[3].item {
        SearchItem::Label(l) => {
            assert_eq!(l.name, "Outrim Void");
            assert_eq!((l.sector_x, l.sector_y, l.hex_x, l.hex_y), (0, 0, 20, 20));
            assert_eq!(l.scale, 64);
            assert_eq!(l.sector_tags, "Official OTU");
        }
        other => panic!("expected a label, got {other:?}"),
    }
}

#[test]
fn sector_borders_need_allegiance_and_hexes() {
    let xml = r#"<Sector><Borders>
        <Border Allegiance=" ImDd " Color="red" Label="Domain">0101 0102 x12 12345</Border>
        <Border>0202</Border>
        <Border Allegiance="CsZh">no hexes</Border>
    </Borders></Sector>"#;
    let bs = sector_borders(xml);
    assert_eq!(bs.len(), 1);
    assert_eq!(bs[0].allegiance, "ImDd");
    assert_eq!(bs[0].hexes, vec!["0101".to_string(), "0102".to_string()]);
    assert_eq!(bs[0].color.as_deref(), Some("red"));
    assert_eq!(bs[0].label.as_deref(), Some("Domain"));
    assert_eq!(bs[0].label_position, None);
    assert!(bs[0].region.is_empty());
    assert!(sector_borders("<not xml").is_empty());
}

fn marches() -> Vec<SectorSource> {
    vec![SectorSource {
        entry: entry("Spinward Marches", 0, 0, "Official OTU"),
        subsectors: vec![Subsector { index: "C".into(), name: "Regina".into() }],
        meta: None,
        worlds: vec![
            world("1910", "Regina", Some("{ 4 }")),
            world("0202", "Retinae", Some("{ 5 }")),
            world("0303", "Bad", None),
        ],
    }]
}

fn names(items: &[SearchItem]) -> Vec<String> {
    items
        .iter()
        .map(|i| match i {
            SearchItem::World(w) => format!("w:{}", w.name),
            SearchItem::Sector(s) => format!("s:{}", s.name),
            SearchItem::Subsector(s) => format!("ss:{}", s.name),
            SearchItem::Label(l) => format!("l:{}", l.name),
        })
        .collect()
}

#[test]
fn run_query_ranks_by_importance_then_kind() {
    let table: Vec<AllegianceCode> = Vec::new();
    let entries = search_entries(&marches(), &table);
    let pq = parse_query("re%", SearchTypes::all_kinds());
    let all = run_query(&entries, &pq, 10);
    assert_eq!(names(&all), vec!["w:Retinae", "w:Regina", "ss:Regina"]);
    let two = run_query(&entries, &pq, 2);
    assert_eq!(names(&two), vec!["w:Retinae", "w:Regina"]);
}

#[test]
fn run_query_empty_and_shortcut() {
    let table: Vec<AllegianceCode> = Vec::new();
    let entries = search_entries(&marches(), &table);
    assert!(run_query(&entries, &parse_query("   ", SearchTypes::all_kinds()), 10).is_empty());
    let pq = parse_query("spinward 1910", SearchTypes::all_kinds());
    assert_eq!(names(&run_query(&entries, &pq, 10)), vec!["w:Regina"]);
    let pq = parse_query("rimward 1910", SearchTypes::all_kinds());
    assert!(run_query(&entries, &pq, 10).is_empty());
    let pq = parse_query("regina sector", SearchTypes::all_kinds());
    assert!(run_query(&entries, &pq, 10).is_empty());
}

#[test]
fn search_entries_place_labels_far_out() {
    let sources = vec![SectorSource {
        entry: entry("Far Reach", 60_000_000, -50_000_000, "OTU"),
        subsectors: Vec::new(),
        meta: Some(parse_sector_metadata(META)),
        worlds: Vec::new(),
    }];
    let table: Vec<AllegianceCode> = Vec::new();
    let r = search_entries(&sources, &table);
    assert_eq!(r.len(), 2);
    match &r[1].item {
        SearchItem::Label(l) => {
            assert_eq!(l.name, "Outrim Void");
            assert_eq!((l.sector_x, l.sector_y, l.hex_x, l.hex_y), (60_000_000, -50_000_000, 20, 20));
            assert_eq!(l.scale, 64);
            assert_eq!(l.sector_tags, "OTU");
        }
        other => panic!("expected a label, got {other:?}"),
    }
}
