use tmap_core::astrometrics::Coord;
use tmap_core::dto::SectorIndexEntry;
use tmap_core::universe::{in_milieu, is_meta_metafile, metafile_tag, universe_plan};

fn sector(name: &str, x: i32, y: i32, milieu: Option<&str>) -> SectorIndexEntry {
    SectorIndexEntry {
        name: name.into(),
        abbreviation: None,
        location: Coord::new(x, y),
        names: Vec::new(),
        tags: String::new(),
        data_file: None,
        data_format: None,
        metadata_file: None,
        milieu: milieu.map(|m| m.to_string()),
        metafile_tag: None,
    }
}

#[test]
fn metafile_tags() {
    assert_eq!(metafile_tag(" , OTU, Official").as_deref(), Some("OTU"));
    assert_eq!(metafile_tag(""), None);
    assert_eq!(metafile_tag(" , "), None);
    assert!(is_meta_metafile("OTU, meta"));
    assert!(is_meta_metafile(" meta "));
    assert!(!is_meta_metafile("metadata"));
    assert!(!is_meta_metafile(""));
}

#[test]
fn milieu_membership() {
    assert!(in_milieu(&sector("A", 0, 0, None), "m1105"));
    assert!(!in_milieu(&sector("A", 0, 0, None), "M0"));
    assert!(in_milieu(&sector("A", 0, 0, Some("M0")), "m0"));
    assert!(!in_milieu(&sector("A", 0, 0, Some("M0")), "M1105"));
}

#[test]
fn universe_keeps_first_per_position_and_sorts() {
    let listed = vec![
        sector("Spinward Marches", -4, -1, None),
        sector("Deneb", -3, -1, None),
        sector("Marches Again", -4, -1, None),
        sector("Core", 0, 0, None),
    ];
    let loose = vec![
        sector("Kruse", 0, -9, None),
        sector("DENEB", 5, 5, None),
        sector("Stale Core", 0, 0, None),
        sector("Aardvark", 7, 7, None),
        sector("Kruse Copy", 0, -9, None),
    ];
    let plan = universe_plan(&listed, &loose);
    let names: Vec<&str> = plan
        .iter()
        .map(|&(from_loose, i)| if from_loose { loose[i].name.as_str() } else { listed[i].name.as_str() })
        .collect();
    assert_eq!(names, vec!["Aardvark", "Core", "Deneb", "Kruse", "Spinward Marches"]);
    assert!(universe_plan(&vec![], &vec![]).is_empty());
}
