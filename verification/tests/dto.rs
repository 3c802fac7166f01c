use tmap_core::dto::{SectorName, UniverseResult, UniverseSector};

#[test]
fn universe_xml_matches_reference_shape() {
    let r = UniverseResult {
        sectors: vec![UniverseSector {
            x: -4,
            y: -1,
            milieu: "M1105".into(),
            abbreviation: Some("Spin".into()),
            tags: "Official OTU".into(),
            names: vec![
                SectorName { text: "Spinward Marches".into(), lang: None, source: None },
                SectorName { text: "Tloql".into(), lang: Some("zh".into()), source: None },
            ],
        }],
    };
    assert_eq!(
        r.to_xml(),
        "<?xml version=\"1.0\"?>\n<Universe><Sector Abbreviation=\"Spin\" Tags=\"Official OTU\"><X>-4</X><Y>-1</Y><Milieu>M1105</Milieu><Name>Spinward Marches</Name><Name Lang=\"zh\">Tloql</Name></Sector></Universe>"
    );
}

#[test]
fn universe_xml_drops_empty_abbreviation_and_tags() {
    let r = UniverseResult {
        sectors: vec![UniverseSector {
            x: 0,
            y: 0,
            milieu: "M1105".into(),
            abbreviation: Some(String::new()),
            tags: String::new(),
            names: vec![SectorName { text: "Core".into(), lang: None, source: None }],
        }],
    };
    assert_eq!(
        r.to_xml(),
        "<?xml version=\"1.0\"?>\n<Universe><Sector><X>0</X><Y>0</Y><Milieu>M1105</Milieu><Name>Core</Name></Sector></Universe>"
    );
}
