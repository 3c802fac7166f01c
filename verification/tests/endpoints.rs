use tmap_core::astrometrics::Coord;
use tmap_core::dto::{SectorIndexEntry, SectorName, World};
use tmap_core::endpoints::{
    credits_at, locate_sector, merge_metadata, metadata_allegiances, parse_types, universe_sectors, LookupError,
};
use tmap_core::dto::DataFileMeta;
use tmap_core::world_util::AllegianceCode;
use tmap_core::metadata::{parse_sector_metadata, MetaSubsector, Product, SectorMetadata};
use tmap_core::searchlang::SearchTypes;

fn entry(name: &str, abbr: Option<&str>, x: i32, y: i32) -> SectorIndexEntry {
    SectorIndexEntry {
        name: name.into(),
        abbreviation: abbr.map(|a| a.to_string()),
        location: Coord::new(x, y),
        names: Vec::new(),
        tags: String::new(),
        data_file: None,
        data_format: None,
        metadata_file: None,
        milieu: None,
        metafile_tag: None,
    }
}

#[test]
fn sectors_are_found_by_position_or_name() {
    let v = vec![entry("Spinward Marches", Some("Spin"), -4, -1), entry("Deneb", None, -3, -1)];
    assert_eq!(locate_sector(&v, Some(-3), Some(-1), Some("Spin")), Ok(1));
    assert_eq!(locate_sector(&v, Some(9), Some(9), None), Err(LookupError::NotFound));
    assert_eq!(locate_sector(&v, Some(-3), None, Some("spin")), Ok(0));
    assert_eq!(locate_sector(&v, None, None, Some("DENEB")), Ok(1));
    assert_eq!(locate_sector(&v, None, None, Some("Nowhere")), Err(LookupError::NotFound));
    assert_eq!(locate_sector(&v, None, None, None), Err(LookupError::NoSector));
    assert_eq!(LookupError::NoSector.message(), "No sector specified.");
    assert_eq!(LookupError::NotFound.message(), "The specified sector was not found.");
}

#[test]
fn types_parameter() {
    let all = SearchTypes::all_kinds();
    assert_eq!(parse_types(None), all);
    assert_eq!(parse_types(Some("  ")), all);
    let t = parse_types(Some("worlds,labels"));
    assert!(t.worlds && t.labels && !t.sectors && !t.subsectors);
    assert_eq!(parse_types(Some("bogus")), SearchTypes::no_kinds());
    assert_eq!(parse_types(Some("sectors default")), all);
    let t = parse_types(Some("\tsubsectors,,sectors"));
    assert!(t.subsectors && t.sectors && !t.worlds && !t.labels);
}

#[test]
fn universe_listing_filters_and_tags() {
    let mut a = entry("Core", Some("Core"), 0, 0);
    a.tags = "Official".into();
    a.metafile_tag = Some("OTU".into());
    a.data_file = Some("core.tab".into());
    let mut b = entry("Faraway", None, 5, 5);
    b.tags = "Faraway".into();
    b.names = vec![SectorName { text: "Far Away".into(), lang: Some("en".into()), source: None }];
    let v = vec![a, b];
    let all = universe_sectors(&v, "M1105", Some("Faraway"), false, &vec![]);
    assert_eq!(all.len(), 2);
    assert_eq!(all[0].tags, "Official OTU");
    assert_eq!(all[0].names.len(), 1);
    assert_eq!(all[0].names[0].text, "Core");
    assert_eq!(all[1].tags, "Faraway");
    assert_eq!(all[1].names[0].lang.as_deref(), Some("en"));
    assert_eq!(all[1].milieu, "M1105");
    assert_eq!(universe_sectors(&v, "M1105", None, true, &vec![]).len(), 1);
    let otu = universe_sectors(&v, "M1105", None, false, &vec!["OTU".to_string()]);
    assert_eq!(otu.len(), 1);
    assert_eq!(otu[0].x, 0);
}

#[test]
fn credits_for_a_hex() {
    let mut m: SectorMetadata = parse_sector_metadata("<Sector Tags='OTU'><Name>Spin</Name><Credits>By me</Credits></Sector>");
    m.x = -4;
    m.y = -1;
    m.products.push(Product { author: None, title: Some("Book".into()), publisher: None, reference: None });
    m.subsectors.push(MetaSubsector { name: "Regina".into(), index: "C".into(), index_number: 2 });
    let worlds = vec![World { hex: "1910".into(), name: "Regina".into(), uwp: "A788899-C".into(), ..Default::default() }];
    let r = credits_at(&m, &worlds, "M1105", "1910");
    assert_eq!((r.sector_x, r.sector_y), (-4, -1));
    assert_eq!(r.sector_name.as_deref(), Some("Spin"));
    assert_eq!(r.credits.as_deref(), Some("By me"));
    assert_eq!(r.sector_tags.as_deref(), Some("OTU"));
    assert_eq!(r.sector_milieu.as_deref(), Some("M1105"));
    assert_eq!(r.product_title.as_deref(), Some("Book"));
    assert_eq!(r.subsector_name.as_deref(), Some("Regina"));
    assert_eq!(r.subsector_index.as_deref(), Some("C"));
    assert_eq!(r.world_name.as_deref(), Some("Regina"));
    assert_eq!(r.world_remarks, None);
    let none = credits_at(&SectorMetadata::default(), &vec![], "M0", "0101");
    assert_eq!(none.sector_name, None);
    assert_eq!(none.sector_tags, None);
    assert_eq!(none.subsector_name, None);
    assert_eq!(none.world_hex, None);
}

fn alleg_table() -> Vec<AllegianceCode> {
    vec![
        AllegianceCode { code: "ImDd".into(), legacy: "Im".into(), base: "Im".into(), name: "Domain of Deneb".into() },
        AllegianceCode { code: "Zhin".into(), legacy: "Zh".into(), base: "".into(), name: "Zhodani Consulate".into() },
    ]
}

#[test]
fn allegiances_of_worlds_and_borders() {
    let own = parse_sector_metadata(
        "<Sector><Borders><Border Allegiance='Zhin'>0101</Border><Border Allegiance='Loc'>0202</Border></Borders>\
         <Allegiance Code='Loc'>Old Name</Allegiance><Allegiance Code='Loc' Base='Zh'>Local State</Allegiance></Sector>",
    );
    let worlds = vec![
        World { allegiance: "ImDd".into(), ..Default::default() },
        World { allegiance: "Na".into(), ..Default::default() },
        World { allegiance: "ImDd".into(), ..Default::default() },
    ];
    let a = metadata_allegiances(&worlds, &own.borders, &own.regions, &own.local_allegiances, &alleg_table());
    let got: Vec<(&str, &str, Option<&str>)> =
        a.iter().map(|x| (x.code.as_str(), x.name.as_str(), x.base.as_deref())).collect();
    assert_eq!(
        got,
        vec![
            ("ImDd", "Domain of Deneb", Some("Im")),
            ("Loc", "Local State", Some("Zh")),
            ("Zhin", "Zhodani Consulate", None),
        ]
    );
}

#[test]
fn metadata_assembly_prefers_own_and_fills_from_inline() {
    let own = parse_sector_metadata("<Sector Label='Own'><Name>Own Name</Name><Routes><Route Start='0101' End='0102'/></Routes></Sector>");
    let inline = parse_sector_metadata(
        "<Sector Selected='true'><Subsectors><Subsector Index='A'>Alpha</Subsector></Subsectors>\
         <Routes><Route Start='0909' End='0910'/></Routes><Stylesheet>x</Stylesheet></Sector>",
    );
    let mut e = entry("Spin", Some("Spin"), -4, -1);
    e.tags = "Official".into();
    let df = DataFileMeta { author: Some("Me".into()), ..Default::default() };
    let m = merge_metadata(own, inline, &e, "M1105", Some("OTU"), &df, &vec![], &alleg_table());
    assert_eq!(m.subsectors.len(), 1);
    assert_eq!(m.routes.len(), 1);
    assert_eq!(m.routes[0].start, "0101");
    assert_eq!(m.stylesheet.as_deref(), Some("x"));
    assert!(m.selected);
    assert_eq!(m.label.as_deref(), Some("Own"));
    assert_eq!((m.x, m.y), (-4, -1));
    assert_eq!(m.names[0].text, "Own Name");
    assert_eq!(m.tags, "Official OTU");
    assert_eq!(m.abbreviation.as_deref(), Some("Spin"));
    assert_eq!(m.data_file.author.as_deref(), Some("Me"));
    assert_eq!(m.data_file.milieu.as_deref(), Some("M1105"));
    assert!(m.allegiances.is_empty());
    let bare = merge_metadata(SectorMetadata::default(), SectorMetadata::default(), &entry("X", None, 0, 0), "M0", None,
        &DataFileMeta::default(), &vec![], &vec![]);
    assert_eq!(bare.tags, "");
    assert_eq!(bare.names.len(), 0);
}
