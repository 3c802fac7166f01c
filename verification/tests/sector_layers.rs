use tmap_core::astrometrics::Coord;
use tmap_core::dto::World;
use tmap_core::metadata::parse_sector_metadata;
use tmap_core::dto::SectorIndexEntry;
use tmap_core::parse::WorldLabelDef;
use tmap_core::sector_layers::{project_overview, sector_layers, world_markers};
use tmap_core::styles::{parse_border_styles_css, sector_border_styles};
use tmap_core::world_util::AllegianceCode;

fn pairs(v: &[(&str, &str)]) -> Vec<(String, String)> {
    v.iter().map(|(a, b)| (a.to_string(), b.to_string())).collect()
}

#[test]
fn stylesheet_border_colours() {
    let css = "border.SwCf { color: blue; } border.ImDd, border.ImLc { font: x; COLOR : #f00 } \
               junk border.Zh{color:red} border.SwCf{color:green} border.As { size: 2 }";
    assert_eq!(
        parse_border_styles_css(css),
        pairs(&[("SwCf", "green"), ("ImDd", "#f00"), ("ImLc", "#f00")])
    );
    assert!(parse_border_styles_css("").is_empty());
    assert!(parse_border_styles_css("border.X color: red").is_empty());
}

#[test]
fn document_stylesheet_colours() {
    let xml = "<Sector><Stylesheet>border.ImDd { color: red; }</Stylesheet><Stylesheet>border.Zh { color: blue }</Stylesheet></Sector>";
    assert_eq!(sector_border_styles(xml), pairs(&[("ImDd", "red")]));
    assert!(sector_border_styles("<Sector/>").is_empty());
    assert!(sector_border_styles("<Sector>").is_empty());
}

const FILE: &str = r##"<Sector Tags="Official">
  <Credits>Someone</Credits>
  <Subsectors><Subsector Index="A">Cronor</Subsector></Subsectors>
  <Allegiances><Allegiance Code="ImDd">Domain of Deneb</Allegiance></Allegiances>
  <Stylesheet>border.ImDd { color: red; }</Stylesheet>
  <Borders>
    <Border Allegiance="ImDd" LabelPosition="0202">0101 0103 0302</Border>
  </Borders>
  <Regions><Region Label="Void" ShowLabel="false" LabelPosition="0505">0505 0506</Region></Regions>
  <Borders>
    <Border Allegiance="Zh" Color="#00f" LabelPosition="0909">0909</Border>
  </Borders>
  <Routes><Route Start="0101" End="0202" /></Routes>
  <Labels><Label Hex="1010">Outrim Void</Label></Labels>
</Sector>"##;

const INLINE: &str = r#"<Sector Tags="Preserve">
  <Credits>Else</Credits>
  <Subsectors><Subsector Index="B">Other</Subsector></Subsectors>
  <Allegiances><Allegiance Code="ImDd">Ignored</Allegiance><Allegiance Code="CsZh">Client</Allegiance></Allegiances>
  <Stylesheet>border.ImDd { color: blue; } border.CsZh { color: gold; }</Stylesheet>
  <Borders>
    <Border Allegiance="ImDd">0101 0103 0302</Border>
    <Border Allegiance="CsZh" LabelPosition="1212">1212</Border>
  </Borders>
  <Routes><Route Start="0101" End="0202" /><Route Start="0101" End="0303" /></Routes>
  <Labels><Label Hex="1010">Outrim Void</Label><Label Hex="1111">Great Rift</Label></Labels>
</Sector>"#;

fn table() -> Vec<AllegianceCode> {
    vec![AllegianceCode { code: "Zh".into(), legacy: "Zh".into(), base: "Zh".into(), name: "Zhodani Consulate".into() }]
}

#[test]
fn layers_merge_file_then_region_list() {
    let meta = parse_sector_metadata(FILE);
    let inline = parse_sector_metadata(INLINE);
    let l = sector_layers(&meta, &inline, None, &table());
    assert_eq!(l.tags, "Official");
    assert_eq!(l.credits.as_deref(), Some("Someone"));
    assert_eq!(l.subsectors.len(), 1);
    assert_eq!(l.subsectors[0].name, "Cronor");
    // Routes: the file's, then the region list's new one.
    let ends: Vec<&str> = l.routes.iter().map(|r| r.end.as_str()).collect();
    assert_eq!(ends, vec!["0202", "0303"]);
    // Labels: the duplicate "Outrim Void" at 1010 is dropped.
    let texts: Vec<&str> = l.labels.iter().map(|x| x.text.as_str()).collect();
    assert_eq!(texts, vec!["Outrim Void", "Great Rift"]);
    // Borders in document order (border, region, border), then the new inline one.
    let alleg: Vec<&str> = l.borders.iter().map(|b| b.allegiance.as_str()).collect();
    assert_eq!(alleg, vec!["ImDd", "", "Zh", "CsZh"]);
    // Colours: the file's stylesheet wins; an explicit colour wins over both.
    assert_eq!(l.borders[0].color.as_deref(), Some("red"));
    assert_eq!(l.borders[1].color, None);
    assert_eq!(l.borders[2].color.as_deref(), Some("#00f"));
    assert_eq!(l.borders[3].color.as_deref(), Some("gold"));
    // Labels: the sector's own name, the table's name, or the region list's.
    assert_eq!(l.borders[0].label.as_deref(), Some("Domain of Deneb"));
    assert_eq!(l.borders[1].label, None);
    assert_eq!(l.borders[1].label_position, None);
    assert_eq!(l.borders[2].label.as_deref(), Some("Zhodani Consulate"));
    assert_eq!(l.borders[3].label.as_deref(), Some("Client"));
    // No position: no region.
    assert!(l.borders.iter().all(|b| b.region.is_empty()));
}

#[test]
fn layers_fall_back_to_region_list() {
    let meta = parse_sector_metadata("<Sector/>");
    let inline = parse_sector_metadata(INLINE);
    let l = sector_layers(&meta, &inline, Some(Coord::new(0, 0)), &table());
    assert_eq!(l.tags, "Preserve");
    assert_eq!(l.credits.as_deref(), Some("Else"));
    assert_eq!(l.subsectors[0].name, "Other");
    assert_eq!(l.borders.len(), 2);
    assert_eq!(l.borders[0].color.as_deref(), Some("blue"));
    // Without a label position the allegiance name is not used.
    assert_eq!(l.borders[0].label, None);
    // A known position fills the region, boundary hexes included.
    assert!(l.borders[0].region.contains(&(1, 1)));
    assert!(l.borders[1].region.contains(&(12, 12)));
}

#[test]
fn overview_world_drops_detail() {
    let w = World {
        hex: "1910".into(),
        name: "Regina".into(),
        stellar: "F7 V".into(),
        importance: Some("{ 4 }".into()),
        worlds: Some(9),
        resource_units: Some(3),
        ..Default::default()
    };
    let o = project_overview(&w);
    assert_eq!((o.hex.as_str(), o.name.as_str(), o.stellar.as_str()), ("1910", "Regina", ""));
    assert_eq!((o.importance, o.worlds, o.resource_units), (None, None, None));
}

fn sector(name: &str, x: i32, y: i32) -> SectorIndexEntry {
    SectorIndexEntry {
        name: name.into(),
        abbreviation: None,
        location: Coord::new(x, y),
        names: Vec::new(),
        tags: String::new(),
        data_file: None,
        data_format: None,
        metadata_file: None,
        milieu: None,
        metafile_tag: None,
    }
}

fn def(name: &str, sector: &str, hex: &str) -> WorldLabelDef {
    WorldLabelDef { name: name.into(), sector: sector.into(), hex: hex.into(), bias_x: 1, bias_y: -1 }
}

#[test]
fn capital_markers_at_absolute_hexes() {
    let sectors = vec![sector("Spinward Marches", -4, -1), sector("Core", 0, 0), sector("Core", 1, 0)];
    let defs = vec![
        def("Regina", "Spinward Marches", "1910"),
        def("Capital", "Core", "2118"),
        def("Lost", "Nowhere", "0101"),
        def("Bad", "Core", "21x8"),
    ];
    let m = world_markers(&defs, &sectors);
    assert_eq!(m.len(), 2);
    assert_eq!((m[0].name.as_str(), m[0].coord.x, m[0].coord.y, m[0].bias), ("Regina", -128 + 19, -40 + 10, (1, -1)));
    // The later sector of a name wins.
    assert_eq!((m[1].coord.x, m[1].coord.y), (32 + 21, 18));
}
