use tmap_core::dto::SectorName;
use tmap_core::metadata::{label_position, parse_sector_metadata, MetaRoute, MetaSubsector, SectorMetadata};

const DOC: &str = r#"<?xml version="1.0"?>
<Sector Tags=" Official OTU " Abbreviation="Spin" Selected="true">
  <Name>Spinward Marches</Name>
  <Name Lang="zh" Source="  ">Tloql</Name>
  <Credits>
    <b>Spin</b> by <i>Someone</i>
  </Credits>
  <Product Title="Behind the Claw" Ref=" CT-ST " />
  <Subsectors>
    <Subsector Index="a">Cronor</Subsector>
    <Subsector Index="B"> </Subsector>
  </Subsectors>
  <Allegiances><Allegiance Code="ImDd" Base="Im">Domain of Deneb</Allegiance><Allegiance>None</Allegiance></Allegiances>
  <Stylesheet>border.ImDd { color: red; }</Stylesheet>
  <Borders>
    <Border Allegiance="ImDd" ShowLabel="false" LabelOffsetX=" 0.5 ">0101 0103 junk 12 0302</Border>
  </Borders>
  <Regions><Region Label="Void">0505 0506</Region></Regions>
  <Routes><Route Start="0101" End="0202" StartOffsetX="-1" Type="Trade" /></Routes>
  <Labels><Label Hex="1010" Wrap="True"> Outrim Void </Label></Labels>
</Sector>"#;

#[test]
fn metadata_reads_every_part() {
    let m = parse_sector_metadata(DOC);
    assert!(m.selected);
    assert_eq!(m.tags, "Official OTU");
    assert_eq!(m.abbreviation.as_deref(), Some("Spin"));
    assert_eq!(m.names.len(), 2);
    assert_eq!(m.names[1].lang.as_deref(), Some("zh"));
    assert_eq!(m.names[1].source, None);
    assert_eq!(m.credits_text.as_deref(), Some("Spin by Someone"));
    assert_eq!(m.products.len(), 1);
    assert_eq!(m.products[0].reference.as_deref(), Some("CT-ST"));
    assert_eq!(m.subsectors.len(), 1);
    assert_eq!((m.subsectors[0].name.as_str(), m.subsectors[0].index.as_str(), m.subsectors[0].index_number), ("Cronor", "a", 0));
    assert_eq!(m.local_allegiances.len(), 1);
    assert_eq!(m.local_allegiances[0].base.as_deref(), Some("Im"));
    assert_eq!(m.stylesheet.as_deref(), Some("border.ImDd { color: red; }"));
    assert_eq!(m.borders.len(), 1);
    assert!(!m.borders[0].show_label);
    assert_eq!(m.borders[0].hexes, vec!["0101", "0103", "0302"]);
    assert_eq!(m.borders[0].label_offset_x.as_deref(), Some("0.5"));
    assert_eq!(m.borders[0].seq, 0);
    assert_eq!(m.regions.len(), 1);
    assert_eq!(m.regions[0].seq, 1);
    assert_eq!(m.routes.len(), 1);
    assert_eq!(m.routes[0].start_offset_x, -1);
    assert_eq!(m.routes[0].route_type.as_deref(), Some("Trade"));
    assert_eq!(m.labels.len(), 1);
    assert!(m.labels[0].wrap);
    assert_eq!(m.labels[0].text, "Outrim Void");
    assert!(m.allegiances.is_empty());
    assert_eq!((m.x, m.y), (0, 0));
}

#[test]
fn metadata_of_bad_xml_is_empty() {
    let m = parse_sector_metadata("<Sector>");
    assert!(m.names.is_empty() && m.tags.is_empty() && !m.selected && m.borders.is_empty());
    let m = parse_sector_metadata("<Other Tags='x'><Name>n</Name></Other>");
    assert_eq!(m.tags, "");
    assert!(m.names.is_empty());
}

#[test]
fn border_label_position_is_bounding_box_centre() {
    let hexes: Vec<String> = vec!["0101".into(), "0103".into(), "0302".into()];
    assert_eq!(label_position(&None, &hexes), "0202");
    assert_eq!(label_position(&Some("1111".into()), &hexes), "1111");
    assert_eq!(label_position(&None, &vec!["xx".to_string()]), "0000");
    assert_eq!(label_position(&None, &vec!["3240".to_string()]), "3240");
}

#[test]
fn metadata_xml_document() {
    let mut m = SectorMetadata::default();
    m.tags = "Official".into();
    m.names.push(SectorName { text: "A & B".into(), lang: None, source: None });
    m.x = -4;
    m.y = 1;
    m.subsectors.push(MetaSubsector { name: "".into(), index: "A".into(), index_number: 0 });
    m.routes.push(MetaRoute {
        start: "0101".into(),
        end: "0202".into(),
        start_offset_x: 0,
        start_offset_y: 1,
        end_offset_x: 0,
        end_offset_y: 0,
        allegiance: None,
        color: None,
        route_type: None,
    });
    assert_eq!(
        m.to_xml(),
        "<?xml version=\"1.0\"?>\n<Sector Tags=\"Official\"><Name>A &amp; B</Name><X>-4</X><Y>1</Y><DataFile />\
         <Subsectors><Subsector Index=\"A\" /></Subsectors><Allegiances></Allegiances>\
         <Routes><Route Start=\"0101\" End=\"0202\" StartOffsetY=\"1\" /></Routes></Sector>"
    );
}

#[test]
fn metadata_round_trips_through_xml() {
    let m = parse_sector_metadata(DOC);
    let again = parse_sector_metadata(&m.to_xml());
    assert_eq!(again.names.len(), 2);
    assert_eq!(again.credits_text, m.credits_text);
    assert_eq!(again.borders[0].hexes, m.borders[0].hexes);
    assert_eq!(again.labels[0].text, "Outrim Void");
    assert_eq!(again.to_xml(), m.to_xml());
}
