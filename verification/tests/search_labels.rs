use tmap_core::metadata::parse_sector_metadata;
use tmap_core::search_index::{group_label_points, label_placement, label_points, resolve_alleg_name};
use tmap_core::world_util::AllegianceCode;

fn table() -> Vec<AllegianceCode> {
    vec![AllegianceCode {
        code: "CsZh".into(),
        legacy: "Cz".into(),
        base: "Zh".into(),
        name: "Zhodani Client State".into(),
    }]
}

const DOC: &str = r#"<?xml version="1.0"?>
<Sector>
  <Allegiances><Allegiance Code="ImDd">Domain of Deneb</Allegiance></Allegiances>
  <Borders>
    <Border Allegiance="ImDd">0101 0103 0302</Border>
    <Border Allegiance="ImDd" ShowLabel="false">0505</Border>
    <Border Allegiance="CsZh" LabelPosition="1010">0909</Border>
    <Border Allegiance="NoSuch">0707</Border>
    <Border Label="  Great   Rift ">1212 1414</Border>
  </Borders>
  <Regions><Region Label="Void" LabelPosition="bad">0505 0506</Region></Regions>
  <Labels><Label Hex="2020"> Outrim   Void </Label><Label Hex="2121"></Label><Label Hex="zz">Lost</Label></Labels>
</Sector>"#;

#[test]
fn alleg_names_prefer_the_sector_table() {
    let m = parse_sector_metadata(DOC);
    assert_eq!(resolve_alleg_name(&m.local_allegiances, &table(), "ImDd").as_deref(), Some("Domain of Deneb"));
    assert_eq!(resolve_alleg_name(&m.local_allegiances, &table(), "CsZh").as_deref(), Some("Zhodani Client State"));
    assert_eq!(resolve_alleg_name(&m.local_allegiances, &table(), "NoSuch"), None);
}

#[test]
fn sector_label_points_in_document_order() {
    let m = parse_sector_metadata(DOC);
    // Sector (0, 0): hex (c, r) is world-space (c - 1, r - 40).
    let pts = label_points(&m, 0, 0, &table());
    let expect: Vec<(String, (i32, i32))> = vec![
        ("Domain of Deneb".into(), (1, -38)),
        ("Zhodani Client State".into(), (9, -30)),
        ("Great Rift".into(), (12, -27)),
        ("Outrim Void".into(), (19, -20)),
    ];
    assert_eq!(pts, expect);
    // Sector (-4, -1) shifts every point by (-128, -40).
    let shifted = label_points(&m, -4, -1, &table());
    assert_eq!(shifted[0].1, (1 - 128, -38 - 40));
}

#[test]
fn label_points_group_and_place() {
    let m = parse_sector_metadata(DOC);
    let mut pts = label_points(&m, 0, 0, &table());
    pts.extend(label_points(&m, 1, 0, &table()));
    let groups = group_label_points(&pts);
    assert_eq!(groups[0].0, "Domain of Deneb");
    assert_eq!(groups[0].1, vec![(1, -38), (33, -38)]);
    let place = label_placement(&groups[0].1).unwrap();
    // Mean (17, -38) lies at hex 1802 of sector (0, 0); a spread of 32 gives scale 32.
    assert_eq!((place.sector_x, place.sector_y, place.hex_x, place.hex_y, place.scale), (0, 0, 18, 2, 32));
}
