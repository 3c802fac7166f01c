use tmap_core::astrometrics::Coord;
use tmap_core::parse::{
    border_region, decode_legacy_bases, is_placeholder_name, milieu_sector_block, parse_column, parse_milieu_index,
    parse_sec, parse_tab, parse_world_labels, sector_credits, sector_index_entry, sector_routes, sector_subsectors,
    sector_tags,
};

const SAMPLE: &str = "\
# Generated file - DO NOT MODIFY
# Update source files in res/t5ss/data instead

Sector\tSS\tHex\tName\tUWP\tBases\tRemarks\tZone\tPBG\tAllegiance\tStars\t{Ix}\t(Ex)\t[Cx]\tNobility\tW\tRU
Spin\tA\t0101\tZeycude\tC430698-9\t\tDe Na Ni Po\t\t613\tZhIN\tK9 V\t{ -1 }\t(C53-1)\t[6559]\t\t8\t-180
Spin\tA\t1910\tRegina\tA788899-C\tNS\tRi Pa Ph An Cp\t\t703\tImDd\tG2 V\t{ 4 }\t(D7E+5)\t[9C6D]\tBcCeF\t9\t4628
Spin\tA\t0102\tReno\tT BADROW MISSING COLS";

#[test]
fn parses_header_and_rows() {
    let out = parse_tab(SAMPLE).expect("has header");
    assert_eq!(out.worlds.len(), 2);

    let regina = out.worlds.iter().find(|w| w.name == "Regina").unwrap();
    assert_eq!(regina.hex, "1910");
    assert_eq!(regina.uwp, "A788899-C");
    assert_eq!(regina.bases, "NS");
    assert_eq!(regina.allegiance, "ImDd");
    assert_eq!(regina.pbg, "703");
    assert_eq!(regina.stellar, "G2 V");
    assert_eq!(regina.importance.as_deref(), Some("{ 4 }"));
    assert_eq!(regina.cultural.as_deref(), Some("[9C6D]"));
    assert_eq!(regina.nobility.as_deref(), Some("BcCeF"));
    assert_eq!(regina.worlds, Some(9));
    assert_eq!(regina.resource_units, Some(4628));
    assert_eq!(regina.codes(), ["Ri", "Pa", "Ph", "An", "Cp"]);
}

#[test]
fn empty_fields_stay_empty_and_optional_absent() {
    let out = parse_tab(SAMPLE).unwrap();
    let zeycude = out.worlds.iter().find(|w| w.name == "Zeycude").unwrap();
    assert_eq!(zeycude.bases, "");
    assert_eq!(zeycude.zone, "");
    assert_eq!(zeycude.nobility, None);
}

#[test]
fn malformed_row_is_skipped_with_warning() {
    let out = parse_tab(SAMPLE).unwrap();
    assert_eq!(out.warnings.len(), 1);
    assert!(out.warnings[0].contains("columns"));
}

#[test]
fn no_header_is_an_error() {
    assert!(parse_tab("# only comments\n\n").is_err());
}

#[test]
fn parses_column_format() {
    let input = "\
Hex  Name                 UWP       Remarks       {Ix}   PBG W  A
---- -------------------- --------- ------------- ------ --- -- ----
0102 Miuir                B130A88-E De Hi Na Po   {  3 } 900  5 NaXX
0104                      B638416-A Ni            {  1 } 222 11 NaXX";
    let out = parse_column(input).expect("valid");
    assert_eq!(out.worlds.len(), 2);
    let m = &out.worlds[0];
    assert_eq!(m.name, "Miuir");
    assert_eq!(m.hex, "0102");
    assert_eq!(m.uwp, "B130A88-E");
    assert_eq!(m.remarks, "De Hi Na Po");
    assert_eq!(m.pbg, "900");
    assert_eq!(m.allegiance, "NaXX");
    assert_eq!(m.importance.as_deref(), Some("{  3 }"));
    assert_eq!(out.worlds[1].name, "");
    assert_eq!(out.worlds[1].hex, "0104");
}

#[test]
fn reads_sector_tags_attribute() {
    let xml = r#"<Sector Abbreviation="Spin" Tags="Official">
          <X>-4</X><Y>-1</Y><Name>Spinward Marches</Name>
        </Sector>"#;
    assert_eq!(sector_tags(xml), "Official");
    assert_eq!(sector_tags(r#"<Sector><Name>X</Name></Sector>"#), "");
}

#[test]
fn tab_warning_text_and_crlf_lines() {
    let input = "Hex\tName\tUWP\r\n0101\tA\tX000000-0\r\n0102\tB\r\n0103\t\t\r\n";
    let out = parse_tab(input).unwrap();
    assert_eq!(out.worlds.len(), 1);
    assert_eq!(out.worlds[0].name, "A");
    assert_eq!(out.warnings, vec!["line 3: 2 columns, expected 3", "line 4: missing Hex or UWP"]);
}

#[test]
fn column_format_needs_a_separator() {
    assert_eq!(parse_column("").unwrap_err().message, "no header row");
    assert_eq!(parse_column("Hex Name\n").unwrap_err().message, "no column-separator row");
}

#[test]
fn legacy_sec_lines() {
    let input = "\
# Legacy SEC
Regina       1910 A788899-C A Ri Pa Ph In Cp   703 Im G2 V
J-11         0101 X000000-0 - Ba                 000 Na
";
    let out = parse_sec(input).unwrap();
    assert_eq!(out.worlds.len(), 2);
    assert_eq!(out.worlds[0].name, "Regina");
    assert_eq!(out.worlds[0].hex, "1910");
    assert_eq!(out.worlds[0].uwp, "A788899-C");
    assert_eq!(out.worlds[0].bases, "NS");
    assert_eq!(out.worlds[0].pbg, "703");
    assert_eq!(out.worlds[0].allegiance, "Im");
    assert_eq!(out.worlds[0].stellar, "G2 V");
    assert_eq!(out.worlds[1].name, "");
    assert_eq!(out.worlds[1].bases, "");
}

#[test]
fn placeholder_names_and_legacy_bases() {
    assert!(is_placeholder_name("A-1"));
    assert!(is_placeholder_name("P-99"));
    assert!(!is_placeholder_name("Q-1"));
    assert!(!is_placeholder_name("A-123"));
    assert_eq!(decode_legacy_bases("SoCf", 'F'), "K");
    assert_eq!(decode_legacy_bases("ImDd", 'F'), "KM");
    assert_eq!(decode_legacy_bases("ScXX", 'H'), "H");
    assert_eq!(decode_legacy_bases("ImDd", 'H'), "CK");
    assert_eq!(decode_legacy_bases("ImDd", '!'), "");
}

#[test]
fn border_region_fills_the_interior() {
    let hexes: Vec<String> = ["0101", "0301", "0303", "0103"].iter().map(|s| s.to_string()).collect();
    let r = border_region(&hexes, 0, 0);
    assert!(r.contains(&(1, 1)));
    assert!(r.contains(&(2, 2)));
    assert!(r.contains(&(3, 3)));
    assert!(!r.contains(&(5, 5)));
    let two: Vec<String> = ["0101", "0505"].iter().map(|s| s.to_string()).collect();
    assert_eq!(border_region(&two, 0, 0), vec![(1, 1), (5, 5)]);
}

#[test]
fn parses_sector_metadata_head() {
    let xml = r#"<?xml version="1.0"?>
            <Sector Abbreviation="Spin" Tags="Official">
              <Y>-1</Y>
              <X>-4</X>
              <Name>Spinward Marches</Name>
              <Name Lang="zh">Tloql</Name>
            </Sector>"#;
    let e = sector_index_entry(xml).unwrap();
    assert_eq!(e.name, "Spinward Marches");
    assert_eq!(e.abbreviation.as_deref(), Some("Spin"));
    assert_eq!(e.location, Coord::new(-4, -1));
}

#[test]
fn non_sector_xml_is_rejected() {
    assert!(sector_index_entry("<Milieu><Sector><X>0</X></Sector></Milieu>").is_err());
}

#[test]
fn reads_credits_decoded_text() {
    let xml = r#"<Sector>
              <Name>Aktifao</Name>
              <Credits>
                &lt;b&gt;Aktifao&lt;/b&gt; sector borders designed by Shane MacLean.
              </Credits>
            </Sector>"#;
    let c = sector_credits(xml).expect("has credits");
    assert!(c.starts_with("<b>Aktifao</b>"), "decoded + trimmed: {c:?}");
    assert_eq!(sector_credits(r#"<Sector><Name>X</Name></Sector>"#), None);
}

#[test]
fn index_entry_carries_names_tags_and_errors() {
    let xml = r#"<Sector Tags=" Official OTU " Milieu="M1105"><X>1</X><Y>2</Y>
        <Name>Core</Name><Name Lang="de" Source=" x ">Kern</Name><Name>  </Name></Sector>"#;
    let e = sector_index_entry(xml).unwrap();
    assert_eq!(e.tags, "Official OTU");
    assert_eq!(e.milieu.as_deref(), Some("M1105"));
    assert_eq!(e.names.len(), 2);
    assert_eq!(e.names[1].text, "Kern");
    assert_eq!(e.names[1].lang.as_deref(), Some("de"));
    assert_eq!(e.names[1].source.as_deref(), Some("x"));
    assert_eq!(e.data_file, None);
    assert_eq!(
        sector_index_entry("<Milieu/>").unwrap_err().message,
        "root is <Milieu>, not <Sector>"
    );
    assert_eq!(sector_index_entry("<Sector><X>1</X><Name>A</Name></Sector>").unwrap_err().message, "missing <X>/<Y>");
    assert_eq!(sector_index_entry("<Sector><X>1</X><Y>z</Y></Sector>").unwrap_err().message, "missing <X>/<Y>");
    assert_eq!(sector_index_entry("<Sector><X>1</X><Y>2</Y><Name> </Name></Sector>").unwrap_err().message, "missing <Name>");
    assert!(!sector_index_entry("<Sector>").unwrap_err().message.is_empty());
}

#[test]
fn milieu_index_needs_a_data_file() {
    let xml = r#"<Sectors>
        <Sector Abbreviation="Spin"><X>-4</X><Y>-1</Y><Name>Spinward Marches</Name>
          <DataFile Type="SecondSurvey" Milieu="M1105"> spin.tab </DataFile>
          <MetadataFile>Spinward.xml</MetadataFile></Sector>
        <Sector><X>0</X><Y>0</Y><Name>No Data</Name></Sector>
        <Sector><X>9</X><Y>9</Y><Name>Empty</Name><DataFile> </DataFile></Sector>
      </Sectors>"#;
    let v = parse_milieu_index(xml);
    assert_eq!(v.len(), 1);
    assert_eq!(v[0].name, "Spinward Marches");
    assert_eq!(v[0].location, Coord::new(-4, -1));
    assert_eq!(v[0].data_file.as_deref(), Some("spin.tab"));
    assert_eq!(v[0].data_format.as_deref(), Some("SecondSurvey"));
    assert_eq!(v[0].metadata_file.as_deref(), Some("Spinward.xml"));
    assert_eq!(v[0].milieu.as_deref(), Some("M1105"));
    assert!(parse_milieu_index("<not xml").is_empty());
}

#[test]
fn subsectors_and_routes() {
    let xml = r#"<Sector><Subsectors>
        <Subsector Index="A"> Cronor </Subsector><Subsector Index="B"></Subsector>
        <Subsector Index=" C ">Jewell</Subsector></Subsectors>
        <Routes><Route Start="0101" End=" 0202 " StartOffsetX="-1" EndOffsetY="x" Allegiance="ImDd"/>
        <Route Start="0303"/></Routes></Sector>"#;
    let subs = sector_subsectors(xml);
    assert_eq!(subs.len(), 2);
    assert_eq!((subs[0].index.as_str(), subs[0].name.as_str()), ("A", "Cronor"));
    assert_eq!((subs[1].index.as_str(), subs[1].name.as_str()), ("C", "Jewell"));
    let routes = sector_routes(xml);
    assert_eq!(routes.len(), 1);
    assert_eq!(routes[0].end, "0202");
    assert_eq!(routes[0].start_offset, (-1, 0));
    assert_eq!(routes[0].end_offset, (0, 0));
    assert_eq!(routes[0].allegiance.as_deref(), Some("ImDd"));
}

#[test]
fn world_labels_default_bias() {
    let xml = r#"<Worlds>
        <World><Name>Capital</Name><Location Sector="Core" Hex="2118"/><LabelBiasX>-1</LabelBiasX></World>
        <World><Name>Lost</Name></World>
      </Worlds>"#;
    let v = parse_world_labels(xml);
    assert_eq!(v.len(), 1);
    assert_eq!((v[0].name.as_str(), v[0].sector.as_str(), v[0].hex.as_str()), ("Capital", "Core", "2118"));
    assert_eq!((v[0].bias_x, v[0].bias_y), (-1, 1));
}

#[test]
fn sector_block_is_cut_from_the_source() {
    let region = "<Sectors><Sector><Name>Ä one</Name></Sector><Sector><Name>Two</Name><Name>Zwei</Name><X>1</X></Sector></Sectors>";
    assert_eq!(
        milieu_sector_block(region, "Zwei").as_deref(),
        Some("<Sector><Name>Two</Name><Name>Zwei</Name><X>1</X></Sector>")
    );
    assert_eq!(milieu_sector_block(region, "Ä one").as_deref(), Some("<Sector><Name>Ä one</Name></Sector>"));
    assert_eq!(milieu_sector_block(region, "Three"), None);
}
