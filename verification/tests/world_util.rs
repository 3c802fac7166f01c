use tmap_core::dto::World;
use tmap_core::world_util::{
    allegiance_name, decode_world, from_hex, parse_allegiance_codes, parse_sophont_codes, split_pbg, split_remarks,
    split_uwp, CodeTables,
};

fn world(uwp: &str) -> World {
    World { hex: "0101".into(), name: "Test".into(), uwp: uwp.into(), ..Default::default() }
}

const ALLEGIANCES: &str = "Code\tLegacy\tBaseCode\tName\tLocation\n\
ImDd\tIm\tIm\tThird Imperium, Domain of Deneb\tSpinward Marches\n\
ZhCo\tZh\tZh\tZhodani Consulate\tZhodane\n\
SoCf\tSo\tSo\tSolomani Confederation\tSolomani Rim\n";

const SOPHONTS: &str = "Code\tName\tLocation\nAsla\tAslan\tKusyu\n";

fn tables() -> CodeTables {
    CodeTables { allegiances: parse_allegiance_codes(ALLEGIANCES), sophonts: parse_sophont_codes(SOPHONTS) }
}

fn no_tables() -> CodeTables {
    CodeTables { allegiances: Vec::new(), sophonts: Vec::new() }
}

#[test]
fn from_hex_extended() {
    assert_eq!(from_hex('0'), 0);
    assert_eq!(from_hex('9'), 9);
    assert_eq!(from_hex('A'), 10);
    assert_eq!(from_hex('G'), 16);
    assert_eq!(from_hex('W'), 30);
    assert_eq!(from_hex('-'), -1);
}

#[test]
fn regina_uwp() {
    let u = split_uwp("A788899-C");
    assert_eq!(u.starport.blurb, "Excellent");
    assert_eq!(u.size.code, "7");
    assert_eq!(u.atmosphere.blurb, "Dense");
    assert_eq!(u.hydrographics.blurb, "80%");
    assert_eq!(u.population.blurb, "Hundreds of millions");
    assert_eq!(u.government.blurb, "Impersonal Bureaucracy");
    assert_eq!(u.law.blurb, "Possession of weapons outside the home prohibited");
    assert_eq!(u.tech.code, "C");
    assert_eq!(u.tech.blurb, "Average Imperial");
}

#[test]
fn pbg_and_population() {
    let mut w = world("A788899-C");
    w.pbg = "703".into();
    let d = decode_world(&w, &no_tables());
    assert_eq!(d.pbg.pop_mult, 7);
    assert_eq!(d.pbg.belts, Some(0));
    assert_eq!(d.pbg.gas_giants, Some(3));
    assert_eq!(d.total_population.as_deref(), Some("700,000,000"));
}

#[test]
fn population_mult_zero_bumped_to_one() {
    let mut w = world("A100500-A");
    w.pbg = "003".into();
    let d = decode_world(&w, &no_tables());
    assert_eq!(d.total_population.as_deref(), Some("100,000"));
}

#[test]
fn placeholder_detected() {
    assert!(decode_world(&world("XXXXXXX-X"), &no_tables()).is_placeholder);
    assert!(decode_world(&world("???????-?"), &no_tables()).is_placeholder);
    assert!(!decode_world(&world("A788899-C"), &no_tables()).is_placeholder);
}

#[test]
fn allegiance_full_name() {
    let t = tables();
    assert_eq!(allegiance_name(&t.allegiances, "ImDd").as_deref(), Some("Third Imperium, Domain of Deneb"));
    assert_eq!(allegiance_name(&t.allegiances, "ZhCo").as_deref(), Some("Zhodani Consulate"));
    assert_eq!(allegiance_name(&t.allegiances, "ZZZZ"), None);
    assert_eq!(allegiance_name(&t.allegiances, "As").as_deref(), Some("Aslan Hierate"));
    assert_eq!(allegiance_name(&t.allegiances, "Im").as_deref(), Some("Third Imperium"));
    assert_eq!(allegiance_name(&t.allegiances, "So").as_deref(), Some("Solomani Confederation"));
    assert_eq!(allegiance_name(&t.allegiances, "Zh").as_deref(), Some("Zhodani Consulate"));
}

#[test]
fn ix_decode() {
    let mut w = world("A788899-C");
    w.importance = Some("{ 4 }".into());
    let d = decode_world(&w, &no_tables()).importance.unwrap();
    assert_eq!(d.imp, "4");
    assert_eq!(d.blurb.as_deref(), Some("Important"));

    w.importance = Some("{ -1 }".into());
    let d = decode_world(&w, &no_tables()).importance.unwrap();
    assert_eq!(d.imp, "\u{2212}1");
    assert_eq!(d.blurb.as_deref(), Some("Unimportant"));
}

#[test]
fn ex_decode() {
    let mut w = world("A788899-C");
    w.economic = Some("(D7E+5)".into());
    let ex = decode_world(&w, &no_tables()).economics.unwrap();
    assert_eq!(ex.resources.blurb, "Very abundant");
    assert_eq!(ex.labor.blurb, "Tens of millions");
    assert_eq!(ex.infrastructure.blurb, "Comprehensive");
    assert_eq!(ex.efficiency.code, "+5");
    assert_eq!(ex.efficiency.blurb, "Very advanced");

    w.economic = Some("(953-2)".into());
    let ex = decode_world(&w, &no_tables()).economics.unwrap();
    assert_eq!(ex.efficiency.code, "\u{2212}2");
    assert_eq!(ex.efficiency.blurb, "Fair");
}

#[test]
fn cx_decode() {
    let mut w = world("A788899-C");
    w.cultural = Some("[7779]".into());
    let cx = decode_world(&w, &no_tables()).culture.unwrap();
    assert_eq!(cx.heterogeneity.blurb, "Discordant");
    assert_eq!(cx.acceptance.blurb, "Aloof");
    assert_eq!(cx.strangeness.blurb, "Confusing");
    assert_eq!(cx.symbols.blurb, "Somewhat abstract");
}

#[test]
fn remarks_table_and_sophont() {
    let mut w = world("A788899-C");
    w.remarks = "Hi In (Aslan)4".into();
    let d = decode_world(&w, &tables());
    let codes: Vec<&str> = d.remarks.iter().map(|r| r.code.as_str()).collect();
    assert_eq!(codes, vec!["Hi", "In", "(Aslan)4"]);
    assert_eq!(d.remarks[0].blurb, "High Population");
    assert_eq!(d.remarks[1].blurb, "Industrialized");
    assert_eq!(d.remarks[2].blurb, "Homeworld, Population 40%");
}

#[test]
fn remarks_sophont_code() {
    let mut w = world("A788899-C");
    w.remarks = "Asla4".into();
    let d = decode_world(&w, &tables());
    assert_eq!(d.remarks[0].blurb, "Aslan, Population 40%");
}

#[test]
fn nobility_decode() {
    let mut w = world("A788899-C");
    w.nobility = Some("BcC".into());
    let n = decode_world(&w, &no_tables()).nobility;
    assert_eq!(n[0].blurb, "Knight");
    assert_eq!(n[1].blurb, "Baronet");
    assert_eq!(n[2].blurb, "Baron");
}

#[test]
fn bases_decode_and_zhodani() {
    let mut w = world("A788899-C");
    w.bases = "NS".into();
    assert_eq!(decode_world(&w, &no_tables()).bases, vec!["Naval Base", "Scout Base"]);

    w.bases = "KM".into();
    w.allegiance = "ZhCo".into();
    assert_eq!(decode_world(&w, &no_tables()).bases, vec!["Zhodani Base"]);
}

#[test]
fn stars_decode() {
    let mut w = world("A788899-C");
    w.stellar = "K9 V M2 V".into();
    let s = decode_world(&w, &no_tables()).stars;
    assert_eq!(s.len(), 2);
    assert_eq!(s[0].code, "K9 V");
    assert_eq!(s[0].blurb, "Orange Dwarf (Main Sequence)");
    assert_eq!(s[1].code, "M2 V");
    assert_eq!(s[1].blurb, "Red Dwarf (Main Sequence)");

    w.stellar = "A0 V".into();
    let s = decode_world(&w, &no_tables()).stars;
    assert_eq!(s[0].blurb, "White Main Sequence");
}

#[test]
fn zone_decode() {
    let mut w = world("A788899-C");
    w.zone = "R".into();
    assert_eq!(decode_world(&w, &no_tables()).zone.rating, "Red");
    w.zone = "A".into();
    assert_eq!(decode_world(&w, &no_tables()).zone.rating, "Amber");
    w.zone = "".into();
    assert_eq!(decode_world(&w, &no_tables()).zone.rating, "Green");
}

#[test]
fn other_worlds_arithmetic() {
    let mut w = world("A788899-C");
    w.pbg = "703".into();
    w.worlds = Some(8);
    let d = decode_world(&w, &no_tables());
    assert_eq!(d.other_worlds, Some(4));
}

#[test]
fn remark_tokens_keep_groups_together() {
    assert_eq!(split_remarks("Di(Old Ones) [Droyne]4 {a comment} Ri"), vec!["Di(Old Ones)", "[Droyne]4", "{a comment}", "Ri"]);
    assert_eq!(split_remarks("(unclosed Na"), vec!["(unclosed", "Na"]);
}

#[test]
fn pbg_with_missing_digits() {
    let p = split_pbg("7");
    assert_eq!(p.pop_mult, 7);
    assert_eq!(p.belts, None);
    assert_eq!(p.gas_giants, None);
}

#[test]
fn dwarf_companions_collapse_and_research_stations_count_as_bases() {
    let mut w = world("A788899-C");
    w.stellar = "G2 V M5 D".into();
    let s = decode_world(&w, &no_tables()).stars;
    let codes: Vec<&str> = s.iter().map(|d| d.code.as_str()).collect();
    assert_eq!(codes, vec!["G2 V", "D"]);
    assert_eq!(s[1].blurb, "White Dwarf");

    w.remarks = "RsB Re".into();
    let d = decode_world(&w, &no_tables());
    assert_eq!(d.bases, vec!["Research Station Beta", "Reserve"]);
}
