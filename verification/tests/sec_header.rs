use tmap_core::astrometrics::Coord;
use tmap_core::dto::{DataFileMeta, SectorIndexEntry, SectorName, Subsector, World};
use tmap_core::metadata::MetaAllegiance;
use tmap_core::sec_header::{iso8601_utc, allegiance_codes, sec_metadata_block};
use tmap_core::world_util::AllegianceCode;

fn world(alleg: &str) -> World {
    World { allegiance: alleg.into(), ..Default::default() }
}

#[test]
fn codes_sorted_and_distinct() {
    let ws = vec![world("ImDd"), world(""), world("CsIm"), world("ImDd"), world("Im"), world("Zh")];
    assert_eq!(allegiance_codes(&ws), vec!["CsIm", "Im", "ImDd", "Zh"]);
    assert!(allegiance_codes(&vec![]).is_empty());
}

#[test]
fn sec_header_block() {
    let entry = SectorIndexEntry {
        name: "Spinward Marches".into(),
        abbreviation: None,
        location: Coord::new(-4, -1),
        names: vec![
            SectorName { text: "Spinward Marches".into(), lang: None, source: None },
            SectorName { text: "Tloql".into(), lang: Some("zh".into()), source: None },
        ],
        tags: String::new(),
        data_file: None,
        data_format: None,
        metadata_file: None,
        milieu: None,
        metafile_tag: None,
    };
    let df = DataFileMeta { author: Some("A. Author".into()), reference: Some("Ref 1".into()), ..Default::default() };
    let subs = vec![Subsector { index: "b".into(), name: "Jewell".into() }];
    let worlds = vec![world("ImDd"), world("XxYy"), world("Zz")];
    let local = vec![MetaAllegiance { name: "Local Zz".into(), code: "Zz".into(), base: None }];
    let table = vec![AllegianceCode { code: "ImDd".into(), legacy: "Im".into(), base: "Im".into(), name: "Domain of Deneb".into() }];
    let out = sec_metadata_block(
        &entry,
        Some("Spin"),
        "M1105",
        Some("<b>Spin</b>   data"),
        &df,
        &subs,
        &worlds,
        &local,
        &table,
        false,
        "2024-01-02T03:04:05+00:00",
    );
    let mut expected = String::new();
    for l in [
        "# Generated by https://travellermap.com",
        "# 2024-01-02T03:04:05+00:00",
        "",
        "# Spinward Marches",
        "# -4,1",
        "",
        "# Name: Spinward Marches",
        "# Name: Tloql (zh)",
        "",
        "# Abbreviation: Spin",
        "",
        "# Milieu: M1105",
        "",
        "# Credits: Spin data",
        "",
        "# Author:    A. Author",
        "# Ref:       Ref 1",
        "",
    ] {
        expected.push_str(l);
        expected.push_str("\r\n");
    }
    for (i, c) in ('A'..='P').enumerate() {
        expected.push_str(&format!("# Subsector {c}: {}\r\n", if i == 1 { "Jewell" } else { "" }));
    }
    expected.push_str("\r\n# Alleg: ImDd: \"Domain of Deneb\"\r\n# Alleg: Zz: \"Local Zz\"\r\n\r\n");
    assert_eq!(out, expected);

    let legacy = sec_metadata_block(
        &entry, None, "M1105", None, &DataFileMeta::default(), &vec![], &worlds, &local, &table, true, "t",
    );
    assert!(legacy.contains("# Alleg: Im: \"Domain of Deneb\"\r\n"));
    assert!(legacy.contains("# Alleg: Zz: \"Local Zz\"\r\n"));
    assert!(!legacy.contains("Abbreviation"));
    assert!(!legacy.contains("Credits"));
    assert!(!legacy.contains("Author"));
}

#[test]
fn generation_timestamps() {
    assert_eq!(iso8601_utc(0), "1970-01-01T00:00:00+00:00");
    assert_eq!(iso8601_utc(951_782_400), "2000-02-29T00:00:00+00:00");
    assert_eq!(iso8601_utc(1_700_000_000), "2023-11-14T22:13:20+00:00");
    assert_eq!(iso8601_utc(253_402_300_799), "9999-12-31T23:59:59+00:00");
    assert_eq!(iso8601_utc(253_402_300_800), "10000-01-01T00:00:00+00:00");
}

#[test]
fn timestamps_step_to_the_next_date() {
    assert_eq!(iso8601_utc(86_399), "1970-01-01T23:59:59+00:00");
    assert_eq!(iso8601_utc(86_400), "1970-01-02T00:00:00+00:00");
    assert_eq!(iso8601_utc(951_782_400 + 86_400), "2000-03-01T00:00:00+00:00");
    assert_eq!(iso8601_utc(4_107_456_000), "2100-02-28T00:00:00+00:00");
    assert_eq!(iso8601_utc(4_107_456_000 + 86_400), "2100-03-01T00:00:00+00:00");
    assert_eq!(iso8601_utc(946_598_400), "1999-12-31T00:00:00+00:00");
    assert_eq!(iso8601_utc(946_598_400 + 86_400), "2000-01-01T00:00:00+00:00");
}
