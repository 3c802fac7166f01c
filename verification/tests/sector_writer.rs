use tmap_core::dto::World;
use tmap_core::sector_writer::{write_second_survey, write_tab, WriteOptions};

fn world(hex: &str, name: &str) -> World {
    World { hex: hex.to_string(), name: name.to_string(), uwp: "X000000-0".to_string(), ..Default::default() }
}

#[test]
fn tab_is_crlf_with_header_and_sector_ss_columns() {
    let worlds = [world("0101", "A"), world("0908", "B")];
    let out = write_tab(&worlds, "Spin", &WriteOptions { include_header: true, sscoords: false });
    let lines: Vec<&str> = out.split("\r\n").collect();
    assert!(lines[0].starts_with("Sector\tSS\tHex\t"));
    assert!(lines[1].starts_with("Spin\tA\t0101\tA\t"), "{:?}", lines[1]);
    assert!(lines[2].starts_with("Spin\tB\t0908\tB\t"), "{:?}", lines[2]);
}

#[test]
fn worlds_sort_by_subsector_then_column_major() {
    let worlds = [
        world("0203", "second-col"),
        world("0102", "first-col-row2"),
        world("0101", "first-col-row1"),
        world("0901", "subsector-B"),
    ];
    let out = write_tab(&worlds, "X", &WriteOptions { include_header: false, sscoords: false });
    let names: Vec<&str> = out.lines().map(|l| l.split('\t').nth(3).unwrap()).collect();
    assert_eq!(names, ["first-col-row1", "first-col-row2", "second-col", "subsector-B"]);
}

#[test]
fn second_survey_pads_columns_and_floors_name_width() {
    let opts = WriteOptions { include_header: true, ..Default::default() };
    let out = write_second_survey(&[world("0101", "Reno")], &opts);
    let mut lines = out.lines();
    assert!(lines.next().unwrap().starts_with("Hex  Name"));
    let sep_fields: Vec<&str> = lines.next().unwrap().split(' ').collect();
    assert_eq!(sep_fields[1], "-".repeat(20));
}

#[test]
fn tab_row_has_every_column() {
    let mut w = world("1910", "Regina");
    w.worlds = Some(9);
    w.resource_units = Some(-12);
    w.importance = Some("{ 4 }".into());
    let out = write_tab(&[w], "Spin", &WriteOptions { include_header: false, sscoords: true });
    assert_eq!(out, "Spin\tC\t0310\tRegina\tX000000-0\t\t\t\t\t\t\t{ 4 }\t\t\t\t9\t-12\r\n");
}

#[test]
fn second_survey_row_without_header() {
    let out = write_second_survey(&[world("0101", "Reno")], &WriteOptions::default());
    assert_eq!(
        out,
        "0101 Reno                 X000000-0                                     - - -                \r\n"
    );
}

#[test]
fn equal_keys_keep_input_order() {
    let worlds = [world("0101", "first"), world("0101", "second")];
    let out = write_tab(&worlds, "X", &WriteOptions::default());
    let names: Vec<&str> = out.lines().map(|l| l.split('\t').nth(3).unwrap()).collect();
    assert_eq!(names, ["first", "second"]);
}
