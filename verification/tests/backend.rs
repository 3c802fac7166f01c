use tmap_core::compat::{is_simple_js_identifier, CoordinatesResult};
use tmap_core::dto::Subsector;
use tmap_core::requests::{
    jump_world_order,
    bool_opt, has_t5_extensions, is_hex_tail, milieu_metafiles, milieu_tag, quadrant_index_for, region_sec_query,
    sniff_world_format, strip_html_collapse, subsector_index_for,
};
use tmap_core::route_sheet::{has_refuel, hex_label, is_anomaly, is_default_imperial};
use tmap_core::search_index::{
    group_label_points, label_placement, rank_order, world_fields, HitKey, LabelPlacement,
    importance_value, is_searchable, is_uwp_shortcut, preprocess_query, sanify_label, sector_tags, special_search_name,
    strip_brackets,
};
use tmap_core::dto::World;
use tmap_core::astrometrics::Coord;
use tmap_core::system_gen::{
    is_size_token, parse_hex_pair, parse_stellar, stellar_subtypes_fit, system_shape, SizeClass, SpectralClass, StellarSpec,
};

#[test]
fn jsonp_identifier_guard() {
    assert!(is_simple_js_identifier("cb"));
    assert!(is_simple_js_identifier("_x9"));
    assert!(!is_simple_js_identifier("9x"));
    assert!(!is_simple_js_identifier("a.b"));
    assert!(!is_simple_js_identifier(""));
}

#[test]
fn refuel_detection() {
    assert!(has_refuel("C430698-9", "613"));
    assert!(has_refuel("C400698-9", "601"));
    assert!(!has_refuel("C400698-9", "600"));
}

#[test]
fn anomaly_detection() {
    assert!(is_anomaly("???????-?"));
    assert!(!is_anomaly("C430698-9"));
}

#[test]
fn hex_label_pads() {
    assert_eq!(hex_label(1, 1), "0101");
    assert_eq!(hex_label(32, 40), "3240");
}

#[test]
fn hex_pair() {
    assert_eq!(parse_hex_pair("3128"), Some((31, 28)));
    assert_eq!(parse_hex_pair("0101"), Some((1, 1)));
    assert_eq!(parse_hex_pair("31"), None);
    assert_eq!(parse_hex_pair("31X8"), None);
}

#[test]
fn search_query_preprocessing() {
    assert_eq!(preprocess_query("r*a?"), "r%a_");
    assert_eq!(preprocess_query("A788899-C"), "uwp:A788899-C");
    assert!(is_uwp_shortcut("a788899-c"));
    assert!(!is_uwp_shortcut("a78889-c"));
    assert_eq!(special_search_name("(Grand Tour)").as_deref(), Some("GrandTour"));
    assert_eq!(special_search_name("x (random world) y").as_deref(), Some("randomworld"));
    assert_eq!(special_search_name("()"), None);
    assert_eq!(special_search_name("(a-b)"), None);
    assert_eq!(special_search_name("no parens"), None);
}

#[test]
fn index_field_helpers() {
    assert_eq!(importance_value(Some("{ 4 }")), Some(4));
    assert_eq!(importance_value(Some("{ -1 }")), Some(-1));
    assert_eq!(importance_value(Some("{ x }")), None);
    assert_eq!(importance_value(None), None);
    assert_eq!(strip_brackets(Some("(C53-1)")), "c53-1");
    assert_eq!(strip_brackets(Some("[6559]")), "6559");
    assert_eq!(strip_brackets(None), "");
    assert_eq!(sector_tags("Official OTU", Some("OTU")), "Official OTU");
    assert_eq!(sector_tags("  Preserve ", Some("Faraway")), "Preserve Faraway");
    assert_eq!(sector_tags("", None), "");
    assert!(is_searchable("Official OTU"));
    assert!(is_searchable("Faraway"));
    assert!(!is_searchable("Apocryphal"));
    assert_eq!(sanify_label("  Outrim   Void "), "Outrim Void");
}

#[test]
fn request_helpers() {
    assert!(bool_opt(&Some("1".into()), false));
    assert!(!bool_opt(&Some("False".into()), true));
    assert!(bool_opt(&Some("maybe".into()), true));
    assert!(!bool_opt(&None, false));
    assert_eq!(quadrant_index_for("Gamma"), Some(2));
    assert_eq!(quadrant_index_for("epsilon"), None);
    let subs = vec![Subsector { index: "C".into(), name: "Regina".into() }];
    assert_eq!(subsector_index_for("c", &subs), Some(2));
    assert_eq!(subsector_index_for("regina", &subs), Some(2));
    assert_eq!(subsector_index_for("Q", &subs), None);
    assert_eq!(subsector_index_for("Nowhere", &subs), None);
    assert!(is_hex_tail("1910"));
    assert!(!is_hex_tail("A"));
    assert_eq!(strip_html_collapse("<b>Aktifao</b>  sector\n borders"), "Aktifao sector borders");
    let q = region_sec_query("Spinward Marches".into(), "alpha", "SEC");
    assert_eq!(q.quadrant.as_deref(), Some("alpha"));
    assert_eq!(q.subsector, None);
    assert_eq!(q.metadata.as_deref(), Some("0"));
    let q = region_sec_query("Spinward Marches".into(), "C", "SEC");
    assert_eq!(q.subsector.as_deref(), Some("C"));
}

#[test]
fn world_format_sniffing() {
    assert_eq!(sniff_world_format("# c\na\tb\tc\td\te\tf\tg\th\ti\tj\n"), "TabDelimited");
    assert_eq!(sniff_world_format("0101 Name A000000-0 {+1} (A00+0) [0000] x\n"), "SecondSurvey");
    assert_eq!(sniff_world_format("Regina 1910 A788899-C\n"), "SEC");
    assert!(has_t5_extensions("{ 1 }  (B5A+1) [7A57]"));
    assert!(!has_t5_extensions("{ 1 }(B5A+1) [7A57]"));
}

#[test]
fn milieu_list_helpers() {
    let tab = "Path\tTags\nM1105/Spinward.xml\tOTU\nFaraway/faraway.xml\tFaraway\n\t\nM0/x.xml\t \n";
    assert_eq!(milieu_tag(tab, "M1105").as_deref(), Some("OTU"));
    assert_eq!(milieu_tag(tab, "Faraway").as_deref(), Some("Faraway"));
    assert_eq!(milieu_tag(tab, "M0"), None);
    let m = milieu_metafiles(tab);
    assert_eq!(m.len(), 3);
    assert_eq!(m[0], ("M1105/Spinward.xml".to_string(), "OTU".to_string()));
    assert_eq!(m[2], ("M0/x.xml".to_string(), "".to_string()));
}

#[test]
fn world_tests_for_routes() {
    assert!(is_default_imperial("ImDd"));
    assert!(!is_default_imperial("ZhCo"));
    assert!(is_size_token("VII") == false);
    assert!(is_size_token("D"));
    let r = CoordinatesResult { sx: -4, sy: -1, hx: 19, hy: 10, x: -110, y: -70 };
    assert_eq!(
        r.to_xml(),
        "<?xml version=\"1.0\" encoding=\"utf-8\"?>\n<Coordinates><sx>-4</sx><sy>-1</sy><hx>19</hx><hy>10</hy><x>-110</x><y>-70</y></Coordinates>"
    );
}

#[test]
fn parse_stellar_multi_and_inline() {
    assert_eq!(parse_stellar("G2 V M9 V M6 V").len(), 3);
    assert_eq!(parse_stellar("M0 V").len(), 1);
    assert_eq!(parse_stellar("G2V BD K5 V").len(), 2);
    assert_eq!(parse_stellar("").len(), 0);
}

#[test]
fn stellar_tokens_decode() {
    let v = parse_stellar("F7 III bd M D Kx V x9 G IV");
    assert_eq!(
        v,
        vec![
            StellarSpec { spectral: SpectralClass::F, subtype: Some(7), size: SizeClass::III },
            StellarSpec { spectral: SpectralClass::M, subtype: None, size: SizeClass::D },
            StellarSpec { spectral: SpectralClass::G, subtype: None, size: SizeClass::IV },
        ]
    );
    assert!(stellar_subtypes_fit("G255 V"));
    assert!(!stellar_subtypes_fit("K2 V G256 V"));
    assert!(stellar_subtypes_fit("x999"));
}

#[test]
fn system_shape_counts() {
    let w = World {
        hex: "3128".into(),
        name: "Noricum".into(),
        uwp: "D8867BB-1".into(),
        pbg: "503".into(),
        stellar: "G2 V M9 V M6 V".into(),
        worlds: Some(8),
        ..Default::default()
    };
    let shape = system_shape(&w).unwrap();
    assert_eq!(shape.hex, (31, 28));
    assert_eq!(shape.stars.len(), 3);
    assert_eq!((shape.belts, shape.gas_giants, shape.planets), (0, 3, 4));
    let bad = World { hex: "31".into(), ..Default::default() };
    assert_eq!(system_shape(&bad).unwrap_err(), "bad hex '31'");
    let few = World { hex: "0101".into(), pbg: "123".into(), worlds: Some(2), ..Default::default() };
    assert_eq!(system_shape(&few).unwrap().planets, 0);
    let unknown = World { hex: "0101".into(), pbg: "1".into(), ..Default::default() };
    let s = system_shape(&unknown).unwrap();
    assert_eq!((s.belts, s.gas_giants, s.planets), (0, 0, 0));
}

fn hk(kind: u8, importance: Option<i32>, ord: u32) -> HitKey {
    HitKey { kind, importance, ord }
}

#[test]
fn ranking_orders_by_importance_and_caps() {
    let keys = vec![
        hk(2, Some(1), 0),
        hk(2, Some(4), 1),
        hk(0, None, 2),
        hk(2, None, 3),
        hk(3, None, 4),
        hk(2, Some(4), 5),
        hk(7, Some(9), 6),
    ];
    // Worlds by importance (ties in index order), then the sector and label
    // (no importance) after every world with one.
    assert_eq!(rank_order(&keys, 10), vec![1, 5, 0, 2, 3, 4]);
    // Each kind is capped first: the world that survives is the best one.
    assert_eq!(rank_order(&keys, 1), vec![1]);
    assert_eq!(rank_order(&keys, 2), vec![1, 5]);
    assert_eq!(rank_order(&keys, 0), Vec::<usize>::new());
    assert_eq!(rank_order(&Vec::new(), 5), Vec::<usize>::new());
}

#[test]
fn label_placement_averages_and_scales() {
    assert_eq!(label_placement(&vec![]), None);
    // One point: the world-space origin hex of the reference sector.
    let p = label_placement(&vec![(0, 0)]).unwrap();
    assert_eq!((p.sector_x, p.sector_y, p.hex_x, p.hex_y, p.scale), (0, 0, 1, 40, 64));
    // Mean (1.5 → 2, -0.5 → -1), spread 3 → scale 64.
    let p = label_placement(&vec![(0, 0), (3, -1)]).unwrap();
    assert_eq!(p, LabelPlacement { sector_x: 0, sector_y: 0, hex_x: 3, hex_y: 39, scale: 64 });
    assert_eq!(label_placement(&vec![(0, 0), (100, 0)]).unwrap().scale, 4);
    assert_eq!(label_placement(&vec![(0, 0), (0, 50)]).unwrap().scale, 8);
    assert_eq!(label_placement(&vec![(0, 0), (21, 0)]).unwrap().scale, 32);
}

#[test]
fn label_points_group_by_text() {
    let g = group_label_points(&vec![
        ("Void".to_string(), (1, 1)),
        ("Rift".to_string(), (2, 2)),
        ("Void".to_string(), (3, 3)),
    ]);
    assert_eq!(g.len(), 2);
    assert_eq!(g[0], ("Void".to_string(), vec![(1, 1), (3, 3)]));
    assert_eq!(g[1], ("Rift".to_string(), vec![(2, 2)]));
}

#[test]
fn world_fields_lowercase_and_default_zone() {
    let w = World {
        uwp: "A788899-C".into(),
        pbg: "703".into(),
        allegiance: "ImDd".into(),
        stellar: "G2 V".into(),
        remarks: "Ri Pa".into(),
        economic: Some("(D7E+5)".into()),
        cultural: Some("[9C6D]".into()),
        ..Default::default()
    };
    let f = world_fields(&w, "Spinward Marches");
    assert_eq!(f.uwp, "a788899-c");
    assert_eq!(f.zone, "g");
    assert_eq!(f.alleg, "imdd");
    assert_eq!(f.ex, "d7e+5");
    assert_eq!(f.cx, "9c6d");
    assert_eq!(f.sector_name, "spinward marches");
    let red = World { zone: "R".into(), ..Default::default() };
    assert_eq!(world_fields(&red, "").zone, "r");
}

#[test]
fn jump_worlds_in_raster_order() {
    let placed = vec![(0, 0), (1, 0), (0, -1), (5, 5), (0, 0), (-1, 1)];
    assert_eq!(jump_world_order(Coord::new(0, 0), 1, &placed), vec![2, 0, 1]);
    assert_eq!(jump_world_order(Coord::new(0, 0), 2, &placed), vec![2, 0, 1, 5]);
    assert_eq!(jump_world_order(Coord::new(0, 0), -3, &placed), vec![0]);
    assert_eq!(jump_world_order(Coord::new(0, 0), 99, &placed), vec![2, 0, 1, 5, 3]);
}
