use tmap_core::astrometrics::{location_to_coordinates, Coord};
use tmap_core::compat::{
    wants_xml, bad_callback_message, reply_kind, resolve_coordinates, script_body, CoordinatesError, CoordinatesQuery,
    ReplyKind,
};
use tmap_core::dto::{SectorIndexEntry, Subsector};

fn sector(name: &str, abbr: Option<&str>, x: i32, y: i32) -> SectorIndexEntry {
    SectorIndexEntry {
        name: name.into(),
        abbreviation: abbr.map(|a| a.to_string()),
        location: Coord::new(x, y),
        names: Vec::new(),
        tags: String::new(),
        data_file: None,
        data_format: None,
        metadata_file: None,
        milieu: None,
        metafile_tag: None,
    }
}

fn universe() -> Vec<SectorIndexEntry> {
    vec![sector("Deneb", Some("Dene"), -3, -1), sector("Spinward Marches", Some("Spin"), -4, -1)]
}

fn subsectors() -> Vec<Subsector> {
    vec![
        Subsector { index: "A".into(), name: "Cronor".into() },
        Subsector { index: "C".into(), name: "Regina".into() },
        Subsector { index: "D".into(), name: String::new() },
    ]
}

fn resolve(q: CoordinatesQuery) -> Result<(i32, i32, i32, i32), CoordinatesError> {
    resolve_coordinates(&universe(), &q, &subsectors())
}

fn coords(q: CoordinatesQuery) -> (i32, i32, i32, i32, i32, i32) {
    let (sx, sy, hx, hy) = resolve(q).expect("resolves");
    let (x, y) = location_to_coordinates(sx, sy, hx, hy);
    (sx, sy, hx, hy, x, y)
}

#[test]
fn coordinates_match_live_api() {
    assert_eq!(
        coords(CoordinatesQuery {
            sector: Some("Spinward Marches".into()),
            hex: Some("1910".into()),
            ..CoordinatesQuery::default()
        }),
        (-4, -1, 19, 10, -110, -70)
    );
    assert_eq!(
        coords(CoordinatesQuery { sector: Some("Spin".into()), hex: Some("1910".into()), ..CoordinatesQuery::default() }),
        (-4, -1, 19, 10, -110, -70)
    );
    assert_eq!(
        coords(CoordinatesQuery { x: Some(-110), y: Some(-70), ..CoordinatesQuery::default() }),
        (-4, -1, 19, 10, -110, -70)
    );
    assert_eq!(
        coords(CoordinatesQuery {
            sector: Some("Spinward Marches".into()),
            subsector: Some("C".into()),
            ..CoordinatesQuery::default()
        }),
        (-4, -1, 20, 5, -109, -75)
    );
}

#[test]
fn coordinates_errors_are_clean() {
    let none = resolve(CoordinatesQuery::default()).unwrap_err();
    assert_eq!(none, CoordinatesError::Unspecified);
    assert_eq!(none.status(), 400);
    let bad = resolve(CoordinatesQuery { sector: Some("Nonesuch".into()), ..CoordinatesQuery::default() }).unwrap_err();
    assert_eq!(bad.status(), 404);
    assert_eq!(bad.message(), "The specified sector 'Nonesuch' was not found.");
}

#[test]
fn coordinates_grid_and_missing_hex() {
    assert_eq!(
        resolve(CoordinatesQuery { sx: Some(-4), sy: Some(-1), hx: Some(19), ..CoordinatesQuery::default() }),
        Ok((-4, -1, 19, 0))
    );
    // No hex: the number 0, so hex (0, 0).
    assert_eq!(resolve(CoordinatesQuery { sector: Some("deneb".into()), ..CoordinatesQuery::default() }), Ok((-3, -1, 0, 0)));
    // A hex that is no number counts as 0 too.
    assert_eq!(
        resolve(CoordinatesQuery { sector: Some("Dene".into()), hex: Some("x1".into()), ..CoordinatesQuery::default() }),
        Ok((-3, -1, 0, 0))
    );
    // A negative number divides toward zero.
    assert_eq!(
        resolve(CoordinatesQuery { sector: Some("Dene".into()), hex: Some("-1910".into()), ..CoordinatesQuery::default() }),
        Ok((-3, -1, -19, -10))
    );
    // A sector takes precedence over a grid position.
    assert_eq!(
        resolve(CoordinatesQuery {
            sector: Some("Deneb".into()),
            hex: Some("0101".into()),
            sx: Some(0),
            sy: Some(0),
            ..CoordinatesQuery::default()
        }),
        Ok((-3, -1, 1, 1))
    );
}

#[test]
fn coordinates_subsector_by_name_or_letter() {
    let q = |s: &str| CoordinatesQuery { sector: Some("Spin".into()), subsector: Some(s.into()), ..CoordinatesQuery::default() };
    assert_eq!(resolve(q("regina")), Ok((-4, -1, 20, 5)));
    assert_eq!(resolve(q("p")), Ok((-4, -1, 28, 35)));
    assert_eq!(resolve(q("Cronor")), Ok((-4, -1, 4, 5)));
    // An empty name finds the unnamed subsector D.
    assert_eq!(resolve(q("")), Ok((-4, -1, 28, 5)));
    let missing = resolve(q("Nowhere")).unwrap_err();
    assert_eq!(missing, CoordinatesError::SubsectorNotFound("Nowhere".into()));
    assert_eq!(missing.message(), "The specified subsector 'Nowhere' was not found.");
    assert_eq!(missing.status(), 404);
    assert!(CoordinatesError::Unspecified.message().starts_with("Must specify either sector name"));
}

#[test]
fn negotiation_picks_jsonp_then_xml_then_json() {
    assert_eq!(reply_kind(&Some("cb".into()), true), ReplyKind::Script);
    assert_eq!(reply_kind(&Some("alert(1)".into()), false), ReplyKind::BadCallback);
    assert_eq!(reply_kind(&Some(String::new()), true), ReplyKind::BadCallback);
    assert_eq!(reply_kind(&None, true), ReplyKind::Xml);
    assert_eq!(reply_kind(&None, false), ReplyKind::Json);
    assert_eq!(script_body("cb", "{\"x\":1}"), "cb({\"x\":1});");
    assert_eq!(bad_callback_message(), "the jsonp parameter must be a simple script identifier");
}

#[test]
fn accept_header_asks_for_xml() {
    assert!(wants_xml(Some("text/xml")));
    assert!(wants_xml(Some("application/json, application/xml;q=0.9")));
    assert!(!wants_xml(Some("application/json")));
    assert!(!wants_xml(Some("xm")));
    assert!(!wants_xml(Some("")));
    assert!(!wants_xml(None));
}
