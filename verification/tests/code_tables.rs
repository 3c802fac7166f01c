use tmap_core::code_tables::{allegiance_listing, canonical_milieux, sophont_listing};

const MILIEU_TAB: &str = "Path\tTags\n\
M1105/Spinward Marches.xml\tOTU\n\
IW/Ley Sector.xml\tOTU\n\
M1105/Deneb.xml\tOTU\n\
M0/Core.xml\t\n\
M600/Core.xml\t\n\
M990/Core.xml\t\n\
Deepnight/Sector.xml\tDN\n\
M1120/Core.xml\t\n\
M1201/Core.xml\t\n\
Orion OB1/Sector.xml\t\n\
M1248/Core.xml\t\n\
M/Odd.xml\t\n\
M19x0/Odd.xml\t\n\
M1900/Core.xml\t\n\
IW/Other.xml\t\n";

#[test]
fn milieux_match_live_order() {
    assert_eq!(
        canonical_milieux(MILIEU_TAB),
        ["M1105", "IW", "M0", "M600", "M990", "M1120", "M1201", "M1248", "M1900"]
    );
    assert!(canonical_milieux("").is_empty());
    assert!(canonical_milieux("Path\tTags").is_empty());
}

#[test]
fn allegiance_listing_sorted_with_stock() {
    let tab = "Code\tLegacy\tBaseCode\tName\tLocation\n\
               ImDd\tIm\tIm\tThird Imperium, Domain of Deneb\tSpinward Marches\n\
               \tXx\t\tNo code\t\n\
               AsMw\tAs\tAs\tAslan Hierate\n\
               Zh\tZh";
    let list = allegiance_listing(tab);
    assert_eq!(list.len(), 3 + 16);
    let codes: Vec<&str> = list.iter().map(|a| a.code.as_str()).collect();
    let mut sorted = codes.clone();
    sorted.sort();
    assert_eq!(codes, sorted);
    let im = list.iter().find(|a| a.code == "ImDd").unwrap();
    assert_eq!(
        (im.legacy_code.as_str(), im.name.as_str(), im.location.as_str()),
        ("Im", "Third Imperium, Domain of Deneb", "Spinward Marches")
    );
    let aslan = list.iter().find(|a| a.code == "AsMw").unwrap();
    assert_eq!(aslan.location, "");
    let zh = list.iter().find(|a| a.code == "Zh").unwrap();
    assert_eq!((zh.legacy_code.as_str(), zh.name.as_str()), ("Zh", ""));
    let arden = list.iter().find(|a| a.code == "FdAr").unwrap();
    assert_eq!((arden.legacy_code.as_str(), arden.name.as_str(), arden.location.as_str()), ("Fa", "Federation of Arden", ""));
    assert_eq!(list[0].code, "AsMw");
    assert_eq!(list.last().unwrap().code, "ZiSi");
    assert_eq!(allegiance_listing("").len(), 16);
}

#[test]
fn sophont_listing_sorted() {
    let tab = "Code\tName\tLocation\nVarg\tVargr\tGvurrdon\nAslan\tAslan\tHierate\n\tNone\t\nHive\tHiver";
    let list = sophont_listing(tab);
    let codes: Vec<&str> = list.iter().map(|s| s.code.as_str()).collect();
    assert_eq!(codes, vec!["Aslan", "Hive", "Varg"]);
    assert_eq!(list[1].location, "");
    assert_eq!(list[2].name, "Vargr");
}
