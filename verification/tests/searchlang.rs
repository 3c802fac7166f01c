use tmap_core::like::{like_match, soundex};
use tmap_core::searchlang::{parse_query, Clause, SearchRecord, SearchTypes, SectorHex};

#[test]
fn like_literal_anchored() {
    assert!(like_match("sol", "sol"));
    assert!(!like_match("sol", "solomani"));
    assert!(!like_match("sol", "so"));
}

#[test]
fn like_percent() {
    assert!(like_match("r%a", "regina"));
    assert!(like_match("%", "anything"));
    assert!(like_match("a%", "a"));
    assert!(like_match("%a", "a"));
    assert!(!like_match("re%in", "regina"));
    assert!(like_match("re%in%", "regina"));
    assert!(like_match("a%b%c", "axxbyyc"));
}

#[test]
fn like_underscore() {
    assert!(like_match("a_c", "abc"));
    assert!(!like_match("a_c", "ac"));
    assert!(!like_match("a_c", "abbc"));
    assert!(like_match("a788899-a", "a788899-a"));
}

#[test]
fn like_char_class() {
    assert!(like_match("[0-5]", "3"));
    assert!(!like_match("[0-5]", "7"));
    assert!(like_match("[m-z]", "q"));
    assert!(like_match("[89abc]", "b"));
    assert!(!like_match("[89abc]", "d"));
    assert!(like_match("[^a]", "b"));
    assert!(!like_match("[^a]", "a"));
    assert!(like_match("r[ae]gina", "regina"));
}

#[test]
fn soundex_examples() {
    assert_eq!(soundex("Terra"), "T600");
    assert_eq!(soundex("tear"), "T600");
    assert_eq!(soundex("Robert"), "R163");
    assert_eq!(soundex("Rupert"), "R163");
    assert_eq!(soundex("Tymm"), "T500");
    assert_eq!(soundex("Honeyman"), "H555");
}

#[test]
fn parse_default_word_boundary() {
    let pq = parse_query("sol", SearchTypes::all_kinds());
    assert_eq!(pq.clauses, vec![Clause::NameWordBoundary("sol".into())]);
    assert!(pq.types.worlds && pq.types.sectors);
}

#[test]
fn parse_wildcard_full_like() {
    let pq = parse_query("re%in", SearchTypes::all_kinds());
    assert_eq!(pq.clauses, vec![Clause::NameLike("re%in".into())]);
}

#[test]
fn parse_ops() {
    let pq = parse_query("uwp:a%", SearchTypes::all_kinds());
    assert_eq!(pq.clauses, vec![Clause::Uwp("a%".into())]);
    assert_eq!(pq.types, SearchTypes::only_worlds());

    let pq = parse_query("t% in:spin", SearchTypes::all_kinds());
    assert_eq!(pq.clauses, vec![Clause::NameLike("t%".into()), Clause::InSector("spin".into())]);
    assert_eq!(pq.types, SearchTypes::only_worlds());
}

#[test]
fn parse_exact_and_like() {
    let pq = parse_query("exact:sol", SearchTypes::all_kinds());
    assert_eq!(pq.clauses, vec![Clause::NameLike("sol".into())]);
    let pq = parse_query("like:tear", SearchTypes::all_kinds());
    assert_eq!(pq.clauses, vec![Clause::NameSoundex("tear".into())]);
}

#[test]
fn parse_quoted() {
    let pq = parse_query("in:\"solomani rim\"", SearchTypes::all_kinds());
    assert_eq!(pq.clauses, vec![Clause::InSector("solomani rim".into())]);
    let pq = parse_query("stellar:\"m? i*\"", SearchTypes::all_kinds());
    assert_eq!(pq.clauses, vec![Clause::Stellar("m? i*".into())]);
}

#[test]
fn parse_multi_word_and() {
    let pq = parse_query("so ri", SearchTypes::all_kinds());
    assert_eq!(pq.clauses, vec![Clause::NameWordBoundary("so".into()), Clause::NameWordBoundary("ri".into())]);
}

#[test]
fn parse_type_keywords() {
    let pq = parse_query("sol sector", SearchTypes::all_kinds());
    assert_eq!(pq.clauses, vec![Clause::NameWordBoundary("sol".into())]);
    assert_eq!(pq.types, SearchTypes::only_sectors());
}

#[test]
fn parse_sector_hex_shortcut() {
    let pq = parse_query("spinward marches 1910", SearchTypes::all_kinds());
    assert_eq!(pq.types, SearchTypes::only_worlds());
    assert_eq!(pq.sector_hex, Some(SectorHex { sector_prefix: "spinward marches".into(), hex_x: 19, hex_y: 10 }));
    assert!(parse_query("ab 1910", SearchTypes::all_kinds()).sector_hex.is_none());
    assert!(parse_query("spinward 19", SearchTypes::all_kinds()).sector_hex.is_none());
}

#[test]
fn token_match_stellar() {
    let rec = SearchRecord {
        name: "",
        uwp: "",
        pbg: "",
        zone: "",
        alleg: "",
        stellar: "m9 v",
        remarks: "",
        ex: "",
        cx: "",
        ix: None,
        sector_name: "",
    };
    assert!(Clause::Stellar("m9".into()).matches(&rec));
    assert!(Clause::Stellar("v".into()).matches(&rec));
    assert!(Clause::Stellar("m_".into()).matches(&rec));
    assert!(!Clause::Stellar("m".into()).matches(&rec));
}

fn record<'a>(name: &'a str, sector: &'a str) -> SearchRecord<'a> {
    SearchRecord {
        name,
        uwp: "a788899-c",
        pbg: "703",
        zone: "",
        alleg: "imdd",
        stellar: "g2 v",
        remarks: "ri pa ph an cp",
        ex: "d7e+5",
        cx: "9c6d",
        ix: Some(4),
        sector_name: sector,
    }
}

#[test]
fn clauses_match_records() {
    let regina = record("regina", "spinward marches");
    assert!(Clause::NameWordBoundary("reg".into()).matches(&regina));
    assert!(!Clause::NameWordBoundary("gina".into()).matches(&regina));
    assert!(Clause::NameWordBoundary("rim".into()).matches(&record("solomani rim", "x")));
    assert!(Clause::NameSoundex("rejina".into()).matches(&regina));
    assert!(Clause::Uwp("a7%".into()).matches(&regina));
    assert!(Clause::Ix(4).matches(&regina));
    assert!(!Clause::Ix(3).matches(&regina));
    assert!(Clause::Remark("cp".into()).matches(&regina));
    assert!(!Clause::Remark("c".into()).matches(&regina));
    assert!(Clause::InSector("ward".into()).matches(&regina));
}

#[test]
fn query_text_is_trimmed_and_lowercased() {
    let pq = parse_query("  Regina  ", SearchTypes::all_kinds());
    assert_eq!(pq.clauses, vec![Clause::NameWordBoundary("regina".into())]);
    let pq = parse_query("   ", SearchTypes::only_sectors());
    assert!(pq.clauses.is_empty());
    assert_eq!(pq.types, SearchTypes::only_sectors());
}

#[test]
fn ix_op_parses_integers() {
    let pq = parse_query("ix:-2", SearchTypes::all_kinds());
    assert_eq!(pq.clauses, vec![Clause::Ix(-2)]);
    let pq = parse_query("ix:x", SearchTypes::all_kinds());
    assert_eq!(pq.clauses, vec![Clause::Ix(i32::MIN)]);
}

#[test]
fn subsector_and_world_keywords() {
    assert_eq!(parse_query("subsector", SearchTypes::all_kinds()).types, SearchTypes::only_subsectors());
    assert_eq!(parse_query("world", SearchTypes::all_kinds()).types, SearchTypes::only_worlds());
    assert_eq!(SearchTypes::no_kinds().worlds, false);
}
