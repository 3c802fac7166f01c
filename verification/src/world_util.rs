//! Decoders for the world data sheet: turn a [`World`]'s terse Second Survey
//! fields (UWP, PBG, remarks, extensions, stellar data, …) into readable text.
//!
//! The wording of every table here is part of the data sheet and is kept
//! exactly as the sheet shows it.
use vstd::prelude::*;

use crate::dto::World;
use crate::like::{ascii_upper, upper_ascii};
use crate::text::{chars_of, string_from_chars, str_eq, opt_str_view, nat_digits, int_decimal, int_to_string, with_commas,
    number_with_commas, spec_parse_in, parse_int_chars, unwrap_delimited, unwrap_delimited_chars, minus_signs,
    with_minus_signs, slice_to_vec, split_on, split_chars, trim, trim_chars, lemma_split_on_len, ws_tokens, split_ws, is_ws,
    is_whitespace, cat, push_str_chars};

verus! {

/// The value of an eHex digit (`0-9`, then `A-H`, `J-N`, `P-W`: `I` and `O`
/// are skipped), case-insensitive, or `-1` for any other character.
pub open spec fn ehex_value(c: char) -> int {
    let u = ascii_upper(c);
    if '0' <= u && u <= '9' {
        u as int - '0' as int
    } else if 'A' <= u && u <= 'H' {
        u as int - 'A' as int + 10
    } else if 'J' <= u && u <= 'N' {
        u as int - 'J' as int + 18
    } else if 'P' <= u && u <= 'W' {
        u as int - 'P' as int + 23
    } else {
        -1
    }
}

/// The eHex digit value of `c`, or `-1` when `c` is not an eHex digit.
pub fn from_hex(c: char) -> (v: i32)
    ensures
        v == ehex_value(c),
        -1 <= v <= 30,
{
    let u = upper_ascii(c);
    if '0' <= u && u <= '9' {
        (u as u32 - '0' as u32) as i32
    } else if 'A' <= u && u <= 'H' {
        (u as u32 - 'A' as u32 + 10) as i32
    } else if 'J' <= u && u <= 'N' {
        (u as u32 - 'J' as u32 + 18) as i32
    } else if 'P' <= u && u <= 'W' {
        (u as u32 - 'P' as u32 + 23) as i32
    } else {
        -1
    }
}

// ── Single-glyph and code tables ────────────────────────────────────────────

/// Starport class.
pub open spec fn starport_text(c: char) -> Option<Seq<char>> {
    match c {
        'A' => Some("Excellent"@),
        'B' => Some("Good"@),
        'C' => Some("Routine"@),
        'D' => Some("Poor"@),
        'E' => Some("Frontier Installation"@),
        'X' => Some("None or Unknown"@),
        'F' => Some("Good"@),
        'G' => Some("Poor"@),
        'H' => Some("Primitive"@),
        'Y' => Some("None"@),
        '?' => Some("Unknown"@),
        _ => None,
    }
}

fn starport_blurb(c: char) -> (r: Option<&'static str>)
    ensures
        opt_str_view(r) == starport_text(c),
{
    match c {
        'A' => Some("Excellent"),
        'B' => Some("Good"),
        'C' => Some("Routine"),
        'D' => Some("Poor"),
        'E' => Some("Frontier Installation"),
        'X' => Some("None or Unknown"),
        'F' => Some("Good"),
        'G' => Some("Poor"),
        'H' => Some("Primitive"),
        'Y' => Some("None"),
        '?' => Some("Unknown"),
        _ => None,
    }
}

/// World size.
pub open spec fn size_text(c: char) -> Option<Seq<char>> {
    match c {
        '0' => Some("Asteroid Belt"@),
        'S' => Some("Small World"@),
        '1' => Some("1,600km (0.12g)"@),
        '2' => Some("3,200km (0.25g)"@),
        '3' => Some("4,800km (0.38g)"@),
        '4' => Some("6,400km (0.50g)"@),
        '5' => Some("8,000km (0.63g)"@),
        '6' => Some("9,600km (0.75g)"@),
        '7' => Some("11,200km (0.88g)"@),
        '8' => Some("12,800km (1.0g)"@),
        '9' => Some("14,400km (1.12g)"@),
        'A' => Some("16,000km (1.25g)"@),
        'B' => Some("17,600km (1.38g)"@),
        'C' => Some("19,200km (1.50g)"@),
        'D' => Some("20,800km (1.63g)"@),
        'E' => Some("22,400km (1.75g)"@),
        'F' => Some("24,000km (2.0g)"@),
        'X' => Some("Unknown"@),
        '?' => Some("Unknown"@),
        _ => None,
    }
}

fn siz_blurb(c: char) -> (r: Option<&'static str>)
    ensures
        opt_str_view(r) == size_text(c),
{
    match c {
        '0' => Some("Asteroid Belt"),
        'S' => Some("Small World"),
        '1' => Some("1,600km (0.12g)"),
        '2' => Some("3,200km (0.25g)"),
        '3' => Some("4,800km (0.38g)"),
        '4' => Some("6,400km (0.50g)"),
        '5' => Some("8,000km (0.63g)"),
        '6' => Some("9,600km (0.75g)"),
        '7' => Some("11,200km (0.88g)"),
        '8' => Some("12,800km (1.0g)"),
        '9' => Some("14,400km (1.12g)"),
        'A' => Some("16,000km (1.25g)"),
        'B' => Some("17,600km (1.38g)"),
        'C' => Some("19,200km (1.50g)"),
        'D' => Some("20,800km (1.63g)"),
        'E' => Some("22,400km (1.75g)"),
        'F' => Some("24,000km (2.0g)"),
        'X' => Some("Unknown"),
        '?' => Some("Unknown"),
        _ => None,
    }
}

/// Atmosphere.
pub open spec fn atmosphere_text(c: char) -> Option<Seq<char>> {
    match c {
        '0' => Some("No atmosphere"@),
        '1' => Some("Trace"@),
        '2' => Some("Very thin; Tainted"@),
        '3' => Some("Very thin"@),
        '4' => Some("Thin; Tainted"@),
        '5' => Some("Thin"@),
        '6' => Some("Standard"@),
        '7' => Some("Standard; Tainted"@),
        '8' => Some("Dense"@),
        '9' => Some("Dense; Tainted"@),
        'A' => Some("Exotic"@),
        'B' => Some("Corrosive"@),
        'C' => Some("Insidious"@),
        'D' => Some("Dense, high"@),
        'E' => Some("Thin, low"@),
        'F' => Some("Unusual"@),
        'X' => Some("Unknown"@),
        '?' => Some("Unknown"@),
        _ => None,
    }
}

fn atm_blurb(c: char) -> (r: Option<&'static str>)
    ensures
        opt_str_view(r) == atmosphere_text(c),
{
    match c {
        '0' => Some("No atmosphere"),
        '1' => Some("Trace"),
        '2' => Some("Very thin; Tainted"),
        '3' => Some("Very thin"),
        '4' => Some("Thin; Tainted"),
        '5' => Some("Thin"),
        '6' => Some("Standard"),
        '7' => Some("Standard; Tainted"),
        '8' => Some("Dense"),
        '9' => Some("Dense; Tainted"),
        'A' => Some("Exotic"),
        'B' => Some("Corrosive"),
        'C' => Some("Insidious"),
        'D' => Some("Dense, high"),
        'E' => Some("Thin, low"),
        'F' => Some("Unusual"),
        'X' => Some("Unknown"),
        '?' => Some("Unknown"),
        _ => None,
    }
}

/// Hydrographics.
pub open spec fn hydrographics_text(c: char) -> Option<Seq<char>> {
    match c {
        '0' => Some("Desert World"@),
        '1' => Some("10%"@),
        '2' => Some("20%"@),
        '3' => Some("30%"@),
        '4' => Some("40%"@),
        '5' => Some("50%"@),
        '6' => Some("60%"@),
        '7' => Some("70%"@),
        '8' => Some("80%"@),
        '9' => Some("90%"@),
        'A' => Some("Water World"@),
        'X' => Some("Unknown"@),
        '?' => Some("Unknown"@),
        _ => None,
    }
}

fn hyd_blurb(c: char) -> (r: Option<&'static str>)
    ensures
        opt_str_view(r) == hydrographics_text(c),
{
    match c {
        '0' => Some("Desert World"),
        '1' => Some("10%"),
        '2' => Some("20%"),
        '3' => Some("30%"),
        '4' => Some("40%"),
        '5' => Some("50%"),
        '6' => Some("60%"),
        '7' => Some("70%"),
        '8' => Some("80%"),
        '9' => Some("90%"),
        'A' => Some("Water World"),
        'X' => Some("Unknown"),
        '?' => Some("Unknown"),
        _ => None,
    }
}

/// Population exponent (also the labor digit of `(Ex)`).
pub open spec fn population_text(c: char) -> Option<Seq<char>> {
    match c {
        '0' => Some("Unpopulated"@),
        '1' => Some("Tens"@),
        '2' => Some("Hundreds"@),
        '3' => Some("Thousands"@),
        '4' => Some("Tens of thousands"@),
        '5' => Some("Hundreds of thousands"@),
        '6' => Some("Millions"@),
        '7' => Some("Tens of millions"@),
        '8' => Some("Hundreds of millions"@),
        '9' => Some("Billions"@),
        'A' => Some("Tens of billions"@),
        'B' => Some("Hundreds of billions"@),
        'C' => Some("Trillions"@),
        'D' => Some("Tens of trillions"@),
        'E' => Some("Hundreds of tillions"@),
        'F' => Some("Quadrillions"@),
        'X' => Some("Unknown"@),
        '?' => Some("Unknown"@),
        _ => None,
    }
}

fn pop_blurb(c: char) -> (r: Option<&'static str>)
    ensures
        opt_str_view(r) == population_text(c),
{
    match c {
        '0' => Some("Unpopulated"),
        '1' => Some("Tens"),
        '2' => Some("Hundreds"),
        '3' => Some("Thousands"),
        '4' => Some("Tens of thousands"),
        '5' => Some("Hundreds of thousands"),
        '6' => Some("Millions"),
        '7' => Some("Tens of millions"),
        '8' => Some("Hundreds of millions"),
        '9' => Some("Billions"),
        'A' => Some("Tens of billions"),
        'B' => Some("Hundreds of billions"),
        'C' => Some("Trillions"),
        'D' => Some("Tens of trillions"),
        'E' => Some("Hundreds of tillions"),
        'F' => Some("Quadrillions"),
        'X' => Some("Unknown"),
        '?' => Some("Unknown"),
        _ => None,
    }
}

/// Government type.
pub open spec fn government_text(c: char) -> Option<Seq<char>> {
    match c {
        '0' => Some("No Government Structure"@),
        '1' => Some("Company/Corporation"@),
        '2' => Some("Participating Democracy"@),
        '3' => Some("Self-Perpetuating Oligarchy"@),
        '4' => Some("Representative Democracy"@),
        '5' => Some("Feudal Technocracy"@),
        '6' => Some("Captive Government / Colony"@),
        '7' => Some("Balkanization"@),
        '8' => Some("Civil Service Bureaucracy"@),
        '9' => Some("Impersonal Bureaucracy"@),
        'A' => Some("Charismatic Dictator"@),
        'B' => Some("Non-Charismatic Dictator"@),
        'C' => Some("Charismatic Oligarchy"@),
        'D' => Some("Religious Dictatorship"@),
        'E' => Some("Religious Autocracy"@),
        'F' => Some("Totalitarian Oligarchy"@),
        'X' => Some("Unknown"@),
        '?' => Some("Unknown"@),
        'G' => Some("Small Station or Facility"@),
        'H' => Some("Split Clan Control"@),
        'J' => Some("Single On-world Clan Control"@),
        'K' => Some("Single Multi-world Clan Control"@),
        'L' => Some("Major Clan Control"@),
        'M' => Some("Vassal Clan Control"@),
        'N' => Some("Major Vassal Clan Control"@),
        'P' => Some("Small Station or Facility"@),
        'Q' => Some("Krurruna or Krumanak Rule for Off-world Steppelord"@),
        'R' => Some("Steppelord On-world Rule"@),
        'S' => Some("Sept"@),
        'T' => Some("Unsupervised Anarchy"@),
        'U' => Some("Supervised Anarchy"@),
        'W' => Some("Committee"@),
        _ => None,
    }
}

fn gov_blurb(c: char) -> (r: Option<&'static str>)
    ensures
        opt_str_view(r) == government_text(c),
{
    match c {
        '0' => Some("No Government Structure"),
        '1' => Some("Company/Corporation"),
        '2' => Some("Participating Democracy"),
        '3' => Some("Self-Perpetuating Oligarchy"),
        '4' => Some("Representative Democracy"),
        '5' => Some("Feudal Technocracy"),
        '6' => Some("Captive Government / Colony"),
        '7' => Some("Balkanization"),
        '8' => Some("Civil Service Bureaucracy"),
        '9' => Some("Impersonal Bureaucracy"),
        'A' => Some("Charismatic Dictator"),
        'B' => Some("Non-Charismatic Dictator"),
        'C' => Some("Charismatic Oligarchy"),
        'D' => Some("Religious Dictatorship"),
        'E' => Some("Religious Autocracy"),
        'F' => Some("Totalitarian Oligarchy"),
        'X' => Some("Unknown"),
        '?' => Some("Unknown"),
        'G' => Some("Small Station or Facility"),
        'H' => Some("Split Clan Control"),
        'J' => Some("Single On-world Clan Control"),
        'K' => Some("Single Multi-world Clan Control"),
        'L' => Some("Major Clan Control"),
        'M' => Some("Vassal Clan Control"),
        'N' => Some("Major Vassal Clan Control"),
        'P' => Some("Small Station or Facility"),
        'Q' => Some("Krurruna or Krumanak Rule for Off-world Steppelord"),
        'R' => Some("Steppelord On-world Rule"),
        'S' => Some("Sept"),
        'T' => Some("Unsupervised Anarchy"),
        'U' => Some("Supervised Anarchy"),
        'W' => Some("Committee"),
        _ => None,
    }
}

/// Law level.
pub open spec fn law_text(c: char) -> Option<Seq<char>> {
    match c {
        '0' => Some("No prohibitions"@),
        '1' => Some("Body pistols, explosives, and poison gas prohibited"@),
        '2' => Some("Portable energy weapons prohibited"@),
        '3' => Some("Machine guns, automatic rifles prohibited"@),
        '4' => Some("Light assault weapons prohibited"@),
        '5' => Some("Personal concealable weapons prohibited"@),
        '6' => Some("All firearms except shotguns prohibited"@),
        '7' => Some("Shotguns prohibited"@),
        '8' => Some("Long bladed weapons controlled; open possession prohibited"@),
        '9' => Some("Possession of weapons outside the home prohibited"@),
        'A' => Some("Weapon possession prohibited"@),
        'B' => Some("Rigid control of civilian movement"@),
        'C' => Some("Unrestricted invasion of privacy"@),
        'D' => Some("Paramilitary law enforcement"@),
        'E' => Some("Full-fledged police state"@),
        'F' => Some("All facets of daily life regularly legislated and controlled"@),
        'G' => Some("Severe punishment for petty infractions"@),
        'H' => Some("Legalized oppressive practices"@),
        'J' => Some("Routinely oppressive and restrictive"@),
        'K' => Some("Excessively oppressive and restrictive"@),
        'L' => Some("Totally oppressive and restrictive"@),
        'S' => Some("Special/Variable situation"@),
        'X' => Some("Unknown"@),
        '?' => Some("Unknown"@),
        _ => None,
    }
}

fn law_blurb(c: char) -> (r: Option<&'static str>)
    ensures
        opt_str_view(r) == law_text(c),
{
    match c {
        '0' => Some("No prohibitions"),
        '1' => Some("Body pistols, explosives, and poison gas prohibited"),
        '2' => Some("Portable energy weapons prohibited"),
        '3' => Some("Machine guns, automatic rifles prohibited"),
        '4' => Some("Light assault weapons prohibited"),
        '5' => Some("Personal concealable weapons prohibited"),
        '6' => Some("All firearms except shotguns prohibited"),
        '7' => Some("Shotguns prohibited"),
        '8' => Some("Long bladed weapons controlled; open possession prohibited"),
        '9' => Some("Possession of weapons outside the home prohibited"),
        'A' => Some("Weapon possession prohibited"),
        'B' => Some("Rigid control of civilian movement"),
        'C' => Some("Unrestricted invasion of privacy"),
        'D' => Some("Paramilitary law enforcement"),
        'E' => Some("Full-fledged police state"),
        'F' => Some("All facets of daily life regularly legislated and controlled"),
        'G' => Some("Severe punishment for petty infractions"),
        'H' => Some("Legalized oppressive practices"),
        'J' => Some("Routinely oppressive and restrictive"),
        'K' => Some("Excessively oppressive and restrictive"),
        'L' => Some("Totally oppressive and restrictive"),
        'S' => Some("Special/Variable situation"),
        'X' => Some("Unknown"),
        '?' => Some("Unknown"),
        _ => None,
    }
}

/// Tech level.
pub open spec fn tech_text(c: char) -> Option<Seq<char>> {
    match c {
        '0' => Some("Stone Age"@),
        '1' => Some("Bronze, Iron"@),
        '2' => Some("Printing Press"@),
        '3' => Some("Basic Science"@),
        '4' => Some("External Combustion"@),
        '5' => Some("Mass Production"@),
        '6' => Some("Nuclear Power"@),
        '7' => Some("Miniaturized Electronics"@),
        '8' => Some("Quality Computers"@),
        '9' => Some("Anti-Gravity"@),
        'A' => Some("Interstellar community"@),
        'B' => Some("Lower Average Imperial"@),
        'C' => Some("Average Imperial"@),
        'D' => Some("Above Average Imperial"@),
        'E' => Some("Above Average Imperial"@),
        'F' => Some("Technical Imperial Maximum"@),
        'G' => Some("Robots"@),
        'H' => Some("Artificial Intelligence"@),
        'J' => Some("Personal Disintegrators"@),
        'K' => Some("Plastic Metals"@),
        'L' => Some("Comprehensible only as technological magic"@),
        'X' => Some("Unknown"@),
        '?' => Some("Unknown"@),
        _ => None,
    }
}

fn tech_blurb(c: char) -> (r: Option<&'static str>)
    ensures
        opt_str_view(r) == tech_text(c),
{
    match c {
        '0' => Some("Stone Age"),
        '1' => Some("Bronze, Iron"),
        '2' => Some("Printing Press"),
        '3' => Some("Basic Science"),
        '4' => Some("External Combustion"),
        '5' => Some("Mass Production"),
        '6' => Some("Nuclear Power"),
        '7' => Some("Miniaturized Electronics"),
        '8' => Some("Quality Computers"),
        '9' => Some("Anti-Gravity"),
        'A' => Some("Interstellar community"),
        'B' => Some("Lower Average Imperial"),
        'C' => Some("Average Imperial"),
        'D' => Some("Above Average Imperial"),
        'E' => Some("Above Average Imperial"),
        'F' => Some("Technical Imperial Maximum"),
        'G' => Some("Robots"),
        'H' => Some("Artificial Intelligence"),
        'J' => Some("Personal Disintegrators"),
        'K' => Some("Plastic Metals"),
        'L' => Some("Comprehensible only as technological magic"),
        'X' => Some("Unknown"),
        '?' => Some("Unknown"),
        _ => None,
    }
}

/// Resources digit of `(Ex)`.
pub open spec fn resources_text(c: char) -> Option<Seq<char>> {
    match c {
        '2' | '3' => Some("Very scarce"@),
        '4' | '5' => Some("Scarce"@),
        '6' | '7' => Some("Few"@),
        '8' | '9' => Some("Moderate"@),
        'A' | 'B' => Some("Abundant"@),
        'C' | 'D' => Some("Very abundant"@),
        'E' | 'F' | 'G' | 'H' | 'J' => Some("Extremely abundant"@),
        '?' => Some("Unknown"@),
        _ => None,
    }
}

fn ex_resources_blurb(c: char) -> (r: Option<&'static str>)
    ensures
        opt_str_view(r) == resources_text(c),
{
    match c {
        '2' | '3' => Some("Very scarce"),
        '4' | '5' => Some("Scarce"),
        '6' | '7' => Some("Few"),
        '8' | '9' => Some("Moderate"),
        'A' | 'B' => Some("Abundant"),
        'C' | 'D' => Some("Very abundant"),
        'E' | 'F' | 'G' | 'H' | 'J' => Some("Extremely abundant"),
        '?' => Some("Unknown"),
        _ => None,
    }
}

/// Infrastructure digit of `(Ex)`.
pub open spec fn infrastructure_text(c: char) -> Option<Seq<char>> {
    match c {
        '0' => Some("Non-existent"@),
        '1' | '2' => Some("Extremely limited"@),
        '3' | '4' => Some("Very limited"@),
        '5' | '6' => Some("Limited"@),
        '7' | '8' => Some("Generally available"@),
        '9' | 'A' => Some("Extensive"@),
        'B' | 'C' => Some("Very extensive"@),
        'D' | 'E' => Some("Comprehensive"@),
        'F' | 'G' | 'H' => Some("Very comprehensive"@),
        '?' => Some("Unknown"@),
        _ => None,
    }
}

fn ex_infrastructure_blurb(c: char) -> (r: Option<&'static str>)
    ensures
        opt_str_view(r) == infrastructure_text(c),
{
    match c {
        '0' => Some("Non-existent"),
        '1' | '2' => Some("Extremely limited"),
        '3' | '4' => Some("Very limited"),
        '5' | '6' => Some("Limited"),
        '7' | '8' => Some("Generally available"),
        '9' | 'A' => Some("Extensive"),
        'B' | 'C' => Some("Very extensive"),
        'D' | 'E' => Some("Comprehensive"),
        'F' | 'G' | 'H' => Some("Very comprehensive"),
        '?' => Some("Unknown"),
        _ => None,
    }
}

/// Heterogeneity digit of `[Cx]`.
pub open spec fn heterogeneity_text(c: char) -> Option<Seq<char>> {
    match c {
        '0' => Some("N/A"@),
        '1' | '2' | '3' => Some("Monolithic"@),
        '4' | '5' | '6' => Some("Harmonious"@),
        '7' | '8' | '9' | 'A' | 'B' => Some("Discordant"@),
        'C' | 'D' | 'E' | 'F' | 'G' => Some("Fragmented"@),
        '?' => Some("Unknown"@),
        _ => None,
    }
}

fn cx_heterogeneity_blurb(c: char) -> (r: Option<&'static str>)
    ensures
        opt_str_view(r) == heterogeneity_text(c),
{
    match c {
        '0' => Some("N/A"),
        '1' | '2' | '3' => Some("Monolithic"),
        '4' | '5' | '6' => Some("Harmonious"),
        '7' | '8' | '9' | 'A' | 'B' => Some("Discordant"),
        'C' | 'D' | 'E' | 'F' | 'G' => Some("Fragmented"),
        '?' => Some("Unknown"),
        _ => None,
    }
}

/// Acceptance digit of `[Cx]`.
pub open spec fn acceptance_text(c: char) -> Option<Seq<char>> {
    match c {
        '0' => Some("N/A"@),
        '1' => Some("Extremely xenophobic"@),
        '2' => Some("Very xenophobic"@),
        '3' => Some("Xenophobic"@),
        '4' => Some("Extremely aloof"@),
        '5' => Some("Very aloof"@),
        '6' | '7' => Some("Aloof"@),
        '8' | '9' => Some("Friendly"@),
        'A' => Some("Very friendly"@),
        'B' => Some("Extremely friendly"@),
        'C' => Some("Xenophilic"@),
        'D' => Some("Very Xenophilic"@),
        'E' | 'F' => Some("Extremely xenophilic"@),
        '?' => Some("Unknown"@),
        _ => None,
    }
}

fn cx_acceptance_blurb(c: char) -> (r: Option<&'static str>)
    ensures
        opt_str_view(r) == acceptance_text(c),
{
    match c {
        '0' => Some("N/A"),
        '1' => Some("Extremely xenophobic"),
        '2' => Some("Very xenophobic"),
        '3' => Some("Xenophobic"),
        '4' => Some("Extremely aloof"),
        '5' => Some("Very aloof"),
        '6' | '7' => Some("Aloof"),
        '8' | '9' => Some("Friendly"),
        'A' => Some("Very friendly"),
        'B' => Some("Extremely friendly"),
        'C' => Some("Xenophilic"),
        'D' => Some("Very Xenophilic"),
        'E' | 'F' => Some("Extremely xenophilic"),
        '?' => Some("Unknown"),
        _ => None,
    }
}

/// Strangeness digit of `[Cx]`.
pub open spec fn strangeness_text(c: char) -> Option<Seq<char>> {
    match c {
        '0' => Some("N/A"@),
        '1' => Some("Very typical"@),
        '2' => Some("Typical"@),
        '3' => Some("Somewhat typical"@),
        '4' => Some("Somewhat distinct"@),
        '5' => Some("Distinct"@),
        '6' => Some("Very distinct"@),
        '7' => Some("Confusing"@),
        '8' => Some("Very confusing"@),
        '9' => Some("Extremely confusing"@),
        'A' => Some("Incomprehensible"@),
        '?' => Some("Unknown"@),
        _ => None,
    }
}

fn cx_strangeness_blurb(c: char) -> (r: Option<&'static str>)
    ensures
        opt_str_view(r) == strangeness_text(c),
{
    match c {
        '0' => Some("N/A"),
        '1' => Some("Very typical"),
        '2' => Some("Typical"),
        '3' => Some("Somewhat typical"),
        '4' => Some("Somewhat distinct"),
        '5' => Some("Distinct"),
        '6' => Some("Very distinct"),
        '7' => Some("Confusing"),
        '8' => Some("Very confusing"),
        '9' => Some("Extremely confusing"),
        'A' => Some("Incomprehensible"),
        '?' => Some("Unknown"),
        _ => None,
    }
}

/// Symbols digit of `[Cx]`.
pub open spec fn symbols_text(c: char) -> Option<Seq<char>> {
    match c {
        '0' | '1' => Some("Extremely concrete"@),
        '2' | '3' => Some("Very concrete"@),
        '4' | '5' => Some("Concrete"@),
        '6' | '7' => Some("Somewhat concrete"@),
        '8' | '9' => Some("Somewhat abstract"@),
        'A' | 'B' => Some("Abstract"@),
        'C' | 'D' => Some("Very abstract"@),
        'E' | 'F' | 'G' => Some("Extremely abstract"@),
        'H' | 'J' | 'K' | 'L' => Some("Incomprehensibly abstract"@),
        '?' => Some("Unknown"@),
        _ => None,
    }
}

fn cx_symbols_blurb(c: char) -> (r: Option<&'static str>)
    ensures
        opt_str_view(r) == symbols_text(c),
{
    match c {
        '0' | '1' => Some("Extremely concrete"),
        '2' | '3' => Some("Very concrete"),
        '4' | '5' => Some("Concrete"),
        '6' | '7' => Some("Somewhat concrete"),
        '8' | '9' => Some("Somewhat abstract"),
        'A' | 'B' => Some("Abstract"),
        'C' | 'D' => Some("Very abstract"),
        'E' | 'F' | 'G' => Some("Extremely abstract"),
        'H' | 'J' | 'K' | 'L' => Some("Incomprehensibly abstract"),
        '?' => Some("Unknown"),
        _ => None,
    }
}

/// Base code.
pub open spec fn base_text(c: char) -> Option<Seq<char>> {
    match c {
        'C' => Some("Corsair Base"@),
        'D' => Some("Naval Depot"@),
        'E' => Some("Embassy"@),
        'F' => Some("Ruins"@),
        'H' => Some("Hiver Supply Base"@),
        'I' => Some("Interface"@),
        'K' => Some("Naval Base"@),
        'L' => Some("Naval Base"@),
        'M' => Some("Military Base"@),
        'N' => Some("Naval Base"@),
        'O' => Some("Naval Outpost"@),
        'R' => Some("Clan Base"@),
        'S' => Some("Scout Base"@),
        'T' => Some("Tlauku Base"@),
        'V' => Some("Exploration Base"@),
        'W' => Some("Way Station"@),
        'X' => Some("Relay Station"@),
        'Z' => Some("Naval/Military Base"@),
        _ => None,
    }
}

fn base_blurb(c: char) -> (r: Option<&'static str>)
    ensures
        opt_str_view(r) == base_text(c),
{
    match c {
        'C' => Some("Corsair Base"),
        'D' => Some("Naval Depot"),
        'E' => Some("Embassy"),
        'F' => Some("Ruins"),
        'H' => Some("Hiver Supply Base"),
        'I' => Some("Interface"),
        'K' => Some("Naval Base"),
        'L' => Some("Naval Base"),
        'M' => Some("Military Base"),
        'N' => Some("Naval Base"),
        'O' => Some("Naval Outpost"),
        'R' => Some("Clan Base"),
        'S' => Some("Scout Base"),
        'T' => Some("Tlauku Base"),
        'V' => Some("Exploration Base"),
        'W' => Some("Way Station"),
        'X' => Some("Relay Station"),
        'Z' => Some("Naval/Military Base"),
        _ => None,
    }
}

/// Importance value, as written in decimal.
pub open spec fn importance_text(s: Seq<char>) -> Option<Seq<char>> {
    if s == "-3"@ || s == "-2"@ {
        Some("Very unimportant"@)
    } else if s == "-1"@ || s == "0"@ {
        Some("Unimportant"@)
    } else if s == "1"@ || s == "2"@ || s == "3"@ {
        Some("Ordinary"@)
    } else if s == "4"@ {
        Some("Important"@)
    } else if s == "5"@ {
        Some("Very important"@)
    } else if s == "?"@ {
        Some("Unknown"@)
    } else {
        None
    }
}

fn ix_imp_blurb(s: &str) -> (r: Option<&'static str>)
    ensures
        opt_str_view(r) == importance_text(s@),
{
    if str_eq(s, "-3") || str_eq(s, "-2") {
        Some("Very unimportant")
    } else if str_eq(s, "-1") || str_eq(s, "0") {
        Some("Unimportant")
    } else if str_eq(s, "1") || str_eq(s, "2") || str_eq(s, "3") {
        Some("Ordinary")
    } else if str_eq(s, "4") {
        Some("Important")
    } else if str_eq(s, "5") {
        Some("Very important")
    } else if str_eq(s, "?") {
        Some("Unknown")
    } else {
        None
    }
}

/// Efficiency of `(Ex)`, with its sign.
pub open spec fn efficiency_text(s: Seq<char>) -> Option<Seq<char>> {
    if s == "-5"@ {
        Some("Extremely poor"@)
    } else if s == "-4"@ {
        Some("Very poor"@)
    } else if s == "-3"@ {
        Some("Poor"@)
    } else if s == "-2"@ {
        Some("Fair"@)
    } else if s == "-1"@ || s == "0"@ || s == "+1"@ {
        Some("Average"@)
    } else if s == "+2"@ {
        Some("Good"@)
    } else if s == "+3"@ {
        Some("Improved"@)
    } else if s == "+4"@ {
        Some("Advanced"@)
    } else if s == "+5"@ {
        Some("Very advanced"@)
    } else if s == "?"@ {
        Some("Unknown"@)
    } else {
        None
    }
}

fn ex_efficiency_blurb(s: &str) -> (r: Option<&'static str>)
    ensures
        opt_str_view(r) == efficiency_text(s@),
{
    if str_eq(s, "-5") {
        Some("Extremely poor")
    } else if str_eq(s, "-4") {
        Some("Very poor")
    } else if str_eq(s, "-3") {
        Some("Poor")
    } else if str_eq(s, "-2") {
        Some("Fair")
    } else if str_eq(s, "-1") || str_eq(s, "0") || str_eq(s, "+1") {
        Some("Average")
    } else if str_eq(s, "+2") {
        Some("Good")
    } else if str_eq(s, "+3") {
        Some("Improved")
    } else if str_eq(s, "+4") {
        Some("Advanced")
    } else if str_eq(s, "+5") {
        Some("Very advanced")
    } else if str_eq(s, "?") {
        Some("Unknown")
    } else {
        None
    }
}

/// Remark codes matched exactly.
pub open spec fn remark_text(s: Seq<char>) -> Option<Seq<char>> {
    if s == "As"@ {
        Some("Asteroid Belt"@)
    } else if s == "De"@ {
        Some("Desert"@)
    } else if s == "Fl"@ {
        Some("Fluid Hydrographics (in place of water)"@)
    } else if s == "Ga"@ {
        Some("Garden World"@)
    } else if s == "He"@ {
        Some("Hellworld"@)
    } else if s == "Ic"@ {
        Some("Ice Capped"@)
    } else if s == "Oc"@ {
        Some("Ocean World"@)
    } else if s == "Va"@ {
        Some("Vacuum World"@)
    } else if s == "Wa"@ {
        Some("Water World"@)
    } else if s == "Di"@ {
        Some("Dieback"@)
    } else if s == "Ba"@ {
        Some("Barren"@)
    } else if s == "Lo"@ {
        Some("Low Population"@)
    } else if s == "Ni"@ {
        Some("Non-Industrial"@)
    } else if s == "Ph"@ {
        Some("Pre-High Population"@)
    } else if s == "Hi"@ {
        Some("High Population"@)
    } else if s == "Pa"@ {
        Some("Pre-Agricultural"@)
    } else if s == "Ag"@ {
        Some("Agricultural"@)
    } else if s == "Na"@ {
        Some("Non-Agricultural"@)
    } else if s == "Px"@ {
        Some("Prison, Exile Camp"@)
    } else if s == "Pi"@ {
        Some("Pre-Industrial"@)
    } else if s == "In"@ {
        Some("Industrialized"@)
    } else if s == "Po"@ {
        Some("Poor"@)
    } else if s == "Pr"@ {
        Some("Pre-Rich"@)
    } else if s == "Ri"@ {
        Some("Rich"@)
    } else if s == "Fr"@ {
        Some("Frozen"@)
    } else if s == "Ho"@ {
        Some("Hot"@)
    } else if s == "Co"@ {
        Some("Cold"@)
    } else if s == "Lk"@ {
        Some("Locked"@)
    } else if s == "Tr"@ {
        Some("Tropic"@)
    } else if s == "Tu"@ {
        Some("Tundra"@)
    } else if s == "Tz"@ {
        Some("Twilight Zone"@)
    } else if s == "Fa"@ {
        Some("Farming"@)
    } else if s == "Mi"@ {
        Some("Mining"@)
    } else if s == "Mr"@ {
        Some("Military Rule"@)
    } else if s == "Pe"@ {
        Some("Penal Colony"@)
    } else if s == "Re"@ {
        Some("Reserve"@)
    } else if s == "Cp"@ {
        Some("Subsector Capital"@)
    } else if s == "Cs"@ {
        Some("Sector Capital"@)
    } else if s == "Cx"@ {
        Some("Capital"@)
    } else if s == "Cy"@ {
        Some("Colony"@)
    } else if s == "Sa"@ {
        Some("Satellite"@)
    } else if s == "Fo"@ {
        Some("Forbidden"@)
    } else if s == "Pz"@ {
        Some("Puzzle"@)
    } else if s == "Da"@ {
        Some("Danger"@)
    } else if s == "Ab"@ {
        Some("Data Repository"@)
    } else if s == "An"@ {
        Some("Ancient Site"@)
    } else if s == "Rs"@ {
        Some("Research Station"@)
    } else if s == "RsA"@ {
        Some("Research Station Alpha"@)
    } else if s == "RsB"@ {
        Some("Research Station Beta"@)
    } else if s == "RsG"@ {
        Some("Research Station Gamma"@)
    } else if s == "RsD"@ {
        Some("Research Station Delta"@)
    } else if s == "RsE"@ {
        Some("Research Station Epsilon"@)
    } else if s == "RsZ"@ {
        Some("Research Station Zeta"@)
    } else if s == "RsH"@ {
        Some("Research Station Eta"@)
    } else if s == "RsT"@ {
        Some("Research Station Theta"@)
    } else if s == "Nh"@ {
        Some("Non-Hiver Population"@)
    } else if s == "Nk"@ {
        Some("Non-K'kree Population"@)
    } else if s == "Tp"@ {
        Some("Terra-prime"@)
    } else if s == "Tn"@ {
        Some("Terra-norm"@)
    } else if s == "Lt"@ {
        Some("Low Technology"@)
    } else if s == "Ht"@ {
        Some("High Technology"@)
    } else if s == "St"@ {
        Some("Steppeworld"@)
    } else if s == "Ex"@ {
        Some("Exile Camp"@)
    } else if s == "Xb"@ {
        Some("Xboat Station"@)
    } else if s == "Cr"@ {
        Some("Reserve Capital"@)
    } else {
        None
    }
}

fn remarks_table(s: &str) -> (r: Option<&'static str>)
    ensures
        opt_str_view(r) == remark_text(s@),
{
    if str_eq(s, "As") {
        Some("Asteroid Belt")
    } else if str_eq(s, "De") {
        Some("Desert")
    } else if str_eq(s, "Fl") {
        Some("Fluid Hydrographics (in place of water)")
    } else if str_eq(s, "Ga") {
        Some("Garden World")
    } else if str_eq(s, "He") {
        Some("Hellworld")
    } else if str_eq(s, "Ic") {
        Some("Ice Capped")
    } else if str_eq(s, "Oc") {
        Some("Ocean World")
    } else if str_eq(s, "Va") {
        Some("Vacuum World")
    } else if str_eq(s, "Wa") {
        Some("Water World")
    } else if str_eq(s, "Di") {
        Some("Dieback")
    } else if str_eq(s, "Ba") {
        Some("Barren")
    } else if str_eq(s, "Lo") {
        Some("Low Population")
    } else if str_eq(s, "Ni") {
        Some("Non-Industrial")
    } else if str_eq(s, "Ph") {
        Some("Pre-High Population")
    } else if str_eq(s, "Hi") {
        Some("High Population")
    } else if str_eq(s, "Pa") {
        Some("Pre-Agricultural")
    } else if str_eq(s, "Ag") {
        Some("Agricultural")
    } else if str_eq(s, "Na") {
        Some("Non-Agricultural")
    } else if str_eq(s, "Px") {
        Some("Prison, Exile Camp")
    } else if str_eq(s, "Pi") {
        Some("Pre-Industrial")
    } else if str_eq(s, "In") {
        Some("Industrialized")
    } else if str_eq(s, "Po") {
        Some("Poor")
    } else if str_eq(s, "Pr") {
        Some("Pre-Rich")
    } else if str_eq(s, "Ri") {
        Some("Rich")
    } else if str_eq(s, "Fr") {
        Some("Frozen")
    } else if str_eq(s, "Ho") {
        Some("Hot")
    } else if str_eq(s, "Co") {
        Some("Cold")
    } else if str_eq(s, "Lk") {
        Some("Locked")
    } else if str_eq(s, "Tr") {
        Some("Tropic")
    } else if str_eq(s, "Tu") {
        Some("Tundra")
    } else if str_eq(s, "Tz") {
        Some("Twilight Zone")
    } else if str_eq(s, "Fa") {
        Some("Farming")
    } else if str_eq(s, "Mi") {
        Some("Mining")
    } else if str_eq(s, "Mr") {
        Some("Military Rule")
    } else if str_eq(s, "Pe") {
        Some("Penal Colony")
    } else if str_eq(s, "Re") {
        Some("Reserve")
    } else if str_eq(s, "Cp") {
        Some("Subsector Capital")
    } else if str_eq(s, "Cs") {
        Some("Sector Capital")
    } else if str_eq(s, "Cx") {
        Some("Capital")
    } else if str_eq(s, "Cy") {
        Some("Colony")
    } else if str_eq(s, "Sa") {
        Some("Satellite")
    } else if str_eq(s, "Fo") {
        Some("Forbidden")
    } else if str_eq(s, "Pz") {
        Some("Puzzle")
    } else if str_eq(s, "Da") {
        Some("Danger")
    } else if str_eq(s, "Ab") {
        Some("Data Repository")
    } else if str_eq(s, "An") {
        Some("Ancient Site")
    } else if str_eq(s, "Rs") {
        Some("Research Station")
    } else if str_eq(s, "RsA") {
        Some("Research Station Alpha")
    } else if str_eq(s, "RsB") {
        Some("Research Station Beta")
    } else if str_eq(s, "RsG") {
        Some("Research Station Gamma")
    } else if str_eq(s, "RsD") {
        Some("Research Station Delta")
    } else if str_eq(s, "RsE") {
        Some("Research Station Epsilon")
    } else if str_eq(s, "RsZ") {
        Some("Research Station Zeta")
    } else if str_eq(s, "RsH") {
        Some("Research Station Eta")
    } else if str_eq(s, "RsT") {
        Some("Research Station Theta")
    } else if str_eq(s, "Nh") {
        Some("Non-Hiver Population")
    } else if str_eq(s, "Nk") {
        Some("Non-K'kree Population")
    } else if str_eq(s, "Tp") {
        Some("Terra-prime")
    } else if str_eq(s, "Tn") {
        Some("Terra-norm")
    } else if str_eq(s, "Lt") {
        Some("Low Technology")
    } else if str_eq(s, "Ht") {
        Some("High Technology")
    } else if str_eq(s, "St") {
        Some("Steppeworld")
    } else if str_eq(s, "Ex") {
        Some("Exile Camp")
    } else if str_eq(s, "Xb") {
        Some("Xboat Station")
    } else if str_eq(s, "Cr") {
        Some("Reserve Capital")
    } else {
        None
    }
}

/// Luminosity class (or compact-object code) of a star.
pub open spec fn luminosity_text(s: Seq<char>) -> Option<Seq<char>> {
    if s == "Ia"@ || s == "Ib"@ {
        Some("Supergiant"@)
    } else if s == "II"@ || s == "III"@ {
        Some("Giant"@)
    } else if s == "IV"@ {
        Some("Subgiant"@)
    } else if s == "V"@ {
        Some("Dwarf (Main Sequence)"@)
    } else if s == "VI"@ {
        Some("Subdwarf"@)
    } else if s == "VII"@ {
        Some("White Dwarf"@)
    } else if s == "D"@ {
        Some("White Dwarf"@)
    } else if s == "BD"@ {
        Some("Brown Dwarf"@)
    } else if s == "BH"@ {
        Some("Black Hole"@)
    } else if s == "PSR"@ {
        Some("Pulsar"@)
    } else if s == "NS"@ {
        Some("Neutron Star"@)
    } else {
        None
    }
}

fn stellar_blurb(s: &str) -> (r: Option<&'static str>)
    ensures
        opt_str_view(r) == luminosity_text(s@),
{
    if str_eq(s, "Ia") || str_eq(s, "Ib") {
        Some("Supergiant")
    } else if str_eq(s, "II") || str_eq(s, "III") {
        Some("Giant")
    } else if str_eq(s, "IV") {
        Some("Subgiant")
    } else if str_eq(s, "V") {
        Some("Dwarf (Main Sequence)")
    } else if str_eq(s, "VI") {
        Some("Subdwarf")
    } else if str_eq(s, "VII") {
        Some("White Dwarf")
    } else if str_eq(s, "D") {
        Some("White Dwarf")
    } else if str_eq(s, "BD") {
        Some("Brown Dwarf")
    } else if str_eq(s, "BH") {
        Some("Black Hole")
    } else if str_eq(s, "PSR") {
        Some("Pulsar")
    } else if str_eq(s, "NS") {
        Some("Neutron Star")
    } else {
        None
    }
}


/// Noble rank.
pub open spec fn nobility_text(c: char) -> Seq<char> {
    match c {
        'B' => "Knight"@,
        'c' => "Baronet"@,
        'C' => "Baron"@,
        'D' => "Marquis"@,
        'e' => "Viscount"@,
        'E' => "Count"@,
        'f' => "Duke"@,
        'F' => "Subsector Duke"@,
        'G' => "Archduke"@,
        'H' => "Emperor"@,
        '?' => "Unknown"@,
        _ => "???"@,
    }
}

fn nobility_blurb(c: char) -> (r: &'static str)
    ensures
        r@ == nobility_text(c),
{
    match c {
        'B' => "Knight",
        'c' => "Baronet",
        'C' => "Baron",
        'D' => "Marquis",
        'e' => "Viscount",
        'E' => "Count",
        'f' => "Duke",
        'F' => "Subsector Duke",
        'G' => "Archduke",
        'H' => "Emperor",
        '?' => "Unknown",
        _ => "???",
    }
}

// ── Decoded output types ────────────────────────────────────────────────────

/// A decoded glyph or code: the raw text and its readable blurb.
#[derive(Debug, Clone, PartialEq)]
pub struct Decoded {
    pub code: String,
    pub blurb: String,
}

/// A decoded UWP (`StSAHPGL-T`), each field with its blurb.
#[derive(Debug, Clone, PartialEq)]
pub struct DecodedUwp {
    pub starport: Decoded,
    pub size: Decoded,
    pub atmosphere: Decoded,
    pub hydrographics: Decoded,
    pub population: Decoded,
    pub government: Decoded,
    pub law: Decoded,
    pub tech: Decoded,
}

/// Population multiplier, belts and gas giants; `None` where the digit is
/// missing or not eHex.
#[derive(Debug, Clone, PartialEq)]
pub struct Pbg {
    pub pop_mult: i32,
    pub belts: Option<i32>,
    pub gas_giants: Option<i32>,
}

/// The economic extension `(Ex)`: resources, labor, infrastructure, efficiency.
#[derive(Debug, Clone, PartialEq)]
pub struct DecodedEx {
    pub resources: Decoded,
    pub labor: Decoded,
    pub infrastructure: Decoded,
    /// Efficiency, with `-` shown as U+2212 MINUS SIGN.
    pub efficiency: Decoded,
}

/// The cultural extension `[Cx]`: its four facets.
#[derive(Debug, Clone, PartialEq)]
pub struct DecodedCx {
    pub heterogeneity: Decoded,
    pub acceptance: Decoded,
    pub strangeness: Decoded,
    pub symbols: Decoded,
}

/// A travel zone: its rule, rating and style class.
#[derive(Debug, Clone, PartialEq)]
pub struct Zone {
    pub rule: &'static str,
    pub rating: &'static str,
    pub class_name: &'static str,
}

/// The importance extension `{Ix}`: the value (with U+2212 for a minus sign)
/// and its blurb.
#[derive(Debug, Clone, PartialEq)]
pub struct DecodedIx {
    pub imp: String,
    pub blurb: Option<String>,
}

/// The complete decoded world sheet.
#[derive(Debug, Clone, PartialEq)]
pub struct DecodedWorld {
    pub is_placeholder: bool,
    pub uwp: DecodedUwp,
    pub pbg: Pbg,
    pub total_population: Option<String>,
    pub importance: Option<DecodedIx>,
    pub economics: Option<DecodedEx>,
    pub culture: Option<DecodedCx>,
    pub nobility: Vec<Decoded>,
    pub remarks: Vec<Decoded>,
    pub bases: Vec<String>,
    pub stars: Vec<Decoded>,
    pub zone: Zone,
    pub worlds: Option<u32>,
    pub other_worlds: Option<u32>,
    pub allegiance_name: Option<String>,
}

// ── Field decoders ──────────────────────────────────────────────────────────

/// `s[i]`, or `d` past the end.
pub open spec fn char_at_or(s: Seq<char>, i: int, d: char) -> char {
    if 0 <= i < s.len() { s[i] } else { d }
}

/// The text of an optional blurb, empty when absent.
pub open spec fn or_empty(o: Option<Seq<char>>) -> Seq<char> {
    match o {
        Some(t) => t,
        None => Seq::empty(),
    }
}

/// `d` holds the glyph `c` and the blurb `b` (empty when absent).
pub open spec fn decoded_is(d: Decoded, c: char, b: Option<Seq<char>>) -> bool {
    d.code@ == seq![c] && d.blurb@ == or_empty(b)
}

/// `d` is the decoded form of the UWP `uwp` (tech from index 8, past the `-`).
pub open spec fn uwp_decoded(d: DecodedUwp, uwp: Seq<char>) -> bool {
    &&& decoded_is(d.starport, char_at_or(uwp, 0, '?'), starport_text(char_at_or(uwp, 0, '?')))
    &&& decoded_is(d.size, char_at_or(uwp, 1, '?'), size_text(char_at_or(uwp, 1, '?')))
    &&& decoded_is(d.atmosphere, char_at_or(uwp, 2, '?'), atmosphere_text(char_at_or(uwp, 2, '?')))
    &&& decoded_is(d.hydrographics, char_at_or(uwp, 3, '?'), hydrographics_text(char_at_or(uwp, 3, '?')))
    &&& decoded_is(d.population, char_at_or(uwp, 4, '?'), population_text(char_at_or(uwp, 4, '?')))
    &&& decoded_is(d.government, char_at_or(uwp, 5, '?'), government_text(char_at_or(uwp, 5, '?')))
    &&& decoded_is(d.law, char_at_or(uwp, 6, '?'), law_text(char_at_or(uwp, 6, '?')))
    &&& decoded_is(d.tech, char_at_or(uwp, 8, '?'), tech_text(char_at_or(uwp, 8, '?')))
}

/// `cs[i]`, or `d` past the end.
fn char_at(cs: &Vec<char>, i: usize, d: char) -> (c: char)
    ensures
        c == char_at_or(cs@, i as int, d),
{
    if i < cs.len() { cs[i] } else { d }
}

/// A [`Decoded`] for the glyph `c` with an optional blurb.
fn decode_glyph(c: char, blurb: Option<&'static str>) -> (d: Decoded)
    ensures
        decoded_is(d, c, opt_str_view(blurb)),
{
    let mut one: Vec<char> = Vec::new();
    one.push(c);
    let code = string_from_chars(&one);
    let text = match blurb {
        Some(b) => b.to_owned(),
        None => String::new(),
    };
    Decoded { code, blurb: text }
}

/// Split a UWP `StSAHPGL-T` into its eight fields, each with its blurb.
/// Missing characters read as `?`.
pub fn split_uwp(uwp: &str) -> (d: DecodedUwp)
    ensures
        uwp_decoded(d, uwp@),
{
    let cs = chars_of(uwp);
    let c0 = char_at(&cs, 0, '?');
    let c1 = char_at(&cs, 1, '?');
    let c2 = char_at(&cs, 2, '?');
    let c3 = char_at(&cs, 3, '?');
    let c4 = char_at(&cs, 4, '?');
    let c5 = char_at(&cs, 5, '?');
    let c6 = char_at(&cs, 6, '?');
    let c8 = char_at(&cs, 8, '?');
    DecodedUwp {
        starport: decode_glyph(c0, starport_blurb(c0)),
        size: decode_glyph(c1, siz_blurb(c1)),
        atmosphere: decode_glyph(c2, atm_blurb(c2)),
        hydrographics: decode_glyph(c3, hyd_blurb(c3)),
        population: decode_glyph(c4, pop_blurb(c4)),
        government: decode_glyph(c5, gov_blurb(c5)),
        law: decode_glyph(c6, law_blurb(c6)),
        tech: decode_glyph(c8, tech_blurb(c8)),
    }
}

/// The eHex value of `s[i]`, or `-1` past the end.
pub open spec fn ehex_at(s: Seq<char>, i: int) -> int {
    if 0 <= i < s.len() { ehex_value(s[i]) } else { -1 }
}

/// `None` for the "not a digit" value `-1`.
pub open spec fn known(v: int) -> Option<int> {
    if v == -1 { None } else { Some(v) }
}

/// `p` is the decoded form of the PBG text `pbg`.
pub open spec fn pbg_decoded(p: Pbg, pbg: Seq<char>) -> bool {
    &&& p.pop_mult == (if ehex_at(pbg, 0) < 0 { 0 } else { ehex_at(pbg, 0) })
    &&& (match p.belts { Some(b) => known(ehex_at(pbg, 1)) == Some(b as int), None => known(ehex_at(pbg, 1)) is None })
    &&& (match p.gas_giants { Some(g) => known(ehex_at(pbg, 2)) == Some(g as int), None => known(ehex_at(pbg, 2)) is None })
}

fn ehex_digit(cs: &Vec<char>, i: usize) -> (v: i32)
    ensures
        v == ehex_at(cs@, i as int),
        -1 <= v <= 30,
{
    if i < cs.len() { from_hex(cs[i]) } else { -1 }
}

/// Split a PBG (`613`): population multiplier (at least 0), belts and gas
/// giants (`None` where the digit is missing or not eHex).
pub fn split_pbg(pbg: &str) -> (p: Pbg)
    ensures
        pbg_decoded(p, pbg@),
{
    let cs = chars_of(pbg);
    let d0 = ehex_digit(&cs, 0);
    let d1 = ehex_digit(&cs, 1);
    let d2 = ehex_digit(&cs, 2);
    Pbg {
        pop_mult: if d0 < 0 { 0 } else { d0 },
        belts: if d1 == -1 { None } else { Some(d1) },
        gas_giants: if d2 == -1 { None } else { Some(d2) },
    }
}

/// The travel zone for a zone code: `(rule, rating, class)`.
pub open spec fn zone_text(z: Seq<char>) -> (Seq<char>, Seq<char>, Seq<char>) {
    if z == "A"@ {
        ("Caution"@, "Amber"@, "amber"@)
    } else if z == "R"@ {
        ("Restricted"@, "Red"@, "red"@)
    } else if z == "B"@ {
        ("Technologically Elevated Dictatorship"@, "c/o Coalition Data Services"@, "ted"@)
    } else if z == "F"@ {
        ("Forbidden"@, "c/o Consulate Data Services"@, "forbidden"@)
    } else if z == "U"@ {
        ("Unabsorbed"@, "c/o Consulate Data Services"@, "unabsorbed"@)
    } else {
        ("No Restrictions"@, "Green"@, "green"@)
    }
}

/// Decode a travel zone code.
fn decode_zone(zone: &str) -> (z: Zone)
    ensures
        (z.rule@, z.rating@, z.class_name@) == zone_text(zone@),
{
    if str_eq(zone, "A") {
        Zone { rule: "Caution", rating: "Amber", class_name: "amber" }
    } else if str_eq(zone, "R") {
        Zone { rule: "Restricted", rating: "Red", class_name: "red" }
    } else if str_eq(zone, "B") {
        Zone { rule: "Technologically Elevated Dictatorship", rating: "c/o Coalition Data Services", class_name: "ted" }
    } else if str_eq(zone, "F") {
        Zone { rule: "Forbidden", rating: "c/o Consulate Data Services", class_name: "forbidden" }
    } else if str_eq(zone, "U") {
        Zone { rule: "Unabsorbed", rating: "c/o Consulate Data Services", class_name: "unabsorbed" }
    } else {
        Zone { rule: "No Restrictions", rating: "Green", class_name: "green" }
    }
}

} // verus!

verus! {

// ── Population, importance, extensions, nobility, bases ─────────────────────

/// `10^e`.
pub open spec fn pow10(e: nat) -> nat
    decreases e,
{
    if e == 0 { 1 } else { 10 * pow10((e - 1) as nat) }
}

/// The total population text: population multiplier (1 when the exponent is
/// positive and the multiplier 0) times `10^exponent`, with thousands
/// separators; `None` when the exponent is not an eHex digit.
pub open spec fn total_population_text(uwp: Seq<char>, pop_mult: int) -> Option<Seq<char>> {
    let e = ehex_value(char_at_or(uwp, 4, '?'));
    let m = if e > 0 && pop_mult == 0 { 1 } else { pop_mult };
    if e >= 0 && m >= 0 {
        Some(with_commas(nat_digits((m * pow10(e as nat)) as nat)))
    } else {
        None
    }
}

proof fn lemma_pow10_bound(e: nat)
    requires
        e <= 30,
    ensures
        1 <= pow10(e) <= pow10(30),
        pow10(30) == 1_000_000_000_000_000_000_000_000_000_000,
    decreases 30 - e,
{
    assert(pow10(30) == 1_000_000_000_000_000_000_000_000_000_000) by {
        reveal_with_fuel(pow10, 31);
    }
    if e < 30 {
        lemma_pow10_bound(e + 1);
        assert(pow10(e + 1) == 10 * pow10(e));
    }
}

fn total_population(uwp: &Vec<char>, pop_mult: i32) -> (r: Option<String>)
    requires
        0 <= pop_mult <= 30,
    ensures
        opt_string_view(r) == total_population_text(uwp@, pop_mult as int),
{
    let e = from_hex(char_at(uwp, 4, '?'));
    let m = if e > 0 && pop_mult == 0 { 1 } else { pop_mult };
    if e >= 0 && m >= 0 {
        let mut p: u128 = 1;
        let mut k: i32 = 0;
        proof { lemma_pow10_bound(e as nat); }
        while k < e
            invariant
                0 <= k <= e <= 30,
                p == pow10(k as nat),
                pow10(e as nat) <= 1_000_000_000_000_000_000_000_000_000_000,
            decreases e - k,
        {
            proof { lemma_pow10_bound((k + 1) as nat); }
            p = p * 10;
            k += 1;
        }
        assert((m as u128) * p <= 30 * 1_000_000_000_000_000_000_000_000_000_000) by (nonlinear_arith)
            requires 0 <= m <= 30, p <= 1_000_000_000_000_000_000_000_000_000_000;
        let total: u128 = (m as u128) * p;
        Some(number_with_commas(total))
    } else {
        None
    }
}

/// The view of an optional string.
pub open spec fn opt_string_view(o: Option<String>) -> Option<Seq<char>> {
    match o {
        Some(s) => Some(s@),
        None => None,
    }
}

/// The `{Ix}` value: the text inside the braces as an `i64`.
pub open spec fn ix_value(ix: Seq<char>) -> Option<int> {
    spec_parse_in(unwrap_delimited(ix, '{', '}'), true, i64::MIN as int, i64::MAX as int)
}

/// `d` is the decoded importance `v`.
pub open spec fn ix_decoded(d: DecodedIx, v: int) -> bool {
    &&& d.imp@ == minus_signs(int_decimal(v))
    &&& opt_string_view(d.blurb) == importance_text(int_decimal(v))
}

/// Parse the `{Ix}` value (braces and spaces optional).
fn parse_ix(ix: &str) -> (r: Option<i64>)
    ensures
        match r {
            Some(v) => ix_value(ix@) == Some(v as int),
            None => ix_value(ix@) is None,
        },
{
    let inner = unwrap_delimited_chars(ix, '{', '}');
    parse_int_chars(&inner, true, i64::MIN, i64::MAX)
}

fn decode_ix(ix: &str) -> (r: Option<DecodedIx>)
    ensures
        match r {
            Some(d) => ix_value(ix@) matches Some(v) && ix_decoded(d, v),
            None => ix_value(ix@) is None,
        },
{
    match parse_ix(ix) {
        Some(v) => {
            let imp = int_to_string(v);
            let cs = chars_of(imp.as_str());
            let blurb = match ix_imp_blurb(imp.as_str()) {
                Some(b) => Some(b.to_owned()),
                None => None,
            };
            Some(DecodedIx { imp: with_minus_signs(&cs), blurb })
        },
        None => None,
    }
}

/// `d` is the decoded `(Ex)` extension `ex`.
pub open spec fn ex_decoded(d: DecodedEx, ex: Seq<char>) -> bool {
    let inner = unwrap_delimited(ex, '(', ')');
    let eff = inner.subrange(if inner.len() < 3 { inner.len() as int } else { 3 }, inner.len() as int);
    &&& decoded_is(d.resources, char_at_or(inner, 0, '?'), resources_text(char_at_or(inner, 0, '?')))
    &&& decoded_is(d.labor, char_at_or(inner, 1, '?'), population_text(char_at_or(inner, 1, '?')))
    &&& decoded_is(d.infrastructure, char_at_or(inner, 2, '?'), infrastructure_text(char_at_or(inner, 2, '?')))
    &&& d.efficiency.code@ == minus_signs(eff)
    &&& d.efficiency.blurb@ == or_empty(efficiency_text(eff))
}

fn decode_ex(ex: &str) -> (d: DecodedEx)
    ensures
        ex_decoded(d, ex@),
{
    let inner = unwrap_delimited_chars(ex, '(', ')');
    let c0 = char_at(&inner, 0, '?');
    let c1 = char_at(&inner, 1, '?');
    let c2 = char_at(&inner, 2, '?');
    let from: usize = if inner.len() < 3 { inner.len() } else { 3 };
    let eff = slice_to_vec(&inner, from, inner.len());
    let eff_s = string_from_chars(&eff);
    let eff_blurb = match ex_efficiency_blurb(eff_s.as_str()) {
        Some(b) => b.to_owned(),
        None => String::new(),
    };
    DecodedEx {
        resources: decode_glyph(c0, ex_resources_blurb(c0)),
        labor: decode_glyph(c1, pop_blurb(c1)),
        infrastructure: decode_glyph(c2, ex_infrastructure_blurb(c2)),
        efficiency: Decoded { code: with_minus_signs(&eff), blurb: eff_blurb },
    }
}

/// `d` is the decoded `[Cx]` extension `cx`.
pub open spec fn cx_decoded(d: DecodedCx, cx: Seq<char>) -> bool {
    let inner = unwrap_delimited(cx, '[', ']');
    &&& decoded_is(d.heterogeneity, char_at_or(inner, 0, '?'), heterogeneity_text(char_at_or(inner, 0, '?')))
    &&& decoded_is(d.acceptance, char_at_or(inner, 1, '?'), acceptance_text(char_at_or(inner, 1, '?')))
    &&& decoded_is(d.strangeness, char_at_or(inner, 2, '?'), strangeness_text(char_at_or(inner, 2, '?')))
    &&& decoded_is(d.symbols, char_at_or(inner, 3, '?'), symbols_text(char_at_or(inner, 3, '?')))
}

fn decode_cx(cx: &str) -> (d: DecodedCx)
    ensures
        cx_decoded(d, cx@),
{
    let inner = unwrap_delimited_chars(cx, '[', ']');
    let c0 = char_at(&inner, 0, '?');
    let c1 = char_at(&inner, 1, '?');
    let c2 = char_at(&inner, 2, '?');
    let c3 = char_at(&inner, 3, '?');
    DecodedCx {
        heterogeneity: decode_glyph(c0, cx_heterogeneity_blurb(c0)),
        acceptance: decode_glyph(c1, cx_acceptance_blurb(c1)),
        strangeness: decode_glyph(c2, cx_strangeness_blurb(c2)),
        symbols: decode_glyph(c3, cx_symbols_blurb(c3)),
    }
}

/// The code and blurb of a [`Decoded`].
pub open spec fn dview(d: Decoded) -> (Seq<char>, Seq<char>) {
    (d.code@, d.blurb@)
}

/// One decoded entry per nobility character.
pub open spec fn nobility_decoded(n: Seq<char>) -> Seq<(Seq<char>, Seq<char>)> {
    n.map_values(|c: char| (seq![c], nobility_text(c)))
}

fn decode_nobility(n: &str) -> (r: Vec<Decoded>)
    ensures
        r@.map_values(|d: Decoded| dview(d)) == nobility_decoded(n@),
{
    let cs = chars_of(n);
    let mut out: Vec<Decoded> = Vec::new();
    let mut i: usize = 0;
    while i < cs.len()
        invariant
            i <= cs@.len(),
            cs@ == n@,
            out@.map_values(|d: Decoded| dview(d)) == nobility_decoded(cs@.subrange(0, i as int)),
        decreases cs@.len() - i,
    {
        let c = cs[i];
        let d = decode_glyph(c, Some(nobility_blurb(c)));
        let ghost before = out@.map_values(|d: Decoded| dview(d));
        out.push(d);
        i += 1;
        assert(out@.map_values(|d: Decoded| dview(d)) =~= before.push((seq![c], nobility_text(c))));
        assert(nobility_decoded(cs@.subrange(0, i as int)) =~= nobility_decoded(cs@.subrange(0, i - 1)).push((seq![c], nobility_text(c))));
    }
    assert(cs@.subrange(0, cs@.len() as int) =~= cs@);
    out
}

/// Does `s` start with `p`?
pub open spec fn has_prefix(s: Seq<char>, p: Seq<char>) -> bool {
    p.len() <= s.len() && s.subrange(0, p.len() as int) == p
}

pub(crate) fn starts_with_str(s: &str, p: &str) -> (b: bool)
    ensures
        b == has_prefix(s@, p@),
{
    let x = chars_of(s);
    let y = chars_of(p);
    if y.len() > x.len() {
        return false;
    }
    let a = slice_to_vec(&x, 0, y.len());
    let a_s = string_from_chars(&a);
    str_eq(a_s.as_str(), p)
}

/// The blurbs of the base codes in `b` that have one, in order.
pub open spec fn base_blurbs(b: Seq<char>) -> Seq<Seq<char>>
    decreases b.len(),
{
    if b.len() == 0 {
        Seq::empty()
    } else {
        base_blurbs(b.drop_last()) + match base_text(b.last()) {
            Some(t) => seq![t],
            None => Seq::empty(),
        }
    }
}

/// Remarks that the base list repeats: reserves, penal/exile camps and
/// research stations.
pub open spec fn is_base_remark(code: Seq<char>) -> bool {
    code == "Re"@ || code == "Px"@ || code == "Ex"@ || has_prefix(code, "Rs"@)
}

/// The blurbs of the remarks that the base list repeats, in order.
pub open spec fn remark_bases(rs: Seq<(Seq<char>, Seq<char>)>) -> Seq<Seq<char>>
    decreases rs.len(),
{
    if rs.len() == 0 {
        Seq::empty()
    } else {
        remark_bases(rs.drop_last()) + if is_base_remark(rs.last().0) { seq![rs.last().1] } else { Seq::empty() }
    }
}

/// The base list of a world: Zhodani `KM` and `W` read as one base each;
/// otherwise one entry per known base code; then the base-like remarks.
pub open spec fn bases_decoded(bases: Seq<char>, alleg: Seq<char>, rs: Seq<(Seq<char>, Seq<char>)>) -> Seq<Seq<char>> {
    let head = if has_prefix(alleg, "Zh"@) && bases == "KM"@ {
        seq!["Zhodani Base"@]
    } else if has_prefix(alleg, "Zh"@) && bases == "W"@ {
        seq!["Zhodani Relay Station"@]
    } else {
        base_blurbs(bases)
    };
    head + remark_bases(rs)
}

fn decode_bases(bases: &str, allegiance: &str, remarks: &Vec<Decoded>) -> (r: Vec<String>)
    ensures
        r@.map_values(|s: String| s@) == bases_decoded(bases@, allegiance@, remarks@.map_values(|d: Decoded| dview(d))),
{
    let zh = starts_with_str(allegiance, "Zh");
    let mut out: Vec<String> = Vec::new();
    if zh && str_eq(bases, "KM") {
        out.push("Zhodani Base".to_owned());
        assert(out@.map_values(|s: String| s@) =~= seq!["Zhodani Base"@]);
    } else if zh && str_eq(bases, "W") {
        out.push("Zhodani Relay Station".to_owned());
        assert(out@.map_values(|s: String| s@) =~= seq!["Zhodani Relay Station"@]);
    } else {
        let cs = chars_of(bases);
        let mut i: usize = 0;
        assert(out@.map_values(|s: String| s@) =~= base_blurbs(cs@.subrange(0, 0)));
        while i < cs.len()
            invariant
                i <= cs@.len(),
                cs@ == bases@,
                out@.map_values(|s: String| s@) == base_blurbs(cs@.subrange(0, i as int)),
            decreases cs@.len() - i,
        {
            let ghost before = out@.map_values(|s: String| s@);
            match base_blurb(cs[i]) {
                Some(b) => {
                    out.push(b.to_owned());
                    assert(out@.map_values(|s: String| s@) =~= before + seq![b@]);
                },
                None => {
                    assert(before + Seq::<Seq<char>>::empty() =~= before);
                },
            }
            i += 1;
            assert(cs@.subrange(0, i as int).drop_last() =~= cs@.subrange(0, i - 1));
        }
        assert(cs@.subrange(0, cs@.len() as int) =~= cs@);
    }
    let ghost head = out@.map_values(|s: String| s@);
    let ghost rs = remarks@.map_values(|d: Decoded| dview(d));
    let mut j: usize = 0;
    assert(head + remark_bases(rs.subrange(0, 0)) =~= head);
    while j < remarks.len()
        invariant
            j <= remarks@.len(),
            rs == remarks@.map_values(|d: Decoded| dview(d)),
            out@.map_values(|s: String| s@) == head + remark_bases(rs.subrange(0, j as int)),
        decreases remarks@.len() - j,
    {
        let ghost before = out@.map_values(|s: String| s@);
        let r = &remarks[j];
        let code = r.code.as_str();
        if str_eq(code, "Re") || str_eq(code, "Px") || str_eq(code, "Ex") || starts_with_str(code, "Rs") {
            out.push(r.blurb.clone());
            assert(out@.map_values(|s: String| s@) =~= before + seq![rs[j as int].1]);
        } else {
            assert(before + Seq::<Seq<char>>::empty() =~= before);
        }
        j += 1;
        assert(rs.subrange(0, j as int).drop_last() =~= rs.subrange(0, j - 1));
        assert(head + remark_bases(rs.subrange(0, j as int)) =~= before + (if is_base_remark(rs[j - 1].0) { seq![rs[j - 1].1] } else { Seq::<Seq<char>>::empty() }));
    }
    assert(rs.subrange(0, rs.len() as int) =~= rs);
    out
}

} // verus!

verus! {

// ── Code tables ─────────────────────────────────────────────────────────────

/// One row of the allegiance code table: its code, its legacy code, its
/// base code and its display name (each trimmed).
#[derive(Debug, Clone, PartialEq)]
pub struct AllegianceCode {
    pub code: String,
    pub legacy: String,
    pub base: String,
    pub name: String,
}

/// One row of the sophont code table: code and name (trimmed, non-empty).
#[derive(Debug, Clone, PartialEq)]
pub struct SophontCode {
    pub code: String,
    pub name: String,
}

/// The stock code tables the decoders consult.
#[derive(Debug, Clone, PartialEq)]
pub struct CodeTables {
    pub allegiances: Vec<AllegianceCode>,
    pub sophonts: Vec<SophontCode>,
}

pub open spec fn alleg_view(a: AllegianceCode) -> (Seq<char>, Seq<char>, Seq<char>) {
    (a.code@, a.legacy@, a.name@)
}

pub open spec fn sophont_view(a: SophontCode) -> (Seq<char>, Seq<char>) {
    (a.code@, a.name@)
}

/// An allegiance table line (`Code <tab> Legacy <tab> BaseCode <tab> Name ...`):
/// the trimmed code, legacy code and name, when it has at least four columns.
pub open spec fn allegiance_row(line: Seq<char>) -> Option<(Seq<char>, Seq<char>, Seq<char>)> {
    let cols = split_on(line, '\t');
    if cols.len() >= 4 { Some((trim(cols[0]), trim(cols[1]), trim(cols[3]))) } else { None }
}

/// The rows of the given lines, in order.
pub open spec fn allegiance_rows(lines: Seq<Seq<char>>) -> Seq<(Seq<char>, Seq<char>, Seq<char>)>
    decreases lines.len(),
{
    if lines.len() == 0 {
        Seq::empty()
    } else {
        allegiance_rows(lines.drop_last()) + match allegiance_row(lines.last()) {
            Some(r) => seq![r],
            None => Seq::empty(),
        }
    }
}

/// A sophont table line (`Code <tab> Name ...`): the trimmed code and name,
/// when there are two columns and neither is blank.
pub open spec fn sophont_row(line: Seq<char>) -> Option<(Seq<char>, Seq<char>)> {
    let cols = split_on(line, '\t');
    if cols.len() >= 2 && trim(cols[0]).len() > 0 && trim(cols[1]).len() > 0 {
        Some((trim(cols[0]), trim(cols[1])))
    } else {
        None
    }
}

pub open spec fn sophont_rows(lines: Seq<Seq<char>>) -> Seq<(Seq<char>, Seq<char>)>
    decreases lines.len(),
{
    if lines.len() == 0 {
        Seq::empty()
    } else {
        sophont_rows(lines.drop_last()) + match sophont_row(lines.last()) {
            Some(r) => seq![r],
            None => Seq::empty(),
        }
    }
}

/// The lines of a table file after its header line.
pub open spec fn body_lines(raw: Seq<char>) -> Seq<Seq<char>> {
    split_on(raw, '\n').drop_first()
}

/// The base codes of the rows of the given lines, in order.
pub open spec fn allegiance_bases(lines: Seq<Seq<char>>) -> Seq<Seq<char>>
    decreases lines.len(),
{
    if lines.len() == 0 {
        Seq::empty()
    } else {
        allegiance_bases(lines.drop_last()) + if split_on(lines.last(), '\t').len() >= 4 {
            seq![trim(split_on(lines.last(), '\t')[2])]
        } else {
            Seq::empty()
        }
    }
}

/// Read the allegiance code table (tab-separated, one header line).
pub fn parse_allegiance_codes(raw: &str) -> (r: Vec<AllegianceCode>)
    ensures
        r@.map_values(|a: AllegianceCode| alleg_view(a)) == allegiance_rows(body_lines(raw@)),
        r@.map_values(|a: AllegianceCode| a.base@) == allegiance_bases(body_lines(raw@)),
{
    let cs = chars_of(raw);
    let lines = split_chars(&cs, '\n');
    proof { lemma_split_on_len(raw@, '\n'); }
    let ghost lv = lines@.map_values(|v: Vec<char>| v@);
    let mut out: Vec<AllegianceCode> = Vec::new();
    let mut i: usize = 1;
    assert(lv.subrange(1, 1) =~= Seq::<Seq<char>>::empty());
    while i < lines.len()
        invariant
            1 <= i <= lines@.len(),
            lv == lines@.map_values(|v: Vec<char>| v@),
            lv == split_on(raw@, '\n'),
            out@.map_values(|a: AllegianceCode| alleg_view(a)) == allegiance_rows(lv.subrange(1, i as int)),
            out@.map_values(|a: AllegianceCode| a.base@) == allegiance_bases(lv.subrange(1, i as int)),
        decreases lines@.len() - i,
    {
        let ghost before = out@.map_values(|a: AllegianceCode| alleg_view(a));
        let ghost before_b = out@.map_values(|a: AllegianceCode| a.base@);
        let cols = split_chars(&lines[i], '\t');
        proof { lemma_split_on_len(lv[i as int], '\t'); }
        assert(cols@.map_values(|v: Vec<char>| v@) == split_on(lv[i as int], '\t'));
        if cols.len() >= 4 {
            let c = trim_chars(&cols[0]);
            let l = trim_chars(&cols[1]);
            let b = trim_chars(&cols[2]);
            let n = trim_chars(&cols[3]);
            out.push(AllegianceCode {
                code: string_from_chars(&c),
                legacy: string_from_chars(&l),
                base: string_from_chars(&b),
                name: string_from_chars(&n),
            });
            assert(out@.map_values(|a: AllegianceCode| alleg_view(a)) =~= before + seq![(c@, l@, n@)]);
            assert(out@.map_values(|a: AllegianceCode| a.base@) =~= before_b + seq![b@]);
        } else {
            assert(before + Seq::<(Seq<char>, Seq<char>, Seq<char>)>::empty() =~= before);
            assert(before_b + Seq::<Seq<char>>::empty() =~= before_b);
        }
        assert(lv.subrange(1, i + 1).drop_last() =~= lv.subrange(1, i as int));
        i += 1;
    }
    assert(lv.subrange(1, lv.len() as int) =~= body_lines(raw@));
    out
}

/// Read the sophont code table (tab-separated, one header line).
pub fn parse_sophont_codes(raw: &str) -> (r: Vec<SophontCode>)
    ensures
        r@.map_values(|a: SophontCode| sophont_view(a)) == sophont_rows(body_lines(raw@)),
{
    let cs = chars_of(raw);
    let lines = split_chars(&cs, '\n');
    proof { lemma_split_on_len(raw@, '\n'); }
    let ghost lv = lines@.map_values(|v: Vec<char>| v@);
    let mut out: Vec<SophontCode> = Vec::new();
    let mut i: usize = 1;
    assert(lv.subrange(1, 1) =~= Seq::<Seq<char>>::empty());
    while i < lines.len()
        invariant
            1 <= i <= lines@.len(),
            lv == lines@.map_values(|v: Vec<char>| v@),
            lv == split_on(raw@, '\n'),
            out@.map_values(|a: SophontCode| sophont_view(a)) == sophont_rows(lv.subrange(1, i as int)),
        decreases lines@.len() - i,
    {
        let ghost before = out@.map_values(|a: SophontCode| sophont_view(a));
        let cols = split_chars(&lines[i], '\t');
        let mut pushed = false;
        if cols.len() >= 2 {
            let c = trim_chars(&cols[0]);
            let n = trim_chars(&cols[1]);
            if c.len() > 0 && n.len() > 0 {
                out.push(SophontCode { code: string_from_chars(&c), name: string_from_chars(&n) });
                assert(out@.map_values(|a: SophontCode| sophont_view(a)) =~= before + seq![(c@, n@)]);
                pushed = true;
            }
        }
        if !pushed {
            assert(before + Seq::<(Seq<char>, Seq<char>)>::empty() =~= before);
        }
        assert(lv.subrange(1, i + 1).drop_last() =~= lv.subrange(1, i as int));
        i += 1;
    }
    assert(lv.subrange(1, lv.len() as int) =~= body_lines(raw@));
    out
}

/// The name of the last row whose code is `code` (later rows replace earlier
/// ones), skipping rows with a blank code or name.
pub open spec fn code_lookup(rows: Seq<(Seq<char>, Seq<char>, Seq<char>)>, code: Seq<char>) -> Option<Seq<char>>
    decreases rows.len(),
{
    if rows.len() == 0 {
        None
    } else if rows.last().0 == code && rows.last().0.len() > 0 && rows.last().2.len() > 0 {
        Some(rows.last().2)
    } else {
        code_lookup(rows.drop_last(), code)
    }
}

/// The name of the first row whose legacy code is `code`, skipping rows with a
/// blank legacy code or name.
pub open spec fn legacy_lookup(rows: Seq<(Seq<char>, Seq<char>, Seq<char>)>, code: Seq<char>) -> Option<Seq<char>>
    decreases rows.len(),
{
    if rows.len() == 0 {
        None
    } else if rows[0].1 == code && rows[0].1.len() > 0 && rows[0].2.len() > 0 {
        Some(rows[0].2)
    } else {
        legacy_lookup(rows.drop_first(), code)
    }
}

/// Legacy codes that stand for a current code.
pub open spec fn legacy_override(code: Seq<char>) -> Option<Seq<char>> {
    if code == "J-"@ || code == "Jp"@ || code == "Ju"@ {
        Some("JuPr"@)
    } else if code == "Na"@ {
        Some("NaHu"@)
    } else if code == "So"@ {
        Some("SoCf"@)
    } else if code == "Va"@ {
        Some("NaVa"@)
    } else if code == "Zh"@ {
        Some("ZhCo"@)
    } else if code == "??"@ || code == "--"@ {
        Some("XXXX"@)
    } else {
        None
    }
}

/// Major polities with no current generic code.
pub open spec fn stock_legacy_name(code: Seq<char>) -> Option<Seq<char>> {
    if code == "As"@ {
        Some("Aslan Hierate"@)
    } else if code == "Dr"@ {
        Some("Droyne"@)
    } else if code == "Im"@ {
        Some("Third Imperium"@)
    } else if code == "Kk"@ {
        Some("The Two Thousand Worlds"@)
    } else {
        None
    }
}

/// The display name of an allegiance code: the code's own row, else the row
/// of the code it stands for, else a stock legacy name, else the first row
/// with that legacy code.
pub open spec fn allegiance_name_of(rows: Seq<(Seq<char>, Seq<char>, Seq<char>)>, code: Seq<char>) -> Option<Seq<char>> {
    if code_lookup(rows, code) is Some {
        code_lookup(rows, code)
    } else if legacy_override(code) matches Some(t) && code_lookup(rows, t) is Some {
        code_lookup(rows, legacy_override(code).unwrap())
    } else if stock_legacy_name(code) is Some {
        stock_legacy_name(code)
    } else {
        legacy_lookup(rows, code)
    }
}

fn lookup_code(rows: &Vec<AllegianceCode>, code: &str) -> (r: Option<String>)
    ensures
        opt_string_view(r) == code_lookup(rows@.map_values(|a: AllegianceCode| alleg_view(a)), code@),
{
    let ghost rv = rows@.map_values(|a: AllegianceCode| alleg_view(a));
    let mut i: usize = rows.len();
    assert(rv.subrange(0, rv.len() as int) =~= rv);
    while i > 0
        invariant
            i <= rows@.len(),
            rv == rows@.map_values(|a: AllegianceCode| alleg_view(a)),
            code_lookup(rv, code@) == code_lookup(rv.subrange(0, i as int), code@),
        decreases i,
    {
        let r = &rows[i - 1];
        assert(rv.subrange(0, i as int).last() == alleg_view(*r));
        if str_eq(r.code.as_str(), code) && !r.code.as_str().is_empty() && !r.name.as_str().is_empty() {
            return Some(r.name.clone());
        }
        assert(rv.subrange(0, i as int).drop_last() =~= rv.subrange(0, i - 1));
        i -= 1;
    }
    None
}

fn lookup_legacy(rows: &Vec<AllegianceCode>, code: &str) -> (r: Option<String>)
    ensures
        opt_string_view(r) == legacy_lookup(rows@.map_values(|a: AllegianceCode| alleg_view(a)), code@),
{
    let ghost rv = rows@.map_values(|a: AllegianceCode| alleg_view(a));
    let mut i: usize = 0;
    assert(rv.subrange(0, rv.len() as int) =~= rv);
    while i < rows.len()
        invariant
            i <= rows@.len(),
            rv == rows@.map_values(|a: AllegianceCode| alleg_view(a)),
            legacy_lookup(rv, code@) == legacy_lookup(rv.subrange(i as int, rv.len() as int), code@),
        decreases rows@.len() - i,
    {
        let r = &rows[i];
        assert(rv.subrange(i as int, rv.len() as int)[0] == alleg_view(*r));
        if str_eq(r.legacy.as_str(), code) && !r.legacy.as_str().is_empty() && !r.name.as_str().is_empty() {
            return Some(r.name.clone());
        }
        assert(rv.subrange(i as int, rv.len() as int).drop_first() =~= rv.subrange(i + 1, rv.len() as int));
        i += 1;
    }
    None
}

/// The display name of an allegiance code, from the allegiance table.
/// Resolves current codes, the legacy codes that stand for current ones
/// (`So` → `SoCf`), the major polities' legacy codes (`Im`, `As`, `Dr`, `Kk`),
/// and finally any row with that legacy code.
pub fn allegiance_name(codes: &Vec<AllegianceCode>, code: &str) -> (r: Option<String>)
    ensures
        opt_string_view(r) == allegiance_name_of(codes@.map_values(|a: AllegianceCode| alleg_view(a)), code@),
{
    match lookup_code(codes, code) {
        Some(n) => return Some(n),
        None => {},
    }
    let target: Option<&str> = if str_eq(code, "J-") || str_eq(code, "Jp") || str_eq(code, "Ju") {
        Some("JuPr")
    } else if str_eq(code, "Na") {
        Some("NaHu")
    } else if str_eq(code, "So") {
        Some("SoCf")
    } else if str_eq(code, "Va") {
        Some("NaVa")
    } else if str_eq(code, "Zh") {
        Some("ZhCo")
    } else if str_eq(code, "??") || str_eq(code, "--") {
        Some("XXXX")
    } else {
        None
    };
    assert(opt_str_view(target) == legacy_override(code@));
    match target {
        Some(t) => match lookup_code(codes, t) {
            Some(n) => return Some(n),
            None => {},
        },
        None => {},
    }
    if str_eq(code, "As") {
        Some("Aslan Hierate".to_owned())
    } else if str_eq(code, "Dr") {
        Some("Droyne".to_owned())
    } else if str_eq(code, "Im") {
        Some("Third Imperium".to_owned())
    } else if str_eq(code, "Kk") {
        Some("The Two Thousand Worlds".to_owned())
    } else {
        lookup_legacy(codes, code)
    }
}

/// The single-letter sophont codes every table knows.
pub open spec fn stock_sophont(code: Seq<char>) -> Option<Seq<char>> {
    if code == "A"@ {
        Some("Aslan"@)
    } else if code == "C"@ {
        Some("Chirper"@)
    } else if code == "D"@ {
        Some("Droyne"@)
    } else if code == "F"@ {
        Some("Non-Hiver"@)
    } else if code == "H"@ {
        Some("Hiver"@)
    } else if code == "I"@ {
        Some("Ithklur"@)
    } else if code == "M"@ {
        Some("Human"@)
    } else if code == "V"@ {
        Some("Vargr"@)
    } else if code == "X"@ {
        Some("Addaxur"@)
    } else if code == "Z"@ {
        Some("Zhodani"@)
    } else {
        None
    }
}

/// The name of the last table row with the code `code`.
pub open spec fn sophont_lookup(rows: Seq<(Seq<char>, Seq<char>)>, code: Seq<char>) -> Option<Seq<char>>
    decreases rows.len(),
{
    if rows.len() == 0 {
        None
    } else if rows.last().0 == code {
        Some(rows.last().1)
    } else {
        sophont_lookup(rows.drop_last(), code)
    }
}

/// A sophont's name: the table's row for the code, else the stock name.
pub open spec fn sophont_name_of(rows: Seq<(Seq<char>, Seq<char>)>, code: Seq<char>) -> Option<Seq<char>> {
    if sophont_lookup(rows, code) is Some { sophont_lookup(rows, code) } else { stock_sophont(code) }
}

fn sophont_name(rows: &Vec<SophontCode>, code: &str) -> (r: Option<String>)
    ensures
        opt_string_view(r) == sophont_name_of(rows@.map_values(|a: SophontCode| sophont_view(a)), code@),
{
    let ghost rv = rows@.map_values(|a: SophontCode| sophont_view(a));
    let mut i: usize = rows.len();
    assert(rv.subrange(0, rv.len() as int) =~= rv);
    while i > 0
        invariant
            i <= rows@.len(),
            rv == rows@.map_values(|a: SophontCode| sophont_view(a)),
            sophont_lookup(rv, code@) == sophont_lookup(rv.subrange(0, i as int), code@),
        decreases i,
    {
        let r = &rows[i - 1];
        assert(rv.subrange(0, i as int).last() == sophont_view(*r));
        if str_eq(r.code.as_str(), code) {
            return Some(r.name.clone());
        }
        assert(rv.subrange(0, i as int).drop_last() =~= rv.subrange(0, i - 1));
        i -= 1;
    }
    let s: Option<&str> = if str_eq(code, "A") {
        Some("Aslan")
    } else if str_eq(code, "C") {
        Some("Chirper")
    } else if str_eq(code, "D") {
        Some("Droyne")
    } else if str_eq(code, "F") {
        Some("Non-Hiver")
    } else if str_eq(code, "H") {
        Some("Hiver")
    } else if str_eq(code, "I") {
        Some("Ithklur")
    } else if str_eq(code, "M") {
        Some("Human")
    } else if str_eq(code, "V") {
        Some("Vargr")
    } else if str_eq(code, "X") {
        Some("Addaxur")
    } else if str_eq(code, "Z") {
        Some("Zhodani")
    } else {
        None
    };
    match s {
        Some(t) => Some(t.to_owned()),
        None => None,
    }
}

} // verus!

verus! {

// ── Remarks ─────────────────────────────────────────────────────────────────

/// Index of the first `c` in `s` at or after `j`.
pub open spec fn find_from(s: Seq<char>, c: char, j: int) -> Option<int>
    decreases s.len() - j,
{
    if j < 0 || j >= s.len() { None } else if s[j] == c { Some(j) } else { find_from(s, c, j + 1) }
}

/// `e`, or `e + 1` when `s[e]` is a digit or `?` (a population suffix).
pub open spec fn with_suffix(s: Seq<char>, e: int) -> int {
    if 0 <= e < s.len() && (('0' <= s[e] && s[e] <= '9') || s[e] == '?') { e + 1 } else { e }
}

/// End of the run of non-whitespace characters starting at `j`.
pub open spec fn nonws_end(s: Seq<char>, j: int) -> int
    decreases s.len() - j,
{
    if j < 0 || j >= s.len() || is_ws(s[j]) { j } else { nonws_end(s, j + 1) }
}

/// End of the remark token that starts at the non-blank `s[i]`, trying in
/// order: a sophont group `(…)`, optionally after `Di`, with an optional
/// population digit or `?`; a bracketed group `[…]`, likewise; a comment
/// `{…}`; otherwise the run of non-whitespace.
pub open spec fn remark_end(s: Seq<char>, i: int) -> int {
    if i + 2 < s.len() && s[i] == 'D' && s[i + 1] == 'i' && s[i + 2] == '(' && find_from(s, ')', i + 3) is Some {
        with_suffix(s, find_from(s, ')', i + 3).unwrap() + 1)
    } else if 0 <= i < s.len() && s[i] == '(' && find_from(s, ')', i + 1) is Some {
        with_suffix(s, find_from(s, ')', i + 1).unwrap() + 1)
    } else if 0 <= i < s.len() && s[i] == '[' && find_from(s, ']', i + 1) is Some {
        with_suffix(s, find_from(s, ']', i + 1).unwrap() + 1)
    } else if 0 <= i < s.len() && s[i] == '{' && find_from(s, '}', i + 1) is Some {
        find_from(s, '}', i + 1).unwrap() + 1
    } else {
        nonws_end(s, i)
    }
}

/// The remark tokens of `s[i..]`.
pub open spec fn remark_tokens(s: Seq<char>, i: int) -> Seq<Seq<char>>
    decreases s.len() - i,
{
    if i < 0 || i >= s.len() {
        Seq::empty()
    } else if is_ws(s[i]) {
        remark_tokens(s, i + 1)
    } else {
        let e = remark_end(s, i);
        if e <= i || e > s.len() { Seq::empty() } else { seq![s.subrange(i, e)] + remark_tokens(s, e) }
    }
}

fn find_char(s: &Vec<char>, c: char, j: usize) -> (r: Option<usize>)
    requires
        j <= s@.len(),
    ensures
        match r {
            Some(k) => find_from(s@, c, j as int) == Some(k as int) && j <= k < s@.len(),
            None => find_from(s@, c, j as int) is None,
        },
{
    let mut k = j;
    while k < s.len()
        invariant
            j <= k <= s@.len(),
            find_from(s@, c, j as int) == find_from(s@, c, k as int),
        decreases s@.len() - k,
    {
        if s[k] == c {
            return Some(k);
        }
        k += 1;
    }
    None
}

fn suffix_end(s: &Vec<char>, e: usize) -> (r: usize)
    requires
        e <= s@.len(),
    ensures
        r == with_suffix(s@, e as int),
        e <= r <= s@.len(),
{
    if e < s.len() && (('0' <= s[e] && s[e] <= '9') || s[e] == '?') { e + 1 } else { e }
}

fn nonws_end_exec(s: &Vec<char>, j: usize) -> (r: usize)
    requires
        j <= s@.len(),
    ensures
        r == nonws_end(s@, j as int),
        j <= r <= s@.len(),
{
    let mut k = j;
    while k < s.len() && !is_whitespace(s[k])
        invariant
            j <= k <= s@.len(),
            nonws_end(s@, j as int) == nonws_end(s@, k as int),
        decreases s@.len() - k,
    {
        k += 1;
    }
    k
}

fn remark_end_exec(s: &Vec<char>, i: usize) -> (r: usize)
    requires
        i < s@.len(),
    ensures
        r == remark_end(s@, i as int),
        r <= s@.len(),
{
    if s.len() - i > 2 && s[i] == 'D' && s[i + 1] == 'i' && s[i + 2] == '(' {
        match find_char(s, ')', i + 3) {
            Some(c) => return suffix_end(s, c + 1),
            None => {},
        }
    }
    if s[i] == '(' {
        match find_char(s, ')', i + 1) {
            Some(c) => return suffix_end(s, c + 1),
            None => {},
        }
    }
    if s[i] == '[' {
        match find_char(s, ']', i + 1) {
            Some(c) => return suffix_end(s, c + 1),
            None => {},
        }
    }
    if s[i] == '{' {
        match find_char(s, '}', i + 1) {
            Some(c) => return c + 1,
            None => {},
        }
    }
    nonws_end_exec(s, i)
}

/// Split a remarks string into its codes: sophont groups `(…)` (optionally
/// `Di`-prefixed) and `[…]` with an optional population digit, `{comments}`,
/// and plain whitespace-separated tokens.
pub fn split_remarks(remarks: &str) -> (r: Vec<String>)
    ensures
        r@.map_values(|t: String| t@) == remark_tokens(remarks@, 0),
{
    let s = chars_of(remarks);
    let mut out: Vec<String> = Vec::new();
    let mut i: usize = 0;
    assert(out@.map_values(|t: String| t@) + remark_tokens(s@, 0) =~= remark_tokens(s@, 0));
    while i < s.len()
        invariant
            i <= s@.len(),
            s@ == remarks@,
            remark_tokens(s@, 0) == out@.map_values(|t: String| t@) + remark_tokens(s@, i as int),
        decreases s@.len() - i,
    {
        if is_whitespace(s[i]) {
            i += 1;
        } else {
            let e = remark_end_exec(&s, i);
            if e <= i {
                assert(remark_tokens(s@, i as int) =~= Seq::<Seq<char>>::empty());
                assert(out@.map_values(|t: String| t@) + Seq::<Seq<char>>::empty() =~= out@.map_values(|t: String| t@));
                return out;
            }
            let piece = slice_to_vec(&s, i, e);
            let ghost before = out@.map_values(|t: String| t@);
            out.push(string_from_chars(&piece));
            assert(out@.map_values(|t: String| t@) =~= before.push(s@.subrange(i as int, e as int)));
            assert(before + remark_tokens(s@, i as int) =~= out@.map_values(|t: String| t@) + remark_tokens(s@, e as int));
            i = e;
        }
    }
    assert(out@.map_values(|t: String| t@) + remark_tokens(s@, i as int) =~= out@.map_values(|t: String| t@));
    out
}

/// What `regex::Regex::new(pattern)` and then `captures(text)` give: the
/// groups of the first match (group 0 the whole match, `None` for a group
/// that took no part), or `None` when nothing matches.
pub uninterp spec fn regex_captures(pattern: Seq<char>, text: Seq<char>) -> Option<Seq<Option<Seq<char>>>>;

/// The groups of a match as plain values.
pub open spec fn caps_view(c: Option<Vec<Option<String>>>) -> Option<Seq<Option<Seq<char>>>> {
    match c {
        Some(v) => Some(v@.map_values(|g: Option<String>| opt_string_view(g))),
        None => None,
    }
}

/// Compiles `pattern` with `regex::Regex::new` and calls `Regex::captures` on
/// `text`; the result is [`regex_captures`] of the two, and `None` also when
/// the pattern does not compile.
#[verifier::external_body]
pub(crate) fn captures(pattern: &str, text: &str) -> (r: Option<Vec<Option<String>>>)
    ensures
        caps_view(r) == regex_captures(pattern@, text@),
{
    match regex::Regex::new(pattern) {
        Ok(re) => re.captures(text).map(|c| c.iter().map(|m| m.map(|m| m.as_str().to_string())).collect()),
        Err(_) => None,
    }
}

/// The remark patterns, tried in order after the exact-code table.
pub open spec fn remark_patterns() -> Seq<Seq<char>> {
    seq![
        r"^Rs\w$"@,
        r"^Rw:?\w$"@,
        r"^O:\d\d\d\d$"@,
        r"^O:\d\d\d\d-\w+$"@,
        r"^O:\w\w$"@,
        r"^Mr:\d\d\d\d$"@,
        r"^\[.*\]\??$"@,
        r"^\(.*\)\??$"@,
        r"^\(.*\)(\d)$"@,
        r"^Di\(.*\)$"@,
        r"^([A-Z][A-Za-z']{3})([0-9W?])$"@,
        r"^([ACDFHIMVXZ])([0-9w])$"@,
        r"^\{.*\}$"@
    ]
}

fn remark_pattern(i: usize) -> (p: &'static str)
    requires
        i < 13,
    ensures
        p@ == remark_patterns()[i as int],
{
    match i {
        0 => r"^Rs\w$",
        1 => r"^Rw:?\w$",
        2 => r"^O:\d\d\d\d$",
        3 => r"^O:\d\d\d\d-\w+$",
        4 => r"^O:\w\w$",
        5 => r"^Mr:\d\d\d\d$",
        6 => r"^\[.*\]\??$",
        7 => r"^\(.*\)\??$",
        8 => r"^\(.*\)(\d)$",
        9 => r"^Di\(.*\)$",
        10 => r"^([A-Z][A-Za-z']{3})([0-9W?])$",
        11 => r"^([ACDFHIMVXZ])([0-9w])$",
        _ => r"^\{.*\}$",
    }
}

/// The first remark pattern, from the `i`-th on, that matches `code`, with
/// its groups.
pub open spec fn first_match(code: Seq<char>, i: int) -> Option<(int, Seq<Option<Seq<char>>>)>
    decreases 13 - i,
{
    if i < 0 || i >= 13 {
        None
    } else {
        match regex_captures(remark_patterns()[i], code) {
            Some(c) => Some((i, c)),
            None => first_match(code, i + 1),
        }
    }
}

/// The text of group `k`, empty when absent.
pub open spec fn group(caps: Seq<Option<Seq<char>>>, k: int) -> Seq<char> {
    if 0 <= k < caps.len() {
        match caps[k] {
            Some(t) => t,
            None => Seq::empty(),
        }
    } else {
        Seq::empty()
    }
}

/// The population band of a sophont's population digit.
pub open spec fn population_band(pop: Seq<char>) -> Seq<char> {
    if pop == "0"@ {
        "< 10%"@
    } else if pop == "W"@ || pop == "w"@ {
        "100%"@
    } else if pop == "?"@ {
        "Unknown"@
    } else {
        pop + "0%"@
    }
}

/// `"<sophont>, Population <band>"`, with `Sophont` for an unknown code.
pub open spec fn sophont_population(rows: Seq<(Seq<char>, Seq<char>)>, code: Seq<char>, pop: Seq<char>) -> Seq<char> {
    let name = match sophont_name_of(rows, code) {
        Some(n) => n,
        None => "Sophont"@,
    };
    name + ", Population "@ + population_band(pop)
}

/// The detail text for a remark that matched pattern `i` with groups `caps`.
pub open spec fn pattern_detail(i: int, caps: Seq<Option<Seq<char>>>, rows: Seq<(Seq<char>, Seq<char>)>) -> Seq<char> {
    if i == 0 {
        "Research Station"@
    } else if i == 1 {
        "Refugee World"@
    } else if 2 <= i <= 4 {
        "Controlled"@
    } else if i == 5 {
        "Military rule"@
    } else if i == 6 || i == 7 {
        "Homeworld"@
    } else if i == 8 {
        "Homeworld, Population "@ + group(caps, 1) + "0%"@
    } else if i == 9 {
        "Homeworld, Extinct"@
    } else if i == 10 || i == 11 {
        sophont_population(rows, group(caps, 1), group(caps, 2))
    } else if i == 12 {
        Seq::empty()
    } else {
        "???"@
    }
}

/// The detail text of a remark code: the exact-code table, else the first
/// matching pattern, else `???`.
pub open spec fn remark_detail(code: Seq<char>, rows: Seq<(Seq<char>, Seq<char>)>) -> Seq<char> {
    match remark_text(code) {
        Some(d) => d,
        None => match first_match(code, 0) {
            Some((i, caps)) => pattern_detail(i, caps, rows),
            None => "???"@,
        },
    }
}

fn group_text(caps: &Vec<Option<String>>, k: usize) -> (r: String)
    ensures
        r@ == group(caps@.map_values(|g: Option<String>| opt_string_view(g)), k as int),
{
    if k < caps.len() {
        match &caps[k] {
            Some(t) => t.clone(),
            None => String::new(),
        }
    } else {
        String::new()
    }
}

fn population_band_text(pop: &str) -> (r: String)
    ensures
        r@ == population_band(pop@),
{
    if str_eq(pop, "0") {
        "< 10%".to_owned()
    } else if str_eq(pop, "W") || str_eq(pop, "w") {
        "100%".to_owned()
    } else if str_eq(pop, "?") {
        "Unknown".to_owned()
    } else {
        cat(pop, "0%")
    }
}

fn decode_sophont_population(sophonts: &Vec<SophontCode>, code: &str, pop: &str) -> (r: String)
    ensures
        r@ == sophont_population(sophonts@.map_values(|a: SophontCode| sophont_view(a)), code@, pop@),
{
    let name = match sophont_name(sophonts, code) {
        Some(n) => n,
        None => "Sophont".to_owned(),
    };
    let band = population_band_text(pop);
    let mut v: Vec<char> = Vec::new();
    push_str_chars(&mut v, name.as_str());
    push_str_chars(&mut v, ", Population ");
    push_str_chars(&mut v, band.as_str());
    string_from_chars(&v)
}

/// The detail text for a remark that matched the `i`-th remark pattern with
/// the groups `caps` (see [`pattern_detail`]).
pub fn remark_for_pattern(i: usize, caps: &Vec<Option<String>>, sophonts: &Vec<SophontCode>) -> (r: String)
    ensures
        r@ == pattern_detail(i as int, caps@.map_values(|g: Option<String>| opt_string_view(g)),
            sophonts@.map_values(|a: SophontCode| sophont_view(a))),
{
    if i == 0 {
        "Research Station".to_owned()
    } else if i == 1 {
        "Refugee World".to_owned()
    } else if 2 <= i && i <= 4 {
        "Controlled".to_owned()
    } else if i == 5 {
        "Military rule".to_owned()
    } else if i == 6 || i == 7 {
        "Homeworld".to_owned()
    } else if i == 8 {
        let g = group_text(caps, 1);
        let mut v: Vec<char> = Vec::new();
        push_str_chars(&mut v, "Homeworld, Population ");
        push_str_chars(&mut v, g.as_str());
        push_str_chars(&mut v, "0%");
        string_from_chars(&v)
    } else if i == 9 {
        "Homeworld, Extinct".to_owned()
    } else if i == 10 || i == 11 {
        let code = group_text(caps, 1);
        let pop = group_text(caps, 2);
        decode_sophont_population(sophonts, code.as_str(), pop.as_str())
    } else if i == 12 {
        String::new()
    } else {
        "???".to_owned()
    }
}

/// The detail text of one remark code (see [`remark_detail`]).
pub fn decode_remark(code: &str, sophonts: &Vec<SophontCode>) -> (r: String)
    ensures
        r@ == remark_detail(code@, sophonts@.map_values(|a: SophontCode| sophont_view(a))),
{
    match remarks_table(code) {
        Some(d) => return d.to_owned(),
        None => {},
    }
    let mut i: usize = 0;
    while i < 13
        invariant
            i <= 13,
            remark_text(code@) is None,
            first_match(code@, 0) == first_match(code@, i as int),
        decreases 13 - i,
    {
        let p = remark_pattern(i);
        match captures(p, code) {
            Some(caps) => return remark_for_pattern(i, &caps, sophonts),
            None => {},
        }
        i += 1;
    }
    "???".to_owned()
}

} // verus!

verus! {

// ── Stars ───────────────────────────────────────────────────────────────────

pub open spec fn is_spectral(c: char) -> bool {
    c == 'O' || c == 'B' || c == 'A' || c == 'F' || c == 'G' || c == 'K' || c == 'M'
}

pub open spec fn is_digit_char(c: char) -> bool {
    '0' <= c && c <= '9'
}

/// `s` with every `<class><digit> D` (a white dwarf companion written with its
/// progenitor's class) shortened to `D`, scanning left to right.
pub open spec fn collapse_dwarfs(s: Seq<char>) -> Seq<char>
    decreases s.len(),
{
    if s.len() == 0 {
        Seq::empty()
    } else if s.len() >= 4 && is_spectral(s[0]) && is_digit_char(s[1]) && s[2] == ' ' && s[3] == 'D' {
        seq!['D'] + collapse_dwarfs(s.subrange(4, s.len() as int))
    } else {
        seq![s[0]] + collapse_dwarfs(s.drop_first())
    }
}

/// A luminosity-class token.
pub open spec fn is_luminosity(t: Seq<char>) -> bool {
    t == "Ia"@ || t == "Ib"@ || t == "II"@ || t == "III"@ || t == "IV"@ || t == "V"@ || t == "VI"@ || t == "VII"@
}

/// Group stellar tokens into stars: a luminosity class joins the star before
/// it (after a space); any other token starts a new star.
pub open spec fn group_stars(toks: Seq<Seq<char>>) -> Seq<Seq<char>>
    decreases toks.len(),
{
    if toks.len() == 0 {
        Seq::empty()
    } else {
        let g = group_stars(toks.drop_last());
        let t = toks.last();
        if is_luminosity(t) && g.len() > 0 {
            g.update(g.len() - 1, g.last() + seq![' '] + t)
        } else {
            g.push(t)
        }
    }
}

/// The last whitespace-separated token of `code`, or empty.
pub open spec fn last_token(code: Seq<char>) -> Seq<char> {
    let t = ws_tokens(code);
    if t.len() > 0 { t.last() } else { Seq::empty() }
}

/// `[OBA]<digit> V` exactly: shown as "Main Sequence", not "Dwarf".
pub open spec fn main_sequence_star(code: Seq<char>) -> bool {
    code.len() == 4 && (code[0] == 'O' || code[0] == 'B' || code[0] == 'A') && is_digit_char(code[1])
        && code[2] == ' ' && code[3] == 'V'
}

/// The color of an ordinary star, from its spectral class.
pub open spec fn star_color(code: Seq<char>) -> Option<Seq<char>> {
    if code.len() >= 3 && is_digit_char(code[1]) && code[2] == ' ' {
        if code[0] == 'O' || code[0] == 'B' {
            Some("Blue"@)
        } else if code[0] == 'A' {
            Some("White"@)
        } else if code[0] == 'F' {
            Some("Yellow-White"@)
        } else if code[0] == 'G' {
            Some("Yellow"@)
        } else if code[0] == 'K' {
            Some("Orange"@)
        } else if code[0] == 'M' {
            Some("Red"@)
        } else {
            None
        }
    } else {
        None
    }
}

/// The detail text of one star.
pub open spec fn star_detail(code: Seq<char>) -> Seq<char> {
    let base = if main_sequence_star(code) { "Main Sequence"@ } else { or_empty(luminosity_text(last_token(code))) };
    match star_color(code) {
        Some(c) => c + seq![' '] + base,
        None => base,
    }
}

/// The decoded stars of a stellar field.
pub open spec fn stars_decoded(stellar: Seq<char>) -> Seq<(Seq<char>, Seq<char>)> {
    group_stars(ws_tokens(collapse_dwarfs(stellar))).map_values(|c: Seq<char>| (c, star_detail(c)))
}

fn collapse_dwarfs_exec(s: &Vec<char>) -> (r: Vec<char>)
    ensures
        r@ == collapse_dwarfs(s@),
{
    let mut out: Vec<char> = Vec::new();
    let mut i: usize = 0;
    assert(s@.subrange(0, s@.len() as int) =~= s@);
    while i < s.len()
        invariant
            i <= s@.len(),
            collapse_dwarfs(s@) == out@ + collapse_dwarfs(s@.subrange(i as int, s@.len() as int)),
        decreases s@.len() - i,
    {
        let ghost rest = s@.subrange(i as int, s@.len() as int);
        let c = s[i];
        if s.len() - i >= 4 && (c == 'O' || c == 'B' || c == 'A' || c == 'F' || c == 'G' || c == 'K' || c == 'M')
            && '0' <= s[i + 1] && s[i + 1] <= '9' && s[i + 2] == ' ' && s[i + 3] == 'D' {
            assert(rest.subrange(4, rest.len() as int) =~= s@.subrange(i + 4, s@.len() as int));
            out.push('D');
            i += 4;
        } else {
            assert(rest.drop_first() =~= s@.subrange(i + 1, s@.len() as int));
            out.push(c);
            i += 1;
        }
    }
    assert(s@.subrange(i as int, s@.len() as int) =~= Seq::<char>::empty());
    assert(out@ + Seq::<char>::empty() =~= out@);
    out
}

fn is_luminosity_token(t: &str) -> (b: bool)
    ensures
        b == is_luminosity(t@),
{
    str_eq(t, "Ia") || str_eq(t, "Ib") || str_eq(t, "II") || str_eq(t, "III") || str_eq(t, "IV") || str_eq(t, "V")
        || str_eq(t, "VI") || str_eq(t, "VII")
}

fn star_detail_text(code: &str) -> (r: String)
    ensures
        r@ == star_detail(code@),
{
    let cs = chars_of(code);
    let toks = split_ws(code);
    proof {
        assert(toks@.map_values(|t: String| t@).len() == toks@.len());
    }
    let last: String = if toks.len() > 0 { toks[toks.len() - 1].clone() } else { String::new() };
    let ms = cs.len() == 4 && (cs[0] == 'O' || cs[0] == 'B' || cs[0] == 'A') && '0' <= cs[1] && cs[1] <= '9'
        && cs[2] == ' ' && cs[3] == 'V';
    let base: String = if ms {
        "Main Sequence".to_owned()
    } else {
        match stellar_blurb(last.as_str()) {
            Some(b) => b.to_owned(),
            None => String::new(),
        }
    };
    let color: Option<&str> = if cs.len() >= 3 && '0' <= cs[1] && cs[1] <= '9' && cs[2] == ' ' {
        if cs[0] == 'O' || cs[0] == 'B' {
            Some("Blue")
        } else if cs[0] == 'A' {
            Some("White")
        } else if cs[0] == 'F' {
            Some("Yellow-White")
        } else if cs[0] == 'G' {
            Some("Yellow")
        } else if cs[0] == 'K' {
            Some("Orange")
        } else if cs[0] == 'M' {
            Some("Red")
        } else {
            None
        }
    } else {
        None
    };
    match color {
        Some(c) => {
            let mut v: Vec<char> = Vec::new();
            push_str_chars(&mut v, c);
            v.push(' ');
            push_str_chars(&mut v, base.as_str());
            string_from_chars(&v)
        },
        None => base,
    }
}

/// Decode stellar data into stars, each with its description.
fn decode_stars(stellar: &str) -> (r: Vec<Decoded>)
    ensures
        r@.map_values(|d: Decoded| dview(d)) == stars_decoded(stellar@),
{
    let cs = chars_of(stellar);
    let collapsed = collapse_dwarfs_exec(&cs);
    let cstr = string_from_chars(&collapsed);
    let toks = split_ws(cstr.as_str());
    let ghost tv = toks@.map_values(|t: String| t@);
    let mut stars: Vec<Vec<char>> = Vec::new();
    let mut i: usize = 0;
    assert(tv.subrange(0, 0) =~= Seq::<Seq<char>>::empty());
    assert(stars@.map_values(|v: Vec<char>| v@) =~= Seq::<Seq<char>>::empty());
    while i < toks.len()
        invariant
            i <= toks@.len(),
            tv == toks@.map_values(|t: String| t@),
            stars@.map_values(|v: Vec<char>| v@) == group_stars(tv.subrange(0, i as int)),
        decreases toks@.len() - i,
    {
        let ghost before = stars@.map_values(|v: Vec<char>| v@);
        let t = toks[i].as_str();
        let tc = chars_of(t);
        assert(tv.subrange(0, i + 1).drop_last() =~= tv.subrange(0, i as int));
        assert(tv.subrange(0, i + 1).last() == t@);
        if is_luminosity_token(t) && stars.len() > 0 {
            let mut last = stars.pop().unwrap();
            let ghost lv = last@;
            assert(before.last() == lv);
            last.push(' ');
            let mut k: usize = 0;
            while k < tc.len()
                invariant
                    k <= tc@.len(),
                    last@ == lv + seq![' '] + tc@.subrange(0, k as int),
                decreases tc@.len() - k,
            {
                last.push(tc[k]);
                k += 1;
                assert(last@ =~= lv + seq![' '] + tc@.subrange(0, k as int));
            }
            assert(tc@.subrange(0, tc@.len() as int) =~= tc@);
            stars.push(last);
            assert(stars@.map_values(|v: Vec<char>| v@) =~= before.update(before.len() - 1, lv + seq![' '] + t@));
        } else {
            stars.push(tc);
            assert(stars@.map_values(|v: Vec<char>| v@) =~= before.push(t@));
        }
        i += 1;
    }
    assert(tv.subrange(0, tv.len() as int) =~= tv);
    let ghost sv = stars@.map_values(|v: Vec<char>| v@);
    let mut out: Vec<Decoded> = Vec::new();
    let mut j: usize = 0;
    while j < stars.len()
        invariant
            j <= stars@.len(),
            sv == stars@.map_values(|v: Vec<char>| v@),
            out@.map_values(|d: Decoded| dview(d)) == sv.subrange(0, j as int).map_values(|c: Seq<char>| (c, star_detail(c))),
        decreases stars@.len() - j,
    {
        let code = string_from_chars(&stars[j]);
        assert(code@ == sv[j as int]);
        let detail = star_detail_text(code.as_str());
        let ghost before = out@.map_values(|d: Decoded| dview(d));
        assert(sv.subrange(0, j + 1) =~= sv.subrange(0, j as int).push(sv[j as int]));
        let ghost pair = (code@, detail@);
        out.push(Decoded { code, blurb: detail });
        assert(out@.map_values(|d: Decoded| dview(d)) =~= before.push(pair));
        assert(sv.subrange(0, j + 1).map_values(|c: Seq<char>| (c, star_detail(c)))
            =~= sv.subrange(0, j as int).map_values(|c: Seq<char>| (c, star_detail(c))).push(pair));
        j += 1;
    }
    assert(sv.subrange(0, sv.len() as int) =~= sv);
    out
}

} // verus!

verus! {

// ── The whole sheet ─────────────────────────────────────────────────────────

/// The population multiplier of a PBG (at least 0).
pub open spec fn pbg_mult(pbg: Seq<char>) -> int {
    if ehex_at(pbg, 0) < 0 { 0 } else { ehex_at(pbg, 0) }
}

/// The decoded remarks: each remark token with its detail text.
pub open spec fn remarks_decoded(remarks: Seq<char>, rows: Seq<(Seq<char>, Seq<char>)>) -> Seq<(Seq<char>, Seq<char>)> {
    remark_tokens(remarks, 0).map_values(|c: Seq<char>| (c, remark_detail(c, rows)))
}

/// Worlds other than the main world, belts and gas giants (at least 0).
pub open spec fn other_worlds_of(worlds: Option<u8>, pbg: Seq<char>) -> Option<int> {
    match (worlds, known(ehex_at(pbg, 1)), known(ehex_at(pbg, 2))) {
        (Some(w), Some(b), Some(g)) => Some(if w - 1 - b - g < 0 { 0 } else { w - 1 - b - g }),
        _ => None,
    }
}

/// `d` is the decoded sheet of `w`, given the code tables' rows.
pub open spec fn world_decoded(d: DecodedWorld, w: World, arows: Seq<(Seq<char>, Seq<char>, Seq<char>)>, srows: Seq<(Seq<char>, Seq<char>)>) -> bool {
    &&& d.is_placeholder == (w.uwp@ == "XXXXXXX-X"@ || w.uwp@ == "???????-?"@)
    &&& uwp_decoded(d.uwp, w.uwp@)
    &&& pbg_decoded(d.pbg, w.pbg@)
    &&& opt_string_view(d.total_population) == total_population_text(w.uwp@, pbg_mult(w.pbg@))
    &&& (match w.importance {
        Some(ix) => match ix_value(ix@) {
            Some(v) => d.importance matches Some(di) && ix_decoded(di, v),
            None => d.importance is None,
        },
        None => d.importance is None,
    })
    &&& (match w.economic {
        Some(ex) => d.economics matches Some(e) && ex_decoded(e, ex@),
        None => d.economics is None,
    })
    &&& (match w.cultural {
        Some(cx) => d.culture matches Some(c) && cx_decoded(c, cx@),
        None => d.culture is None,
    })
    &&& d.nobility@.map_values(|x: Decoded| dview(x)) == (match w.nobility {
        Some(n) => nobility_decoded(n@),
        None => Seq::empty(),
    })
    &&& d.remarks@.map_values(|x: Decoded| dview(x)) == remarks_decoded(w.remarks@, srows)
    &&& d.bases@.map_values(|x: String| x@) == bases_decoded(w.bases@, w.allegiance@, remarks_decoded(w.remarks@, srows))
    &&& d.stars@.map_values(|x: Decoded| dview(x)) == stars_decoded(w.stellar@)
    &&& (d.zone.rule@, d.zone.rating@, d.zone.class_name@) == zone_text(w.zone@)
    &&& (match w.worlds {
        Some(n) => d.worlds == Some(n as u32),
        None => d.worlds is None,
    })
    &&& (match other_worlds_of(w.worlds, w.pbg@) {
        Some(n) => d.other_worlds matches Some(o) && o as int == n,
        None => d.other_worlds is None,
    })
    &&& opt_string_view(d.allegiance_name) == (if w.allegiance@.len() == 0 { None } else { allegiance_name_of(arows, w.allegiance@) })
}

/// Decode every field of a world for the data sheet, with the stock code
/// tables for allegiance and sophont names.
pub fn decode_world(world: &World, tables: &CodeTables) -> (d: DecodedWorld)
    ensures
        world_decoded(d, *world, tables.allegiances@.map_values(|a: AllegianceCode| alleg_view(a)),
            tables.sophonts@.map_values(|a: SophontCode| sophont_view(a))),
{
    let is_placeholder = str_eq(world.uwp.as_str(), "XXXXXXX-X") || str_eq(world.uwp.as_str(), "???????-?");
    let uwp = split_uwp(world.uwp.as_str());
    let pbg = split_pbg(world.pbg.as_str());
    let uwp_chars = chars_of(world.uwp.as_str());
    let total_population = total_population(&uwp_chars, pbg.pop_mult);

    let importance = match &world.importance {
        Some(ix) => decode_ix(ix.as_str()),
        None => None,
    };
    let economics = match &world.economic {
        Some(ex) => Some(decode_ex(ex.as_str())),
        None => None,
    };
    let culture = match &world.cultural {
        Some(cx) => Some(decode_cx(cx.as_str())),
        None => None,
    };
    let nobility = match &world.nobility {
        Some(n) => decode_nobility(n.as_str()),
        None => {
            let v: Vec<Decoded> = Vec::new();
            assert(v@.map_values(|x: Decoded| dview(x)) =~= Seq::<(Seq<char>, Seq<char>)>::empty());
            v
        },
    };

    let ghost srows = tables.sophonts@.map_values(|a: SophontCode| sophont_view(a));
    let codes = split_remarks(world.remarks.as_str());
    let ghost cv = codes@.map_values(|t: String| t@);
    let mut remarks: Vec<Decoded> = Vec::new();
    let mut i: usize = 0;
    while i < codes.len()
        invariant
            i <= codes@.len(),
            cv == codes@.map_values(|t: String| t@),
            cv == remark_tokens(world.remarks@, 0),
            srows == tables.sophonts@.map_values(|a: SophontCode| sophont_view(a)),
            remarks@.map_values(|x: Decoded| dview(x)) == cv.subrange(0, i as int).map_values(|c: Seq<char>| (c, remark_detail(c, srows))),
        decreases codes@.len() - i,
    {
        let code = codes[i].clone();
        let blurb = decode_remark(code.as_str(), &tables.sophonts);
        let ghost pair = (code@, blurb@);
        let ghost before = remarks@.map_values(|x: Decoded| dview(x));
        remarks.push(Decoded { code, blurb });
        assert(remarks@.map_values(|x: Decoded| dview(x)) =~= before.push(pair));
        assert(cv.subrange(0, i + 1).map_values(|c: Seq<char>| (c, remark_detail(c, srows)))
            =~= cv.subrange(0, i as int).map_values(|c: Seq<char>| (c, remark_detail(c, srows))).push(pair));
        i += 1;
    }
    assert(cv.subrange(0, cv.len() as int) =~= cv);

    let bases = decode_bases(world.bases.as_str(), world.allegiance.as_str(), &remarks);
    let stars = decode_stars(world.stellar.as_str());
    let zone = decode_zone(world.zone.as_str());

    let worlds: Option<u32> = match world.worlds {
        Some(n) => Some(n as u32),
        None => None,
    };
    let other_worlds: Option<u32> = match (world.worlds, pbg.belts, pbg.gas_giants) {
        (Some(w), Some(b), Some(g)) => {
            let v: i64 = w as i64 - 1 - b as i64 - g as i64;
            Some(if v < 0 { 0 } else { v as u32 })
        },
        _ => None,
    };

    let allegiance_name = if world.allegiance.as_str().is_empty() {
        None
    } else {
        allegiance_name(&tables.allegiances, world.allegiance.as_str())
    };

    DecodedWorld {
        is_placeholder,
        uwp,
        pbg,
        total_population,
        importance,
        economics,
        culture,
        nobility,
        remarks,
        bases,
        stars,
        zone,
        worlds,
        other_worlds,
        allegiance_name,
    }
}

} // verus!

verus! {

/// The base code of the first table row with this code, when not blank.
pub open spec fn base_of(rows: Seq<AllegianceCode>, code: Seq<char>) -> Option<Seq<char>>
    decreases rows.len(),
{
    if rows.len() == 0 {
        None
    } else if rows[0].code@ == code {
        if rows[0].base@.len() > 0 { Some(rows[0].base@) } else { None }
    } else {
        base_of(rows.drop_first(), code)
    }
}

/// The base code of an allegiance code, from the allegiance table.
pub fn allegiance_base(codes: &Vec<AllegianceCode>, code: &str) -> (r: Option<String>)
    ensures
        opt_string_view(r) == base_of(codes@, code@),
{
    let mut i: usize = 0;
    assert(codes@.skip(0) =~= codes@);
    while i < codes.len()
        invariant
            i <= codes@.len(),
            base_of(codes@, code@) == base_of(codes@.skip(i as int), code@),
        decreases codes@.len() - i,
    {
        assert(codes@.skip(i as int)[0] == codes@[i as int]);
        if str_eq(codes[i].code.as_str(), code) {
            if codes[i].base.as_str().is_empty() {
                return None;
            }
            return Some(codes[i].base.clone());
        }
        assert(codes@.skip(i as int).drop_first() =~= codes@.skip(i + 1));
        i += 1;
    }
    None
}

/// The other worlds of a decoded sheet: the system's world count less the
/// main world, the asteroid belts and the gas giants (the PBG's second and
/// third eHex digits, which the sheet's PBG also shows), never below zero;
/// unknown when the count or either digit is.
pub proof fn law_other_worlds(d: DecodedWorld, w: World, arows: Seq<(Seq<char>, Seq<char>, Seq<char>)>,
    srows: Seq<(Seq<char>, Seq<char>)>)
    requires
        world_decoded(d, w, arows, srows),
    ensures
        match (w.worlds, d.pbg.belts, d.pbg.gas_giants) {
            (Some(n), Some(b), Some(g)) => {
                let v = n as int - 1 - b as int - g as int;
                d.other_worlds == Some((if v < 0 { 0 } else { v }) as u32)
            },
            _ => d.other_worlds is None,
        },
        d.pbg.belts matches Some(b) ==> b as int == ehex_value(w.pbg@[1]),
        d.pbg.gas_giants matches Some(g) ==> g as int == ehex_value(w.pbg@[2]),
{
}

} // verus!
