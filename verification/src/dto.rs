//! The data types exchanged with clients, and their XML forms.
use vstd::prelude::*;

use crate::astrometrics::Coord;
use crate::text::{ws_tokens, split_ws, chars_of, string_from_chars, push_str_chars, int_decimal, nat_digits, int_to_string,
    push_int, push_digits};

verus! {

/// A single world (a system's main world) within a sector: one row of a
/// Second Survey table. Empty or absent fields stay empty or `None`.
#[derive(Debug, Clone, PartialEq, Default)]
pub struct World {
    /// Four-digit hex label within the sector, e.g. `"0101"`.
    pub hex: String,
    pub name: String,
    /// Universal World Profile, e.g. `"C430698-9"`.
    pub uwp: String,
    /// Base codes, e.g. `"NS"`.
    pub bases: String,
    /// Raw remarks: space-separated trade codes and notes.
    pub remarks: String,
    /// Travel zone: `"A"`, `"R"`, or empty.
    pub zone: String,
    /// Population multiplier, belts, gas giants, e.g. `"613"`.
    pub pbg: String,
    pub allegiance: String,
    /// Stellar data, e.g. `"K9 V"`.
    pub stellar: String,
    /// Importance extension `{Ix}`, raw, e.g. `"{ -1 }"`.
    pub importance: Option<String>,
    /// Economic extension `(Ex)`, raw, e.g. `"(C53-1)"`.
    pub economic: Option<String>,
    /// Cultural extension `[Cx]`, raw, e.g. `"[6559]"`.
    pub cultural: Option<String>,
    /// Nobility codes.
    pub nobility: Option<String>,
    /// Worlds in the system (`W` column).
    pub worlds: Option<u8>,
    /// Resource units (`RU` column).
    pub resource_units: Option<i32>,
}

/// One named subsector of a sector: its letter `A`–`P` and its name.
#[derive(Debug, Clone, PartialEq)]
pub struct Subsector {
    pub index: String,
    pub name: String,
}

impl World {
    /// The remark codes: the whitespace-separated tokens of `remarks`.
    pub fn codes(&self) -> (r: Vec<String>)
        ensures
            r@.map_values(|s: String| s@) == ws_tokens(self.remarks@),
    {
        split_ws(self.remarks.as_str())
    }
}

} // verus!

verus! {

// ── XML text ────────────────────────────────────────────────────────────────

/// The XML form of one character: the five metacharacters escaped.
pub open spec fn escape_char(c: char) -> Seq<char> {
    if c == '&' {
        "&amp;"@
    } else if c == '<' {
        "&lt;"@
    } else if c == '>' {
        "&gt;"@
    } else if c == '"' {
        "&quot;"@
    } else if c == '\'' {
        "&apos;"@
    } else {
        seq![c]
    }
}

/// `s` with `& < > " '` escaped, for element text or a quoted attribute.
pub open spec fn xml_escaped(s: Seq<char>) -> Seq<char>
    decreases s.len(),
{
    if s.len() == 0 { Seq::empty() } else { xml_escaped(s.drop_last()) + escape_char(s.last()) }
}

/// `<tag>text</tag>`, the text escaped.
pub open spec fn el(tag: Seq<char>, text: Seq<char>) -> Seq<char> {
    "<"@ + tag + ">"@ + xml_escaped(text) + "</"@ + tag + ">"@
}

/// The element when the value is present; nothing otherwise.
pub open spec fn el_opt(tag: Seq<char>, text: Option<Seq<char>>) -> Seq<char> {
    match text {
        Some(t) => el(tag, t),
        None => Seq::empty(),
    }
}

/// The element, or `<tag />` for an empty value.
pub open spec fn el_str(tag: Seq<char>, text: Seq<char>) -> Seq<char> {
    if text.len() == 0 { "<"@ + tag + " />"@ } else { el(tag, text) }
}

/// ` name="value"`, the value escaped.
pub open spec fn attr(name: Seq<char>, value: Seq<char>) -> Seq<char> {
    " "@ + name + "=\""@ + xml_escaped(value) + "\""@
}

pub open spec fn opt_view(o: Option<String>) -> Option<Seq<char>> {
    match o {
        Some(s) => Some(s@),
        None => None,
    }
}

/// Append `s` escaped.
pub fn push_escaped(out: &mut Vec<char>, s: &str)
    ensures
        final(out)@ == old(out)@ + xml_escaped(s@),
{
    let cs = chars_of(s);
    let mut i: usize = 0;
    while i < cs.len()
        invariant
            i <= cs@.len(),
            cs@ == s@,
            out@ == old(out)@ + xml_escaped(cs@.subrange(0, i as int)),
        decreases cs@.len() - i,
    {
        let c = cs[i];
        let ghost before = out@;
        if c == '&' {
            push_str_chars(out, "&amp;");
        } else if c == '<' {
            push_str_chars(out, "&lt;");
        } else if c == '>' {
            push_str_chars(out, "&gt;");
        } else if c == '"' {
            push_str_chars(out, "&quot;");
        } else if c == '\'' {
            push_str_chars(out, "&apos;");
        } else {
            out.push(c);
            assert(out@ =~= before + seq![c]);
        }
        assert(cs@.subrange(0, i + 1).drop_last() =~= cs@.subrange(0, i as int));
        i += 1;
        assert(out@ =~= old(out)@ + xml_escaped(cs@.subrange(0, i as int)));
    }
    assert(cs@.subrange(0, cs@.len() as int) =~= cs@);
}

/// `s` with the five XML metacharacters escaped.
pub fn xml_escape(s: &str) -> (r: String)
    ensures
        r@ == xml_escaped(s@),
{
    let mut v: Vec<char> = Vec::new();
    push_escaped(&mut v, s);
    assert(v@ =~= xml_escaped(s@));
    string_from_chars(&v)
}

/// Append `<tag>text</tag>`.
pub fn xml_el(out: &mut Vec<char>, tag: &str, text: &str)
    ensures
        final(out)@ == old(out)@ + el(tag@, text@),
{
    push_str_chars(out, "<");
    push_str_chars(out, tag);
    push_str_chars(out, ">");
    push_escaped(out, text);
    push_str_chars(out, "</");
    push_str_chars(out, tag);
    push_str_chars(out, ">");
    assert(final(out)@ =~= old(out)@ + el(tag@, text@));
}

/// Append the element when the value is present.
pub fn xml_el_opt(out: &mut Vec<char>, tag: &str, text: &Option<String>)
    ensures
        final(out)@ == old(out)@ + el_opt(tag@, opt_view(*text)),
{
    match text {
        Some(t) => xml_el(out, tag, t.as_str()),
        None => {
            assert(out@ =~= old(out)@ + Seq::<char>::empty());
        },
    }
}

/// Append the element, or `<tag />` for an empty value.
pub fn xml_el_str(out: &mut Vec<char>, tag: &str, text: &str)
    ensures
        final(out)@ == old(out)@ + el_str(tag@, text@),
{
    if text.is_empty() {
        push_str_chars(out, "<");
        push_str_chars(out, tag);
        push_str_chars(out, " />");
        assert(final(out)@ =~= old(out)@ + el_str(tag@, text@));
    } else {
        xml_el(out, tag, text);
    }
}

/// Append ` name="value"`.
pub fn xml_attr(out: &mut Vec<char>, name: &str, value: &str)
    ensures
        final(out)@ == old(out)@ + attr(name@, value@),
{
    push_str_chars(out, " ");
    push_str_chars(out, name);
    push_str_chars(out, "=\"");
    push_escaped(out, value);
    push_str_chars(out, "\"");
    assert(final(out)@ =~= old(out)@ + attr(name@, value@));
}

/// Append `<tag>v</tag>` for an integer.
fn xml_el_int(out: &mut Vec<char>, tag: &str, v: i64)
    ensures
        final(out)@ == old(out)@ + el(tag@, int_decimal(v as int)),
{
    let t = int_to_string(v);
    xml_el(out, tag, t.as_str());
}

/// Append ` name="v"` for an integer.
fn xml_attr_int(out: &mut Vec<char>, name: &str, v: i64)
    ensures
        final(out)@ == old(out)@ + attr(name@, int_decimal(v as int)),
{
    let t = int_to_string(v);
    xml_attr(out, name, t.as_str());
}

// ── Public result shapes ────────────────────────────────────────────────────

/// A world as the jump-worlds and search endpoints report it, with the
/// derived fields the public API adds.
#[derive(Debug, Clone, PartialEq)]
pub struct WorldResult {
    pub name: String,
    pub hex: String,
    pub uwp: String,
    pub pbg: String,
    pub zone: String,
    pub bases: String,
    pub allegiance: String,
    pub stellar: String,
    pub ss: String,
    pub ix: Option<String>,
    pub ex: Option<String>,
    pub cx: Option<String>,
    pub nobility: String,
    pub worlds: i32,
    pub resource_units: Option<i32>,
    pub subsector: i32,
    pub quadrant: i32,
    pub world_x: i32,
    pub world_y: i32,
    pub remarks: String,
    pub legacy_base_code: String,
    pub sector: String,
    pub subsector_name: String,
    pub sector_abbreviation: Option<String>,
    pub allegiance_name: String,
}

/// The jump-worlds envelope.
#[derive(Debug, Clone, PartialEq)]
pub struct JumpWorldsResult {
    pub worlds: Vec<WorldResult>,
}

/// `prefix` followed by one `<World>` element: the settable members only, in
/// declaration order.
#[verifier::opaque]
pub open spec fn with_world_xml(prefix: Seq<char>, w: WorldResult) -> Seq<char> {
    prefix + "<World>"@ + el("Name"@, w.name@) + el("Hex"@, w.hex@) + el("UWP"@, w.uwp@) + el("PBG"@, w.pbg@)
        + el_str("Zone"@, w.zone@) + el_str("Bases"@, w.bases@) + el("Allegiance"@, w.allegiance@)
        + el_str("Stellar"@, w.stellar@) + el_opt("Ix"@, opt_view(w.ix)) + el_opt("Ex"@, opt_view(w.ex))
        + el_opt("Cx"@, opt_view(w.cx)) + el_str("Nobility"@, w.nobility@) + el("Worlds"@, int_decimal(w.worlds as int))
        + (match w.resource_units {
            Some(ru) => el("ResourceUnits"@, int_decimal(ru as int)),
            None => Seq::empty(),
        }) + el_str("Remarks"@, w.remarks@) + el_str("LegacyBaseCode"@, w.legacy_base_code@) + "</World>"@
}

/// `prefix` followed by the worlds' elements, in order.
pub open spec fn with_worlds_xml(prefix: Seq<char>, ws: Seq<WorldResult>) -> Seq<char>
    decreases ws.len(),
{
    if ws.len() == 0 { prefix } else { with_world_xml(with_worlds_xml(prefix, ws.drop_last()), ws.last()) }
}

fn push_world_result(out: &mut Vec<char>, w: &WorldResult)
    ensures
        final(out)@ == with_world_xml(old(out)@, *w),
{
    reveal(with_world_xml);
    push_str_chars(out, "<World>");
    xml_el(out, "Name", w.name.as_str());
    xml_el(out, "Hex", w.hex.as_str());
    xml_el(out, "UWP", w.uwp.as_str());
    xml_el(out, "PBG", w.pbg.as_str());
    xml_el_str(out, "Zone", w.zone.as_str());
    xml_el_str(out, "Bases", w.bases.as_str());
    xml_el(out, "Allegiance", w.allegiance.as_str());
    xml_el_str(out, "Stellar", w.stellar.as_str());
    xml_el_opt(out, "Ix", &w.ix);
    xml_el_opt(out, "Ex", &w.ex);
    xml_el_opt(out, "Cx", &w.cx);
    xml_el_str(out, "Nobility", w.nobility.as_str());
    xml_el_int(out, "Worlds", w.worlds as i64);
    let ghost mid = out@;
    match w.resource_units {
        Some(ru) => xml_el_int(out, "ResourceUnits", ru as i64),
        None => {
            assert(out@ =~= mid + Seq::<char>::empty());
        },
    }
    xml_el_str(out, "Remarks", w.remarks.as_str());
    xml_el_str(out, "LegacyBaseCode", w.legacy_base_code.as_str());
    push_str_chars(out, "</World>");
}

impl JumpWorldsResult {
    /// `<JumpWorlds><World>…</World>…</JumpWorlds>` after the XML declaration.
    pub fn to_xml(&self) -> (s: String)
        ensures
            s@ == with_worlds_xml("<?xml version=\"1.0\"?>\n<JumpWorlds>"@, self.worlds@) + "</JumpWorlds>"@,
    {
        let mut out: Vec<char> = Vec::new();
        push_str_chars(&mut out, "<?xml version=\"1.0\"?>\n<JumpWorlds>");
        let ghost head = out@;
        assert(head =~= "<?xml version=\"1.0\"?>\n<JumpWorlds>"@);
        let mut i: usize = 0;
        assert(self.worlds@.subrange(0, 0) =~= Seq::<WorldResult>::empty());
        while i < self.worlds.len()
            invariant
                i <= self.worlds@.len(),
                out@ == with_worlds_xml(head, self.worlds@.subrange(0, i as int)),
            decreases self.worlds@.len() - i,
        {
            push_world_result(&mut out, &self.worlds[i]);
            i += 1;
            assert(self.worlds@.subrange(0, i as int).drop_last() =~= self.worlds@.subrange(0, i - 1));
            assert(self.worlds@.subrange(0, i as int).last() == self.worlds@[i - 1]);
        }
        assert(self.worlds@.subrange(0, self.worlds@.len() as int) =~= self.worlds@);
        push_str_chars(&mut out, "</JumpWorlds>");
        string_from_chars(&out)
    }
}

} // verus!

verus! {

/// Sector identity and where it sits on the map.
#[derive(Debug, Clone, PartialEq)]
pub struct SectorInfo {
    pub name: String,
    /// Sector grid position, when known.
    pub location: Option<Coord>,
    /// Milieu key, e.g. `"M1105"`.
    pub milieu: String,
    /// Named subsectors; empty when unknown.
    pub subsectors: Vec<Subsector>,
    /// Space-separated review tags.
    pub tags: String,
    /// Raw credits text, when present.
    pub credits: Option<String>,
}

/// A trade or communication route between two hexes; offsets count sectors.
#[derive(Debug)]
pub struct Route {
    pub start: String,
    pub end: String,
    pub start_offset: (i32, i32),
    pub end_offset: (i32, i32),
    pub allegiance: Option<String>,
    /// Explicit route color, if any.
    pub color: Option<String>,
}

/// One localized sector name (`lang` absent for the canonical name).
#[derive(Debug, Clone, PartialEq)]
pub struct SectorName {
    pub text: String,
    pub lang: Option<String>,
    pub source: Option<String>,
}

/// One entry of the sector index: identity and grid position, without worlds.
#[derive(Debug, Clone, PartialEq)]
pub struct SectorIndexEntry {
    pub name: String,
    pub abbreviation: Option<String>,
    /// Sector grid position (Core at `(0, 0)`).
    pub location: Coord,
    /// Every `<Name>`, canonical first.
    pub names: Vec<SectorName>,
    /// The sector's own review tags.
    pub tags: String,
    /// Data file name and format (`TabDelimited`, `SecondSurvey` or `SEC`).
    pub data_file: Option<String>,
    pub data_format: Option<String>,
    /// Metadata file name.
    pub metadata_file: Option<String>,
    /// The sector's milieu, when it names one.
    pub milieu: Option<String>,
    /// The tag of the milieu list entry it was loaded from.
    pub metafile_tag: Option<String>,
}

/// The sectors of a milieu and where they sit.
#[derive(Debug, Clone, PartialEq)]
pub struct Universe {
    pub milieu: String,
    pub sectors: Vec<SectorIndexEntry>,
}

/// Provenance attributes of a sector's data file.
#[derive(Debug, Clone, Default, PartialEq)]
pub struct DataFileMeta {
    pub title: Option<String>,
    pub author: Option<String>,
    pub publisher: Option<String>,
    pub copyright: Option<String>,
    pub source: Option<String>,
    pub reference: Option<String>,
}

/// One sector of the public universe listing.
#[derive(Debug, Clone, PartialEq)]
pub struct UniverseSector {
    pub x: i32,
    pub y: i32,
    pub milieu: String,
    pub abbreviation: Option<String>,
    pub tags: String,
    pub names: Vec<SectorName>,
}

/// The public universe listing.
#[derive(Debug, Clone, PartialEq)]
pub struct UniverseResult {
    pub sectors: Vec<UniverseSector>,
}

/// `prefix` and one `<Name>` element (with its `Lang` when present).
pub open spec fn with_name_xml(prefix: Seq<char>, n: SectorName) -> Seq<char> {
    prefix + (match n.lang {
        Some(l) => "<Name Lang=\""@ + xml_escaped(l@) + "\">"@,
        None => "<Name>"@,
    }) + xml_escaped(n.text@) + "</Name>"@
}

pub open spec fn with_names_xml(prefix: Seq<char>, ns: Seq<SectorName>) -> Seq<char>
    decreases ns.len(),
{
    if ns.len() == 0 { prefix } else { with_name_xml(with_names_xml(prefix, ns.drop_last()), ns.last()) }
}

/// `prefix` and one `<Sector>` element: `Abbreviation` and `Tags` attributes
/// (absent when missing or empty), then `X`, `Y`, `Milieu` and the names.
#[verifier::opaque]
pub open spec fn with_universe_sector_xml(prefix: Seq<char>, s: UniverseSector) -> Seq<char> {
    with_names_xml(
        prefix + "<Sector"@ + (match s.abbreviation {
            Some(a) => if a@.len() > 0 { attr("Abbreviation"@, a@) } else { Seq::empty() },
            None => Seq::empty(),
        }) + (if s.tags@.len() > 0 { attr("Tags"@, s.tags@) } else { Seq::empty() }) + ">"@
            + el("X"@, int_decimal(s.x as int)) + el("Y"@, int_decimal(s.y as int)) + el("Milieu"@, s.milieu@),
        s.names@,
    ) + "</Sector>"@
}

pub open spec fn with_universe_sectors_xml(prefix: Seq<char>, ss: Seq<UniverseSector>) -> Seq<char>
    decreases ss.len(),
{
    if ss.len() == 0 { prefix } else { with_universe_sector_xml(with_universe_sectors_xml(prefix, ss.drop_last()), ss.last()) }
}

fn push_name(out: &mut Vec<char>, n: &SectorName)
    ensures
        final(out)@ == with_name_xml(old(out)@, *n),
{
    match &n.lang {
        Some(l) => {
            push_str_chars(out, "<Name Lang=\"");
            push_escaped(out, l.as_str());
            push_str_chars(out, "\">");
            assert(out@ =~= old(out)@ + ("<Name Lang=\""@ + xml_escaped(l@) + "\">"@));
        },
        None => push_str_chars(out, "<Name>"),
    }
    push_escaped(out, n.text.as_str());
    push_str_chars(out, "</Name>");
}

fn push_universe_sector(out: &mut Vec<char>, s: &UniverseSector)
    ensures
        final(out)@ == with_universe_sector_xml(old(out)@, *s),
{
    reveal(with_universe_sector_xml);
    push_str_chars(out, "<Sector");
    let ghost m1 = out@;
    match &s.abbreviation {
        Some(a) => {
            if !a.as_str().is_empty() {
                xml_attr(out, "Abbreviation", a.as_str());
            } else {
                assert(out@ =~= m1 + Seq::<char>::empty());
            }
        },
        None => {
            assert(out@ =~= m1 + Seq::<char>::empty());
        },
    }
    let ghost m2 = out@;
    if !s.tags.as_str().is_empty() {
        xml_attr(out, "Tags", s.tags.as_str());
    } else {
        assert(out@ =~= m2 + Seq::<char>::empty());
    }
    push_str_chars(out, ">");
    xml_el_int(out, "X", s.x as i64);
    xml_el_int(out, "Y", s.y as i64);
    xml_el(out, "Milieu", s.milieu.as_str());
    let ghost head = out@;
    let mut i: usize = 0;
    assert(s.names@.subrange(0, 0) =~= Seq::<SectorName>::empty());
    while i < s.names.len()
        invariant
            i <= s.names@.len(),
            out@ == with_names_xml(head, s.names@.subrange(0, i as int)),
        decreases s.names@.len() - i,
    {
        push_name(out, &s.names[i]);
        i += 1;
        assert(s.names@.subrange(0, i as int).drop_last() =~= s.names@.subrange(0, i - 1));
        assert(s.names@.subrange(0, i as int).last() == s.names@[i - 1]);
    }
    assert(s.names@.subrange(0, s.names@.len() as int) =~= s.names@);
    push_str_chars(out, "</Sector>");
}

impl UniverseResult {
    /// `<Universe><Sector …>…</Sector>…</Universe>` after the XML declaration.
    pub fn to_xml(&self) -> (s: String)
        ensures
            s@ == with_universe_sectors_xml("<?xml version=\"1.0\"?>\n<Universe>"@, self.sectors@) + "</Universe>"@,
    {
        let mut out: Vec<char> = Vec::new();
        push_str_chars(&mut out, "<?xml version=\"1.0\"?>\n<Universe>");
        let ghost head = out@;
        assert(head =~= "<?xml version=\"1.0\"?>\n<Universe>"@);
        let mut i: usize = 0;
        assert(self.sectors@.subrange(0, 0) =~= Seq::<UniverseSector>::empty());
        while i < self.sectors.len()
            invariant
                i <= self.sectors@.len(),
                out@ == with_universe_sectors_xml(head, self.sectors@.subrange(0, i as int)),
            decreases self.sectors@.len() - i,
        {
            push_universe_sector(&mut out, &self.sectors[i]);
            i += 1;
            assert(self.sectors@.subrange(0, i as int).drop_last() =~= self.sectors@.subrange(0, i - 1));
            assert(self.sectors@.subrange(0, i as int).last() == self.sectors@[i - 1]);
        }
        assert(self.sectors@.subrange(0, self.sectors@.len() as int) =~= self.sectors@);
        push_str_chars(&mut out, "</Universe>");
        string_from_chars(&out)
    }
}

} // verus!

verus! {

/// The credits of a sector, subsector, world and product. Absent values
/// are left out of the XML form.
#[derive(Debug, Default, Clone, PartialEq)]
pub struct CreditsResult {
    pub credits: Option<String>,
    pub sector_x: i32,
    pub sector_y: i32,
    pub sector_name: Option<String>,
    pub sector_author: Option<String>,
    pub sector_source: Option<String>,
    pub sector_publisher: Option<String>,
    pub sector_copyright: Option<String>,
    pub sector_ref: Option<String>,
    pub sector_milieu: Option<String>,
    pub sector_tags: Option<String>,
    pub route_credits: Option<String>,
    pub subsector_name: Option<String>,
    pub subsector_index: Option<String>,
    pub subsector_credits: Option<String>,
    pub world_name: Option<String>,
    pub world_hex: Option<String>,
    pub world_uwp: Option<String>,
    pub world_remarks: Option<String>,
    pub world_ix: Option<String>,
    pub world_ex: Option<String>,
    pub world_cx: Option<String>,
    pub world_pbg: Option<String>,
    pub world_allegiance: Option<String>,
    pub world_credits: Option<String>,
    pub product_publisher: Option<String>,
    pub product_title: Option<String>,
    pub product_author: Option<String>,
    pub product_ref: Option<String>,
}

/// The credits' XML form: `<Data>` with one element per present member, in
/// declaration order.
#[verifier::opaque]
pub open spec fn credits_xml(c: CreditsResult) -> Seq<char> {
    "<?xml version=\"1.0\"?>\n<Data>"@
        + el_opt("Credits"@, opt_view(c.credits))
        + el("SectorX"@, int_decimal(c.sector_x as int))
        + el("SectorY"@, int_decimal(c.sector_y as int))
        + el_opt("SectorName"@, opt_view(c.sector_name))
        + el_opt("SectorAuthor"@, opt_view(c.sector_author))
        + el_opt("SectorSource"@, opt_view(c.sector_source))
        + el_opt("SectorPublisher"@, opt_view(c.sector_publisher))
        + el_opt("SectorCopyright"@, opt_view(c.sector_copyright))
        + el_opt("SectorRef"@, opt_view(c.sector_ref))
        + el_opt("SectorMilieu"@, opt_view(c.sector_milieu))
        + el_opt("SectorTags"@, opt_view(c.sector_tags))
        + el_opt("RouteCredits"@, opt_view(c.route_credits))
        + el_opt("SubsectorName"@, opt_view(c.subsector_name))
        + el_opt("SubsectorIndex"@, opt_view(c.subsector_index))
        + el_opt("SubsectorCredits"@, opt_view(c.subsector_credits))
        + el_opt("WorldName"@, opt_view(c.world_name))
        + el_opt("WorldHex"@, opt_view(c.world_hex))
        + el_opt("WorldUwp"@, opt_view(c.world_uwp))
        + el_opt("WorldRemarks"@, opt_view(c.world_remarks))
        + el_opt("WorldIx"@, opt_view(c.world_ix))
        + el_opt("WorldEx"@, opt_view(c.world_ex))
        + el_opt("WorldCx"@, opt_view(c.world_cx))
        + el_opt("WorldPbg"@, opt_view(c.world_pbg))
        + el_opt("WorldAllegiance"@, opt_view(c.world_allegiance))
        + el_opt("WorldCredits"@, opt_view(c.world_credits))
        + el_opt("ProductPublisher"@, opt_view(c.product_publisher))
        + el_opt("ProductTitle"@, opt_view(c.product_title))
        + el_opt("ProductAuthor"@, opt_view(c.product_author))
        + el_opt("ProductRef"@, opt_view(c.product_ref))
        + "</Data>"@
}

impl CreditsResult {
    /// The XML form (see [`credits_xml`]).
    pub fn to_xml(&self) -> (s: String)
        ensures
            s@ == credits_xml(*self),
    {
        reveal(credits_xml);
        let mut out: Vec<char> = Vec::new();
        push_str_chars(&mut out, "<?xml version=\"1.0\"?>\n<Data>");
        assert(out@ =~= "<?xml version=\"1.0\"?>\n<Data>"@);
        xml_el_opt(&mut out, "Credits", &self.credits);
        xml_el_int(&mut out, "SectorX", self.sector_x as i64);
        xml_el_int(&mut out, "SectorY", self.sector_y as i64);
        xml_el_opt(&mut out, "SectorName", &self.sector_name);
        xml_el_opt(&mut out, "SectorAuthor", &self.sector_author);
        xml_el_opt(&mut out, "SectorSource", &self.sector_source);
        xml_el_opt(&mut out, "SectorPublisher", &self.sector_publisher);
        xml_el_opt(&mut out, "SectorCopyright", &self.sector_copyright);
        xml_el_opt(&mut out, "SectorRef", &self.sector_ref);
        xml_el_opt(&mut out, "SectorMilieu", &self.sector_milieu);
        xml_el_opt(&mut out, "SectorTags", &self.sector_tags);
        xml_el_opt(&mut out, "RouteCredits", &self.route_credits);
        xml_el_opt(&mut out, "SubsectorName", &self.subsector_name);
        xml_el_opt(&mut out, "SubsectorIndex", &self.subsector_index);
        xml_el_opt(&mut out, "SubsectorCredits", &self.subsector_credits);
        xml_el_opt(&mut out, "WorldName", &self.world_name);
        xml_el_opt(&mut out, "WorldHex", &self.world_hex);
        xml_el_opt(&mut out, "WorldUwp", &self.world_uwp);
        xml_el_opt(&mut out, "WorldRemarks", &self.world_remarks);
        xml_el_opt(&mut out, "WorldIx", &self.world_ix);
        xml_el_opt(&mut out, "WorldEx", &self.world_ex);
        xml_el_opt(&mut out, "WorldCx", &self.world_cx);
        xml_el_opt(&mut out, "WorldPbg", &self.world_pbg);
        xml_el_opt(&mut out, "WorldAllegiance", &self.world_allegiance);
        xml_el_opt(&mut out, "WorldCredits", &self.world_credits);
        xml_el_opt(&mut out, "ProductPublisher", &self.product_publisher);
        xml_el_opt(&mut out, "ProductTitle", &self.product_title);
        xml_el_opt(&mut out, "ProductAuthor", &self.product_author);
        xml_el_opt(&mut out, "ProductRef", &self.product_ref);
        push_str_chars(&mut out, "</Data>");
        string_from_chars(&out)
    }
}

} // verus!

verus! {

/// A world hit: its local hex, sector, UWP and name.
#[derive(Debug, Clone, PartialEq)]
pub struct SearchWorld {
    pub hex_x: i32,
    pub hex_y: i32,
    pub sector: String,
    pub uwp: String,
    pub sector_x: i32,
    pub sector_y: i32,
    pub name: String,
    pub sector_tags: String,
}

/// A sector hit.
#[derive(Debug, Clone, PartialEq)]
pub struct SearchSector {
    pub sector_x: i32,
    pub sector_y: i32,
    pub name: String,
    pub sector_tags: String,
}

/// A subsector hit; `index` is its letter `A`–`P`.
#[derive(Debug, Clone, PartialEq)]
pub struct SearchSubsector {
    pub sector: String,
    pub index: String,
    pub sector_x: i32,
    pub sector_y: i32,
    pub name: String,
    pub sector_tags: String,
}

/// A labelled-region hit: the local hex of its centre and a zoom scale.
#[derive(Debug, Clone, PartialEq)]
pub struct SearchLabel {
    pub hex_x: i32,
    pub hex_y: i32,
    pub scale: i32,
    pub sector_x: i32,
    pub sector_y: i32,
    pub name: String,
    pub sector_tags: String,
}

/// One search hit.
#[derive(Debug, Clone, PartialEq)]
pub enum SearchItem {
    World(SearchWorld),
    Sector(SearchSector),
    Subsector(SearchSubsector),
    Label(SearchLabel),
}

/// The hits and their count.
#[derive(Debug, Clone, PartialEq)]
pub struct SearchResultsBody {
    pub count: usize,
    pub items: Vec<SearchItem>,
}

/// The search response.
#[derive(Debug, Clone, PartialEq)]
pub struct SearchResults {
    pub results: SearchResultsBody,
}

/// `prefix` and one hit as an empty element whose attributes carry its
/// fields: the common ones (`sectorX`, `sectorY`, `name`, `sectorTags`) first.
#[verifier::opaque]
pub open spec fn with_item_xml(prefix: Seq<char>, item: SearchItem) -> Seq<char> {
    match item {
        SearchItem::World(w) => prefix + "<world"@ + attr("sectorX"@, int_decimal(w.sector_x as int))
            + attr("sectorY"@, int_decimal(w.sector_y as int)) + attr("name"@, w.name@) + attr("sectorTags"@, w.sector_tags@)
            + attr("hexX"@, int_decimal(w.hex_x as int)) + attr("hexY"@, int_decimal(w.hex_y as int))
            + attr("sector"@, w.sector@) + attr("uwp"@, w.uwp@) + " />"@,
        SearchItem::Subsector(b) => prefix + "<subsector"@ + attr("sectorX"@, int_decimal(b.sector_x as int))
            + attr("sectorY"@, int_decimal(b.sector_y as int)) + attr("name"@, b.name@) + attr("sectorTags"@, b.sector_tags@)
            + attr("sector"@, b.sector@) + attr("index"@, b.index@) + " />"@,
        SearchItem::Sector(b) => prefix + "<sector"@ + attr("sectorX"@, int_decimal(b.sector_x as int))
            + attr("sectorY"@, int_decimal(b.sector_y as int)) + attr("name"@, b.name@) + attr("sectorTags"@, b.sector_tags@)
            + " />"@,
        SearchItem::Label(l) => prefix + "<label"@ + attr("sectorX"@, int_decimal(l.sector_x as int))
            + attr("sectorY"@, int_decimal(l.sector_y as int)) + attr("name"@, l.name@) + attr("sectorTags"@, l.sector_tags@)
            + attr("hexX"@, int_decimal(l.hex_x as int)) + attr("hexY"@, int_decimal(l.hex_y as int))
            + attr("radius"@, int_decimal(l.scale as int)) + " />"@,
    }
}

pub open spec fn with_items_xml(prefix: Seq<char>, items: Seq<SearchItem>) -> Seq<char>
    decreases items.len(),
{
    if items.len() == 0 { prefix } else { with_item_xml(with_items_xml(prefix, items.drop_last()), items.last()) }
}

fn push_item(out: &mut Vec<char>, item: &SearchItem)
    ensures
        final(out)@ == with_item_xml(old(out)@, *item),
{
    reveal(with_item_xml);
    match item {
        SearchItem::World(w) => {
            push_str_chars(out, "<world");
            xml_attr_int(out, "sectorX", w.sector_x as i64);
            xml_attr_int(out, "sectorY", w.sector_y as i64);
            xml_attr(out, "name", w.name.as_str());
            xml_attr(out, "sectorTags", w.sector_tags.as_str());
            xml_attr_int(out, "hexX", w.hex_x as i64);
            xml_attr_int(out, "hexY", w.hex_y as i64);
            xml_attr(out, "sector", w.sector.as_str());
            xml_attr(out, "uwp", w.uwp.as_str());
            push_str_chars(out, " />");
        },
        SearchItem::Subsector(b) => {
            push_str_chars(out, "<subsector");
            xml_attr_int(out, "sectorX", b.sector_x as i64);
            xml_attr_int(out, "sectorY", b.sector_y as i64);
            xml_attr(out, "name", b.name.as_str());
            xml_attr(out, "sectorTags", b.sector_tags.as_str());
            xml_attr(out, "sector", b.sector.as_str());
            xml_attr(out, "index", b.index.as_str());
            push_str_chars(out, " />");
        },
        SearchItem::Sector(b) => {
            push_str_chars(out, "<sector");
            xml_attr_int(out, "sectorX", b.sector_x as i64);
            xml_attr_int(out, "sectorY", b.sector_y as i64);
            xml_attr(out, "name", b.name.as_str());
            xml_attr(out, "sectorTags", b.sector_tags.as_str());
            push_str_chars(out, " />");
        },
        SearchItem::Label(l) => {
            push_str_chars(out, "<label");
            xml_attr_int(out, "sectorX", l.sector_x as i64);
            xml_attr_int(out, "sectorY", l.sector_y as i64);
            xml_attr(out, "name", l.name.as_str());
            xml_attr(out, "sectorTags", l.sector_tags.as_str());
            xml_attr_int(out, "hexX", l.hex_x as i64);
            xml_attr_int(out, "hexY", l.hex_y as i64);
            xml_attr_int(out, "radius", l.scale as i64);
            push_str_chars(out, " />");
        },
    }
}

impl SearchResults {
    /// `<results Count="N">` with one element per hit, after the XML
    /// declaration.
    pub fn to_xml(&self) -> (s: String)
        ensures
            s@ == with_items_xml("<?xml version=\"1.0\"?>\n<results Count=\""@ + nat_digits(self.results.count as nat) + "\">"@,
                self.results.items@) + "</results>"@,
    {
        let mut out: Vec<char> = Vec::new();
        push_str_chars(&mut out, "<?xml version=\"1.0\"?>\n<results Count=\"");
        push_digits(&mut out, self.results.count as u128);
        push_str_chars(&mut out, "\">");
        let ghost head = out@;
        assert(head =~= "<?xml version=\"1.0\"?>\n<results Count=\""@ + nat_digits(self.results.count as nat) + "\">"@);
        let items = &self.results.items;
        let mut i: usize = 0;
        assert(items@.subrange(0, 0) =~= Seq::<SearchItem>::empty());
        while i < items.len()
            invariant
                i <= items@.len(),
                out@ == with_items_xml(head, items@.subrange(0, i as int)),
            decreases items@.len() - i,
        {
            push_item(&mut out, &items[i]);
            i += 1;
            assert(items@.subrange(0, i as int).drop_last() =~= items@.subrange(0, i - 1));
            assert(items@.subrange(0, i as int).last() == items@[i - 1]);
        }
        assert(items@.subrange(0, items@.len() as int) =~= items@);
        push_str_chars(&mut out, "</results>");
        string_from_chars(&out)
    }
}

/// A jump-route request: start and end as `"Sector 0101"`, the jump rating.
#[derive(Debug, Clone, PartialEq)]
pub struct RouteRequest {
    pub start: String,
    pub end: String,
    pub jump: i32,
    pub milieu: String,
}

/// One stop of a computed route, with its absolute coordinate.
#[derive(Debug, Clone, PartialEq)]
pub struct RouteWaypoint {
    pub name: String,
    /// Four-digit hex label within its sector.
    pub hex: String,
    /// Absolute position: `sector × 32 + column`, `sector × 40 + row`.
    pub coord: Coord,
    pub sector: String,
    /// Name of the subsector the hex falls in (empty when unnamed).
    pub subsector: String,
    pub uwp: String,
    pub pbg: String,
    pub zone: String,
    /// Full allegiance name.
    pub allegiance: String,
}

/// A computed route: the stops from start to end and its totals.
#[derive(Debug, Clone, PartialEq)]
pub struct RouteResult {
    pub waypoints: Vec<RouteWaypoint>,
    pub jumps: usize,
    pub parsecs: i32,
}

/// One stop of the public route response.
#[derive(Debug, Clone, PartialEq)]
pub struct RouteStop {
    pub sector: String,
    pub sector_x: i32,
    pub sector_y: i32,
    pub subsector: String,
    pub name: String,
    pub hex: String,
    pub hex_x: i32,
    pub hex_y: i32,
    pub uwp: String,
    pub pbg: String,
    pub zone: String,
    pub allegiance_name: String,
}

/// A waypoint's position fits the public stop form (no overflow recovering
/// its sector).
pub open spec fn waypoint_in_range(w: RouteWaypoint) -> bool {
    i32::MIN + 100 <= w.coord.x && i32::MIN + 100 <= w.coord.y
}

/// `s` is the public stop for the waypoint `w`: the hex gives the column and
/// row (0 when it does not parse), and the sector is what remains of the
/// absolute coordinate (divided with truncation).
pub open spec fn stop_of(s: RouteStop, w: RouteWaypoint) -> bool {
    let (hx, hy) = match crate::astrometrics::spec_parse_hex(w.hex@) {
        Some(p) => p,
        None => (0, 0),
    };
    &&& s.hex_x == hx && s.hex_y == hy
    &&& s.sector_x == crate::astrometrics::tdiv(w.coord.x - hx, 32)
    &&& s.sector_y == crate::astrometrics::tdiv(w.coord.y - hy, 40)
    &&& s.sector@ == w.sector@ && s.subsector@ == w.subsector@ && s.name@ == w.name@ && s.hex@ == w.hex@
    &&& s.uwp@ == w.uwp@ && s.pbg@ == w.pbg@ && s.zone@ == w.zone@ && s.allegiance_name@ == w.allegiance@
}

impl RouteResult {
    /// The public form: one stop per waypoint, in order.
    pub fn to_public_stops(&self) -> (r: Vec<RouteStop>)
        requires
            forall|k: int| 0 <= k < self.waypoints@.len() ==> waypoint_in_range(#[trigger] self.waypoints@[k]),
        ensures
            r@.len() == self.waypoints@.len(),
            forall|k: int| 0 <= k < r@.len() ==> stop_of(#[trigger] r@[k], self.waypoints@[k]),
    {
        let mut out: Vec<RouteStop> = Vec::new();
        let mut i: usize = 0;
        while i < self.waypoints.len()
            invariant
                i <= self.waypoints@.len(),
                out@.len() == i,
                forall|k: int| 0 <= k < self.waypoints@.len() ==> waypoint_in_range(#[trigger] self.waypoints@[k]),
                forall|k: int| 0 <= k < i ==> stop_of(#[trigger] out@[k], self.waypoints@[k]),
            decreases self.waypoints@.len() - i,
        {
            let w = &self.waypoints[i];
            assert(waypoint_in_range(self.waypoints@[i as int]));
            proof {
                let h = w.hex@;
                if crate::astrometrics::spec_parse_hex(h) is Some {
                    assert(crate::astrometrics::is_digit(h[0]) && crate::astrometrics::is_digit(h[1])
                        && crate::astrometrics::is_digit(h[2]) && crate::astrometrics::is_digit(h[3]));
                }
            }
            let (hx, hy) = match crate::astrometrics::parse_hex(w.hex.as_str()) {
                Some(p) => p,
                None => (0, 0),
            };
            assert(0 <= hx <= 99 && 0 <= hy <= 99);
            let sx = (w.coord.x - hx) / 32;
            let sy = (w.coord.y - hy) / 40;
            let stop = RouteStop {
                sector: w.sector.clone(),
                sector_x: sx,
                sector_y: sy,
                subsector: w.subsector.clone(),
                name: w.name.clone(),
                hex: w.hex.clone(),
                hex_x: hx,
                hex_y: hy,
                uwp: w.uwp.clone(),
                pbg: w.pbg.clone(),
                zone: w.zone.clone(),
                allegiance_name: w.allegiance.clone(),
            };
            out.push(stop);
            i += 1;
        }
        out
    }
}

/// `prefix` and one `<RouteStop>` element, members in declaration order.
#[verifier::opaque]
pub open spec fn with_stop_xml(prefix: Seq<char>, s: RouteStop) -> Seq<char> {
    prefix + "<RouteStop>"@ + el("Sector"@, s.sector@) + el("SectorX"@, int_decimal(s.sector_x as int))
        + el("SectorY"@, int_decimal(s.sector_y as int)) + el_str("Subsector"@, s.subsector@) + el("Name"@, s.name@)
        + el("Hex"@, s.hex@) + el("HexX"@, int_decimal(s.hex_x as int)) + el("HexY"@, int_decimal(s.hex_y as int))
        + el_str("UWP"@, s.uwp@) + el_str("PBG"@, s.pbg@) + el_str("Zone"@, s.zone@)
        + el_str("AllegianceName"@, s.allegiance_name@) + "</RouteStop>"@
}

pub open spec fn with_stops_xml(prefix: Seq<char>, ss: Seq<RouteStop>) -> Seq<char>
    decreases ss.len(),
{
    if ss.len() == 0 { prefix } else { with_stop_xml(with_stops_xml(prefix, ss.drop_last()), ss.last()) }
}

fn push_stop(out: &mut Vec<char>, s: &RouteStop)
    ensures
        final(out)@ == with_stop_xml(old(out)@, *s),
{
    reveal(with_stop_xml);
    push_str_chars(out, "<RouteStop>");
    xml_el(out, "Sector", s.sector.as_str());
    xml_el_int(out, "SectorX", s.sector_x as i64);
    xml_el_int(out, "SectorY", s.sector_y as i64);
    xml_el_str(out, "Subsector", s.subsector.as_str());
    xml_el(out, "Name", s.name.as_str());
    xml_el(out, "Hex", s.hex.as_str());
    xml_el_int(out, "HexX", s.hex_x as i64);
    xml_el_int(out, "HexY", s.hex_y as i64);
    xml_el_str(out, "UWP", s.uwp.as_str());
    xml_el_str(out, "PBG", s.pbg.as_str());
    xml_el_str(out, "Zone", s.zone.as_str());
    xml_el_str(out, "AllegianceName", s.allegiance_name.as_str());
    push_str_chars(out, "</RouteStop>");
}

/// `<ArrayOfRouteStop>` with one `<RouteStop>` per stop, after the XML
/// declaration.
pub fn route_stops_to_xml(stops: &[RouteStop]) -> (s: String)
    ensures
        s@ == with_stops_xml("<?xml version=\"1.0\"?>\n<ArrayOfRouteStop>"@, stops@) + "</ArrayOfRouteStop>"@,
{
    let mut out: Vec<char> = Vec::new();
    push_str_chars(&mut out, "<?xml version=\"1.0\"?>\n<ArrayOfRouteStop>");
    let ghost head = out@;
    assert(head =~= "<?xml version=\"1.0\"?>\n<ArrayOfRouteStop>"@);
    let mut i: usize = 0;
    assert(stops@.subrange(0, 0) =~= Seq::<RouteStop>::empty());
    while i < stops.len()
        invariant
            i <= stops@.len(),
            out@ == with_stops_xml(head, stops@.subrange(0, i as int)),
        decreases stops@.len() - i,
    {
        push_stop(&mut out, &stops[i]);
        i += 1;
        assert(stops@.subrange(0, i as int).drop_last() =~= stops@.subrange(0, i - 1));
        assert(stops@.subrange(0, i as int).last() == stops@[i - 1]);
    }
    assert(stops@.subrange(0, stops@.len() as int) =~= stops@);
    push_str_chars(&mut out, "</ArrayOfRouteStop>");
    string_from_chars(&out)
}

/// A capital or homeworld marker: name, absolute hex, label bias per axis.
#[derive(Debug)]
pub struct WorldLabel {
    pub name: String,
    pub coord: Coord,
    pub bias: (i8, i8),
}

} // verus!
