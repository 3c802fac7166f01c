//! Sector metadata: what a sector's `.xml` says besides its worlds (names,
//! subsectors, products, borders, regions, routes, labels, allegiances,
//! stylesheet, credits), read once into [`SectorMetadata`] and written back as
//! the `<Sector>` XML document.
//!
//! Label and border offsets are fractional in the document; here they are kept
//! as the text they are written with (see [`MetaBorder::label_offset_x`]), so
//! no floating-point value passes through this module.
use vstd::prelude::*;

use crate::dto::{SectorName, xml_escaped, attr, el, push_escaped, xml_attr, xml_el};
use crate::text::{push_str_chars, string_from_chars, int_decimal, int_to_string};
use crate::astrometrics::{spec_parse_hex, parse_hex, lemma_parse_hex_range};
use crate::route_sheet::{two_wide, hex_label};
use crate::sector_writer::join_with;
use crate::xml::{XmlNode, parse_xml, doc_nodes, opt_text_view, attr_of, attr_trimmed, attribute, attribute_trimmed,
    root_element, find_root, text_nodes_within, collect_text_nodes, attr_int_or_zero, attribute_int_or_zero};
use crate::parse::{NameSpec, name_spec, names_view};
use crate::text::{str_eq, trim, trim_str, trim_chars, chars_of, ws_tokens, split_ws, all_digits};

verus! {

// ── The metadata document ───────────────────────────────────────────────────

/// The `<DataFile>` element's attributes.
#[derive(Debug)]
pub struct MetaDataFile {
    pub title: Option<String>,
    pub author: Option<String>,
    pub source: Option<String>,
    pub publisher: Option<String>,
    pub copyright: Option<String>,
    pub milieu: Option<String>,
    pub reference: Option<String>,
}

impl Default for MetaDataFile {
    fn default() -> (d: Self)
        ensures
            d.title is None && d.author is None && d.source is None && d.publisher is None,
            d.copyright is None && d.milieu is None && d.reference is None,
    {
        MetaDataFile { title: None, author: None, source: None, publisher: None, copyright: None, milieu: None, reference: None }
    }
}

/// A published product the sector appears in.
#[derive(Debug)]
pub struct Product {
    pub author: Option<String>,
    pub title: Option<String>,
    pub publisher: Option<String>,
    pub reference: Option<String>,
}

/// A named subsector: its letter, name, and the letter's position (`A` = 0).
#[derive(Debug)]
pub struct MetaSubsector {
    pub name: String,
    pub index: String,
    pub index_number: i32,
}

/// An allegiance code with its name (and base code, for a local variant).
#[derive(Debug, Clone)]
pub struct MetaAllegiance {
    pub name: String,
    pub code: String,
    pub base: Option<String>,
}

/// A border or region as read: its hex path and label placement.
#[derive(Debug)]
pub struct MetaBorder {
    pub show_label: bool,
    pub wrap_label: bool,
    pub color: Option<String>,
    pub allegiance: Option<String>,
    /// The explicit `LabelPosition`, if any.
    pub label_position: Option<String>,
    /// The `LabelOffsetX` attribute as written (trimmed), `None` when absent
    /// or blank; its numeric value is the text's `f32` parse, and the XML
    /// form writes the text back as held.
    pub label_offset_x: Option<String>,
    pub label_offset_y: Option<String>,
    pub label: Option<String>,
    /// The 4-digit hex labels of the path.
    pub hexes: Vec<String>,
    /// Position among the document's borders and regions together.
    pub seq: usize,
}

/// A route between two hexes; offsets count sectors.
#[derive(Debug)]
pub struct MetaRoute {
    pub start: String,
    pub end: String,
    pub start_offset_x: i32,
    pub start_offset_y: i32,
    pub end_offset_x: i32,
    pub end_offset_y: i32,
    pub allegiance: Option<String>,
    pub color: Option<String>,
    pub route_type: Option<String>,
}

/// A hand-placed label; offsets as in [`MetaBorder`].
#[derive(Debug)]
pub struct MetaLabel {
    pub hex: String,
    pub allegiance: Option<String>,
    pub color: Option<String>,
    pub size: Option<String>,
    pub wrap: bool,
    pub offset_x: Option<String>,
    pub offset_y: Option<String>,
    pub text: String,
}

/// The full sector metadata document.
#[derive(Debug)]
pub struct SectorMetadata {
    pub selected: bool,
    pub tags: String,
    pub abbreviation: Option<String>,
    pub label: Option<String>,
    pub names: Vec<SectorName>,
    /// Always empty (the credits text is [`Self::credits_text`]).
    pub credits: Vec<u8>,
    pub credits_text: Option<String>,
    pub x: i32,
    pub y: i32,
    pub products: Vec<Product>,
    pub data_file: MetaDataFile,
    pub subsectors: Vec<MetaSubsector>,
    pub allegiances: Vec<MetaAllegiance>,
    pub stylesheet: Option<String>,
    pub labels: Vec<MetaLabel>,
    pub borders: Vec<MetaBorder>,
    pub regions: Vec<MetaBorder>,
    pub routes: Vec<MetaRoute>,
    /// The sector's own `<Allegiance>` entries (code, name, base).
    pub local_allegiances: Vec<MetaAllegiance>,
}

pub open spec fn is_empty_metadata(m: SectorMetadata) -> bool {
    &&& !m.selected
    &&& m.tags@.len() == 0
    &&& m.abbreviation is None && m.label is None
    &&& m.names@.len() == 0 && m.credits@.len() == 0 && m.credits_text is None
    &&& m.x == 0 && m.y == 0
    &&& m.products@.len() == 0 && m.subsectors@.len() == 0 && m.allegiances@.len() == 0
    &&& m.data_file.title is None && m.data_file.author is None && m.data_file.source is None
    &&& m.data_file.publisher is None && m.data_file.copyright is None && m.data_file.milieu is None
    &&& m.data_file.reference is None
    &&& m.stylesheet is None
    &&& m.labels@.len() == 0 && m.borders@.len() == 0 && m.regions@.len() == 0 && m.routes@.len() == 0
    &&& m.local_allegiances@.len() == 0
}

impl Default for SectorMetadata {
    fn default() -> (m: Self)
        ensures
            is_empty_metadata(m),
    {
        SectorMetadata {
            selected: false,
            tags: String::new(),
            abbreviation: None,
            label: None,
            names: Vec::new(),
            credits: Vec::new(),
            credits_text: None,
            x: 0,
            y: 0,
            products: Vec::new(),
            data_file: MetaDataFile::default(),
            subsectors: Vec::new(),
            allegiances: Vec::new(),
            stylesheet: None,
            labels: Vec::new(),
            borders: Vec::new(),
            regions: Vec::new(),
            routes: Vec::new(),
            local_allegiances: Vec::new(),
        }
    }
}

// ── Border label position ───────────────────────────────────────────────────

pub open spec fn min_int(a: int, b: int) -> int {
    if a <= b { a } else { b }
}

pub open spec fn max_int(a: int, b: int) -> int {
    if a >= b { a } else { b }
}

/// The bounding box `(min col, max col, min row, max row)` of the hexes that
/// parse; `None` when none does.
pub open spec fn hex_bounds(hexes: Seq<Seq<char>>) -> Option<(int, int, int, int)>
    decreases hexes.len(),
{
    if hexes.len() == 0 {
        None
    } else {
        let prev = hex_bounds(hexes.drop_last());
        match spec_parse_hex(hexes.last()) {
            None => prev,
            Some((x, y)) => match prev {
                None => Some((x, x, y, y)),
                Some((a, b, c, d)) => Some((min_int(a, x), max_int(b, x), min_int(c, y), max_int(d, y))),
            },
        }
    }
}

/// A border's label position: the explicit one, else the centre of its path's
/// bounding box (rounding up), else `0000`.
pub open spec fn label_position_of(explicit: Option<Seq<char>>, hexes: Seq<Seq<char>>) -> Seq<char> {
    match explicit {
        Some(p) => p,
        None => match hex_bounds(hexes) {
            None => "0000"@,
            Some((a, b, c, d)) => two_wide((a + b + 1) / 2) + two_wide((c + d + 1) / 2),
        },
    }
}

pub open spec fn strings_view(v: Seq<String>) -> Seq<Seq<char>> {
    v.map_values(|s: String| s@)
}

pub open spec fn opt_view(o: Option<String>) -> Option<Seq<char>> {
    match o {
        Some(s) => Some(s@),
        None => None,
    }
}

/// `LabelPosition` for a border: the explicit attribute, else the centre of
/// the bounding box of its path.
pub fn label_position(explicit: &Option<String>, hexes: &Vec<String>) -> (r: String)
    ensures
        r@ == label_position_of(opt_view(*explicit), strings_view(hexes@)),
{
    if let Some(p) = explicit {
        return p.clone();
    }
    let ghost hv = strings_view(hexes@);
    let mut bounds: Option<(i32, i32, i32, i32)> = None;
    let mut i: usize = 0;
    while i < hexes.len()
        invariant
            i <= hexes@.len(),
            hv == strings_view(hexes@),
            match bounds {
                Some((a, b, c, d)) => hex_bounds(hv.subrange(0, i as int)) == Some((a as int, b as int, c as int, d as int))
                    && 0 <= a <= 99 && 0 <= b <= 99 && 0 <= c <= 99 && 0 <= d <= 99,
                None => hex_bounds(hv.subrange(0, i as int)) is None,
            },
        decreases hexes@.len() - i,
    {
        proof {
            assert(hv.subrange(0, i + 1).drop_last() =~= hv.subrange(0, i as int));
            assert(hv.subrange(0, i + 1).last() == hexes@[i as int]@);
            lemma_parse_hex_range(hexes@[i as int]@);
        }
        match parse_hex(hexes[i].as_str()) {
            Some((x, y)) => {
                bounds = match bounds {
                    None => Some((x, x, y, y)),
                    Some((a, b, c, d)) => Some((
                        if a <= x { a } else { x },
                        if b >= x { b } else { x },
                        if c <= y { c } else { y },
                        if d >= y { d } else { y },
                    )),
                };
            },
            None => {},
        }
        i += 1;
    }
    assert(hv.subrange(0, hexes@.len() as int) =~= hv);
    match bounds {
        None => "0000".to_string(),
        Some((a, b, c, d)) => hex_label((a + b + 1) / 2, (c + d + 1) / 2),
    }
}

// ── The XML document ────────────────────────────────────────────────────────
//
// Each `with_…` function is the text so far followed by one more piece.

/// ` name="value"` when the value is present.
pub open spec fn opt_attr(name: Seq<char>, v: Option<String>) -> Seq<char> {
    match v {
        Some(s) => attr(name, s@),
        None => Seq::empty(),
    }
}

fn push_opt_attr(out: &mut Vec<char>, name: &str, v: &Option<String>)
    ensures
        final(out)@ == old(out)@ + opt_attr(name@, *v),
{
    match v {
        Some(s) => xml_attr(out, name, s.as_str()),
        None => {
            assert(out@ =~= old(out)@ + Seq::<char>::empty());
        },
    }
}

/// ` name="v"` when the integer is not zero.
pub open spec fn nonzero_attr(name: Seq<char>, v: int) -> Seq<char> {
    if v != 0 { attr(name, int_decimal(v)) } else { Seq::empty() }
}

fn push_nonzero_attr(out: &mut Vec<char>, name: &str, v: i32)
    ensures
        final(out)@ == old(out)@ + nonzero_attr(name@, v as int),
{
    if v != 0 {
        let t = int_to_string(v as i64);
        xml_attr(out, name, t.as_str());
    } else {
        assert(out@ =~= old(out)@ + Seq::<char>::empty());
    }
}

/// ` name="value"` when the flag is set.
pub open spec fn flag_attr(on: bool, name: Seq<char>, value: Seq<char>) -> Seq<char> {
    if on { attr(name, value) } else { Seq::empty() }
}

fn push_flag_attr(out: &mut Vec<char>, on: bool, name: &str, value: &str)
    ensures
        final(out)@ == old(out)@ + flag_attr(on, name@, value@),
{
    if on {
        xml_attr(out, name, value);
    } else {
        assert(out@ =~= old(out)@ + Seq::<char>::empty());
    }
}

pub open spec fn with_name(p: Seq<char>, n: SectorName) -> Seq<char> {
    p + "<Name"@ + opt_attr("Lang"@, n.lang) + opt_attr("Source"@, n.source) + ">"@ + xml_escaped(n.text@) + "</Name>"@
}

pub open spec fn with_product(p: Seq<char>, x: Product) -> Seq<char> {
    p + "<Product"@ + opt_attr("Author"@, x.author) + opt_attr("Title"@, x.title) + opt_attr("Publisher"@, x.publisher)
        + opt_attr("Ref"@, x.reference) + " />"@
}

pub open spec fn with_data_file(p: Seq<char>, df: MetaDataFile) -> Seq<char> {
    p + "<DataFile"@ + opt_attr("Title"@, df.title) + opt_attr("Author"@, df.author) + opt_attr("Source"@, df.source)
        + opt_attr("Publisher"@, df.publisher) + opt_attr("Copyright"@, df.copyright) + opt_attr("Milieu"@, df.milieu)
        + opt_attr("Ref"@, df.reference) + " />"@
}

/// `<Subsector Index="…">name</Subsector>`, or `<Subsector Index="…" />`
/// when the name is empty.
pub open spec fn subsector_tail(s: MetaSubsector) -> Seq<char> {
    if s.name@.len() == 0 { " />"@ } else { ">"@ + xml_escaped(s.name@) + "</Subsector>"@ }
}

pub open spec fn with_subsector(p: Seq<char>, s: MetaSubsector) -> Seq<char> {
    p + "<Subsector"@ + attr("Index"@, s.index@) + subsector_tail(s)
}

pub open spec fn with_allegiance(p: Seq<char>, a: MetaAllegiance) -> Seq<char> {
    p + "<Allegiance"@ + attr("Code"@, a.code@) + opt_attr("Base"@, a.base) + ">"@ + xml_escaped(a.name@) + "</Allegiance>"@
}

/// A border (or region, by `tag`): its attributes, with the computed label
/// position, and its path as space-separated hexes.
pub open spec fn with_border(p: Seq<char>, tag: Seq<char>, b: MetaBorder) -> Seq<char> {
    p + "<"@ + tag + flag_attr(!b.show_label, "ShowLabel"@, "false"@) + flag_attr(b.wrap_label, "WrapLabel"@, "true"@)
        + opt_attr("Color"@, b.color) + opt_attr("Allegiance"@, b.allegiance)
        + attr("LabelPosition"@, label_position_of(opt_view(b.label_position), strings_view(b.hexes@)))
        + opt_attr("LabelOffsetX"@, b.label_offset_x) + opt_attr("LabelOffsetY"@, b.label_offset_y)
        + opt_attr("Label"@, b.label) + ">"@ + xml_escaped(join_with(strings_view(b.hexes@), ' ')) + "</"@ + tag + ">"@
}

/// A route; zero offsets are left out.
pub open spec fn with_route(p: Seq<char>, r: MetaRoute) -> Seq<char> {
    p + "<Route"@ + attr("Start"@, r.start@) + attr("End"@, r.end@)
        + nonzero_attr("StartOffsetX"@, r.start_offset_x as int) + nonzero_attr("StartOffsetY"@, r.start_offset_y as int)
        + nonzero_attr("EndOffsetX"@, r.end_offset_x as int) + nonzero_attr("EndOffsetY"@, r.end_offset_y as int)
        + opt_attr("Allegiance"@, r.allegiance) + opt_attr("Color"@, r.color) + opt_attr("Type"@, r.route_type) + " />"@
}

pub open spec fn with_label(p: Seq<char>, l: MetaLabel) -> Seq<char> {
    p + "<Label"@ + attr("Hex"@, l.hex@) + opt_attr("Allegiance"@, l.allegiance) + opt_attr("Color"@, l.color)
        + opt_attr("Size"@, l.size) + flag_attr(l.wrap, "Wrap"@, "true"@) + opt_attr("OffsetX"@, l.offset_x)
        + opt_attr("OffsetY"@, l.offset_y) + ">"@ + xml_escaped(l.text@) + "</Label>"@
}

pub open spec fn with_names(p: Seq<char>, v: Seq<SectorName>) -> Seq<char>
    decreases v.len(),
{
    if v.len() == 0 { p } else { with_name(with_names(p, v.drop_last()), v.last()) }
}

pub open spec fn with_products(p: Seq<char>, v: Seq<Product>) -> Seq<char>
    decreases v.len(),
{
    if v.len() == 0 { p } else { with_product(with_products(p, v.drop_last()), v.last()) }
}

pub open spec fn with_subsectors(p: Seq<char>, v: Seq<MetaSubsector>) -> Seq<char>
    decreases v.len(),
{
    if v.len() == 0 { p } else { with_subsector(with_subsectors(p, v.drop_last()), v.last()) }
}

pub open spec fn with_allegiances(p: Seq<char>, v: Seq<MetaAllegiance>) -> Seq<char>
    decreases v.len(),
{
    if v.len() == 0 { p } else { with_allegiance(with_allegiances(p, v.drop_last()), v.last()) }
}

pub open spec fn with_borders(p: Seq<char>, tag: Seq<char>, v: Seq<MetaBorder>) -> Seq<char>
    decreases v.len(),
{
    if v.len() == 0 { p } else { with_border(with_borders(p, tag, v.drop_last()), tag, v.last()) }
}

pub open spec fn with_routes(p: Seq<char>, v: Seq<MetaRoute>) -> Seq<char>
    decreases v.len(),
{
    if v.len() == 0 { p } else { with_route(with_routes(p, v.drop_last()), v.last()) }
}

pub open spec fn with_labels(p: Seq<char>, v: Seq<MetaLabel>) -> Seq<char>
    decreases v.len(),
{
    if v.len() == 0 { p } else { with_label(with_labels(p, v.drop_last()), v.last()) }
}

/// `<Credits><![CDATA[…]]></Credits>` for non-empty credits text.
pub open spec fn credits_xml(c: Option<String>) -> Seq<char> {
    match c {
        Some(t) => if t@.len() > 0 { "<Credits><![CDATA["@ + t@ + "]]></Credits>"@ } else { Seq::empty() },
        None => Seq::empty(),
    }
}

pub open spec fn stylesheet_xml(s: Option<String>) -> Seq<char> {
    match s {
        Some(t) => el("Stylesheet"@, t@),
        None => Seq::empty(),
    }
}

/// The document up to and including the allegiances.
pub open spec fn with_metadata_head(p: Seq<char>, m: SectorMetadata) -> Seq<char> {
    with_allegiances(
        with_subsectors(
            with_data_file(
                with_products(
                    with_names(
                        p + "<?xml version=\"1.0\"?>\n<Sector"@ + flag_attr(m.selected, "Selected"@, "true"@)
                            + attr("Tags"@, m.tags@) + opt_attr("Abbreviation"@, m.abbreviation)
                            + opt_attr("Label"@, m.label) + ">"@,
                        m.names@,
                    ) + credits_xml(m.credits_text) + el("X"@, int_decimal(m.x as int)) + el("Y"@, int_decimal(m.y as int)),
                    m.products@,
                ),
                m.data_file,
            ) + "<Subsectors>"@,
            m.subsectors@,
        ) + "</Subsectors>"@ + "<Allegiances>"@,
        m.allegiances@,
    ) + "</Allegiances>"@
}

/// The `<Sector>` document: root attributes, then names, credits (as CDATA),
/// `X`, `Y`, products, the data file, subsectors and allegiances (always
/// present), the stylesheet, and labels, borders, regions and routes (each
/// wrapped, and only when there are some).
pub open spec fn metadata_xml(m: SectorMetadata) -> Seq<char> {
    let head = with_metadata_head(Seq::empty(), m) + stylesheet_xml(m.stylesheet);
    let labels = if m.labels@.len() > 0 { with_labels(head + "<Labels>"@, m.labels@) + "</Labels>"@ } else { head };
    let borders = if m.borders@.len() > 0 {
        with_borders(labels + "<Borders>"@, "Border"@, m.borders@) + "</Borders>"@
    } else {
        labels
    };
    let regions = if m.regions@.len() > 0 {
        with_borders(borders + "<Regions>"@, "Region"@, m.regions@) + "</Regions>"@
    } else {
        borders
    };
    let routes = if m.routes@.len() > 0 { with_routes(regions + "<Routes>"@, m.routes@) + "</Routes>"@ } else { regions };
    routes + "</Sector>"@
}

fn push_name(out: &mut Vec<char>, n: &SectorName)
    ensures
        final(out)@ == with_name(old(out)@, *n),
{
    push_str_chars(out, "<Name");
    push_opt_attr(out, "Lang", &n.lang);
    push_opt_attr(out, "Source", &n.source);
    push_str_chars(out, ">");
    push_escaped(out, n.text.as_str());
    push_str_chars(out, "</Name>");
}

fn push_product(out: &mut Vec<char>, p: &Product)
    ensures
        final(out)@ == with_product(old(out)@, *p),
{
    push_str_chars(out, "<Product");
    push_opt_attr(out, "Author", &p.author);
    push_opt_attr(out, "Title", &p.title);
    push_opt_attr(out, "Publisher", &p.publisher);
    push_opt_attr(out, "Ref", &p.reference);
    push_str_chars(out, " />");
}

fn push_data_file(out: &mut Vec<char>, df: &MetaDataFile)
    ensures
        final(out)@ == with_data_file(old(out)@, *df),
{
    push_str_chars(out, "<DataFile");
    push_opt_attr(out, "Title", &df.title);
    push_opt_attr(out, "Author", &df.author);
    push_opt_attr(out, "Source", &df.source);
    push_opt_attr(out, "Publisher", &df.publisher);
    push_opt_attr(out, "Copyright", &df.copyright);
    push_opt_attr(out, "Milieu", &df.milieu);
    push_opt_attr(out, "Ref", &df.reference);
    push_str_chars(out, " />");
}

fn push_subsector(out: &mut Vec<char>, s: &MetaSubsector)
    ensures
        final(out)@ == with_subsector(old(out)@, *s),
{
    push_str_chars(out, "<Subsector");
    xml_attr(out, "Index", s.index.as_str());
    let ghost mid = out@;
    if s.name.as_str().is_empty() {
        push_str_chars(out, " />");
    } else {
        push_str_chars(out, ">");
        push_escaped(out, s.name.as_str());
        push_str_chars(out, "</Subsector>");
        assert(out@ =~= mid + subsector_tail(*s));
    }
}

fn push_allegiance(out: &mut Vec<char>, a: &MetaAllegiance)
    ensures
        final(out)@ == with_allegiance(old(out)@, *a),
{
    push_str_chars(out, "<Allegiance");
    xml_attr(out, "Code", a.code.as_str());
    push_opt_attr(out, "Base", &a.base);
    push_str_chars(out, ">");
    push_escaped(out, a.name.as_str());
    push_str_chars(out, "</Allegiance>");
}

/// `parts` joined by single spaces.
fn join_spaces(parts: &Vec<String>) -> (r: Vec<char>)
    ensures
        r@ == join_with(strings_view(parts@), ' '),
{
    let ghost pv = strings_view(parts@);
    let mut out: Vec<char> = Vec::new();
    let mut i: usize = 0;
    while i < parts.len()
        invariant
            i <= parts@.len(),
            pv == strings_view(parts@),
            out@ == join_with(pv.subrange(0, i as int), ' '),
        decreases parts@.len() - i,
    {
        let ghost before = out@;
        if i > 0 {
            out.push(' ');
        }
        push_str_chars(&mut out, parts[i].as_str());
        proof {
            let sub = pv.subrange(0, i + 1);
            assert(sub.drop_last() =~= pv.subrange(0, i as int));
            assert(sub.last() == parts@[i as int]@);
            if i == 0 {
                assert(sub.len() == 1);
                assert(out@ =~= sub[0]);
            } else {
                assert(out@ =~= before + seq![' '] + sub.last());
            }
        }
        i += 1;
    }
    assert(pv.subrange(0, parts@.len() as int) =~= pv);
    out
}

fn xml_border(out: &mut Vec<char>, tag: &str, b: &MetaBorder)
    ensures
        final(out)@ == with_border(old(out)@, tag@, *b),
{
    push_str_chars(out, "<");
    push_str_chars(out, tag);
    push_flag_attr(out, !b.show_label, "ShowLabel", "false");
    push_flag_attr(out, b.wrap_label, "WrapLabel", "true");
    push_opt_attr(out, "Color", &b.color);
    push_opt_attr(out, "Allegiance", &b.allegiance);
    let pos = label_position(&b.label_position, &b.hexes);
    xml_attr(out, "LabelPosition", pos.as_str());
    push_opt_attr(out, "LabelOffsetX", &b.label_offset_x);
    push_opt_attr(out, "LabelOffsetY", &b.label_offset_y);
    push_opt_attr(out, "Label", &b.label);
    push_str_chars(out, ">");
    let path = join_spaces(&b.hexes);
    let path_s = string_from_chars(&path);
    push_escaped(out, path_s.as_str());
    push_str_chars(out, "</");
    push_str_chars(out, tag);
    push_str_chars(out, ">");
}

fn xml_route(out: &mut Vec<char>, r: &MetaRoute)
    ensures
        final(out)@ == with_route(old(out)@, *r),
{
    push_str_chars(out, "<Route");
    xml_attr(out, "Start", r.start.as_str());
    xml_attr(out, "End", r.end.as_str());
    push_nonzero_attr(out, "StartOffsetX", r.start_offset_x);
    push_nonzero_attr(out, "StartOffsetY", r.start_offset_y);
    push_nonzero_attr(out, "EndOffsetX", r.end_offset_x);
    push_nonzero_attr(out, "EndOffsetY", r.end_offset_y);
    push_opt_attr(out, "Allegiance", &r.allegiance);
    push_opt_attr(out, "Color", &r.color);
    push_opt_attr(out, "Type", &r.route_type);
    push_str_chars(out, " />");
}

fn xml_label(out: &mut Vec<char>, l: &MetaLabel)
    ensures
        final(out)@ == with_label(old(out)@, *l),
{
    push_str_chars(out, "<Label");
    xml_attr(out, "Hex", l.hex.as_str());
    push_opt_attr(out, "Allegiance", &l.allegiance);
    push_opt_attr(out, "Color", &l.color);
    push_opt_attr(out, "Size", &l.size);
    push_flag_attr(out, l.wrap, "Wrap", "true");
    push_opt_attr(out, "OffsetX", &l.offset_x);
    push_opt_attr(out, "OffsetY", &l.offset_y);
    push_str_chars(out, ">");
    push_escaped(out, l.text.as_str());
    push_str_chars(out, "</Label>");
}

fn push_names(out: &mut Vec<char>, v: &Vec<SectorName>)
    ensures
        final(out)@ == with_names(old(out)@, v@),
{
    let mut i: usize = 0;
    assert(v@.subrange(0, 0) =~= Seq::<SectorName>::empty());
    while i < v.len()
        invariant
            i <= v@.len(),
            out@ == with_names(old(out)@, v@.subrange(0, i as int)),
        decreases v@.len() - i,
    {
        push_name(out, &v[i]);
        assert(v@.subrange(0, i + 1).drop_last() =~= v@.subrange(0, i as int));
        i += 1;
    }
    assert(v@.subrange(0, v@.len() as int) =~= v@);
}

fn push_products(out: &mut Vec<char>, v: &Vec<Product>)
    ensures
        final(out)@ == with_products(old(out)@, v@),
{
    let mut i: usize = 0;
    assert(v@.subrange(0, 0) =~= Seq::<Product>::empty());
    while i < v.len()
        invariant
            i <= v@.len(),
            out@ == with_products(old(out)@, v@.subrange(0, i as int)),
        decreases v@.len() - i,
    {
        push_product(out, &v[i]);
        assert(v@.subrange(0, i + 1).drop_last() =~= v@.subrange(0, i as int));
        i += 1;
    }
    assert(v@.subrange(0, v@.len() as int) =~= v@);
}

fn push_subsectors(out: &mut Vec<char>, v: &Vec<MetaSubsector>)
    ensures
        final(out)@ == with_subsectors(old(out)@, v@),
{
    let mut i: usize = 0;
    assert(v@.subrange(0, 0) =~= Seq::<MetaSubsector>::empty());
    while i < v.len()
        invariant
            i <= v@.len(),
            out@ == with_subsectors(old(out)@, v@.subrange(0, i as int)),
        decreases v@.len() - i,
    {
        push_subsector(out, &v[i]);
        assert(v@.subrange(0, i + 1).drop_last() =~= v@.subrange(0, i as int));
        i += 1;
    }
    assert(v@.subrange(0, v@.len() as int) =~= v@);
}

fn push_allegiances(out: &mut Vec<char>, v: &Vec<MetaAllegiance>)
    ensures
        final(out)@ == with_allegiances(old(out)@, v@),
{
    let mut i: usize = 0;
    assert(v@.subrange(0, 0) =~= Seq::<MetaAllegiance>::empty());
    while i < v.len()
        invariant
            i <= v@.len(),
            out@ == with_allegiances(old(out)@, v@.subrange(0, i as int)),
        decreases v@.len() - i,
    {
        push_allegiance(out, &v[i]);
        assert(v@.subrange(0, i + 1).drop_last() =~= v@.subrange(0, i as int));
        i += 1;
    }
    assert(v@.subrange(0, v@.len() as int) =~= v@);
}

fn push_borders(out: &mut Vec<char>, tag: &str, v: &Vec<MetaBorder>)
    ensures
        final(out)@ == with_borders(old(out)@, tag@, v@),
{
    let mut i: usize = 0;
    assert(v@.subrange(0, 0) =~= Seq::<MetaBorder>::empty());
    while i < v.len()
        invariant
            i <= v@.len(),
            out@ == with_borders(old(out)@, tag@, v@.subrange(0, i as int)),
        decreases v@.len() - i,
    {
        xml_border(out, tag, &v[i]);
        assert(v@.subrange(0, i + 1).drop_last() =~= v@.subrange(0, i as int));
        i += 1;
    }
    assert(v@.subrange(0, v@.len() as int) =~= v@);
}

fn push_routes(out: &mut Vec<char>, v: &Vec<MetaRoute>)
    ensures
        final(out)@ == with_routes(old(out)@, v@),
{
    let mut i: usize = 0;
    assert(v@.subrange(0, 0) =~= Seq::<MetaRoute>::empty());
    while i < v.len()
        invariant
            i <= v@.len(),
            out@ == with_routes(old(out)@, v@.subrange(0, i as int)),
        decreases v@.len() - i,
    {
        xml_route(out, &v[i]);
        assert(v@.subrange(0, i + 1).drop_last() =~= v@.subrange(0, i as int));
        i += 1;
    }
    assert(v@.subrange(0, v@.len() as int) =~= v@);
}

fn push_labels(out: &mut Vec<char>, v: &Vec<MetaLabel>)
    ensures
        final(out)@ == with_labels(old(out)@, v@),
{
    let mut i: usize = 0;
    assert(v@.subrange(0, 0) =~= Seq::<MetaLabel>::empty());
    while i < v.len()
        invariant
            i <= v@.len(),
            out@ == with_labels(old(out)@, v@.subrange(0, i as int)),
        decreases v@.len() - i,
    {
        xml_label(out, &v[i]);
        assert(v@.subrange(0, i + 1).drop_last() =~= v@.subrange(0, i as int));
        i += 1;
    }
    assert(v@.subrange(0, v@.len() as int) =~= v@);
}

impl SectorMetadata {
    fn push_head(&self, out: &mut Vec<char>)
        ensures
            final(out)@ == with_metadata_head(old(out)@, *self),
    {
        push_str_chars(out, "<?xml version=\"1.0\"?>\n<Sector");
        push_flag_attr(out, self.selected, "Selected", "true");
        xml_attr(out, "Tags", self.tags.as_str());
        push_opt_attr(out, "Abbreviation", &self.abbreviation);
        push_opt_attr(out, "Label", &self.label);
        push_str_chars(out, ">");
        push_names(out, &self.names);
        let ghost c0 = out@;
        match &self.credits_text {
            Some(c) => {
                if !c.as_str().is_empty() {
                    push_str_chars(out, "<Credits><![CDATA[");
                    push_str_chars(out, c.as_str());
                    push_str_chars(out, "]]></Credits>");
                    assert(out@ =~= c0 + credits_xml(self.credits_text));
                } else {
                    assert(out@ =~= c0 + credits_xml(self.credits_text));
                }
            },
            None => {
                assert(out@ =~= c0 + credits_xml(self.credits_text));
            },
        }
        let xs = int_to_string(self.x as i64);
        xml_el(out, "X", xs.as_str());
        let ys = int_to_string(self.y as i64);
        xml_el(out, "Y", ys.as_str());
        push_products(out, &self.products);
        push_data_file(out, &self.data_file);
        push_str_chars(out, "<Subsectors>");
        push_subsectors(out, &self.subsectors);
        push_str_chars(out, "</Subsectors>");
        push_str_chars(out, "<Allegiances>");
        push_allegiances(out, &self.allegiances);
        push_str_chars(out, "</Allegiances>");
    }

    /// The `<Sector>` metadata document as XML (after the XML declaration):
    /// members in the order of the public result, empty `Labels`, `Borders`,
    /// `Regions` and `Routes` collections omitted.
    pub fn to_xml(&self) -> (s: String)
        ensures
            s@ == metadata_xml(*self),
    {
        let mut out: Vec<char> = Vec::new();
        self.push_head(&mut out);
        let ghost h0 = out@;
        match &self.stylesheet {
            Some(ss) => xml_el(&mut out, "Stylesheet", ss.as_str()),
            None => {
                assert(out@ =~= h0 + Seq::<char>::empty());
            },
        }
        if self.labels.len() > 0 {
            push_str_chars(&mut out, "<Labels>");
            push_labels(&mut out, &self.labels);
            push_str_chars(&mut out, "</Labels>");
        }
        if self.borders.len() > 0 {
            push_str_chars(&mut out, "<Borders>");
            push_borders(&mut out, "Border", &self.borders);
            push_str_chars(&mut out, "</Borders>");
        }
        if self.regions.len() > 0 {
            push_str_chars(&mut out, "<Regions>");
            push_borders(&mut out, "Region", &self.regions);
            push_str_chars(&mut out, "</Regions>");
        }
        if self.routes.len() > 0 {
            push_str_chars(&mut out, "<Routes>");
            push_routes(&mut out, &self.routes);
            push_str_chars(&mut out, "</Routes>");
        }
        push_str_chars(&mut out, "</Sector>");
        string_from_chars(&out)
    }
}

} // verus!

verus! {

// ── Reading the document ────────────────────────────────────────────────────

/// Node `j` is an element with local name `tag`.
pub open spec fn is_tag(nodes: Seq<XmlNode>, j: int, tag: Seq<char>) -> bool {
    nodes[j].element && nodes[j].name@ == tag
}

fn node_is(nodes: &Vec<XmlNode>, j: usize, tag: &str) -> (r: bool)
    requires
        j < nodes@.len(),
    ensures
        r == is_tag(nodes@, j as int, tag@),
{
    nodes[j].element && str_eq(nodes[j].name.as_str(), tag)
}

/// An attribute spelled `True` or `true`.
pub open spec fn attr_true(attrs: Seq<(String, String)>, name: Seq<char>) -> bool {
    attr_of(attrs, name) == Some("True"@) || attr_of(attrs, name) == Some("true"@)
}

fn attribute_true(n: &XmlNode, name: &str) -> (r: bool)
    ensures
        r == attr_true(n.attributes@, name@),
{
    match attribute(n, name) {
        Some(v) => str_eq(v.as_str(), "True") || str_eq(v.as_str(), "true"),
        None => false,
    }
}

/// The root element, when it is a `<Sector>`.
pub open spec fn sector_root(nodes: Seq<XmlNode>) -> Option<int> {
    match root_element(nodes) {
        Some(r) => if nodes[r].name@ == "Sector"@ { Some(r) } else { None },
        None => None,
    }
}

// Names: non-blank `<Name>` children of a `<Sector>` element.

pub open spec fn meta_name_at(nodes: Seq<XmlNode>, j: int) -> Seq<NameSpec> {
    if is_tag(nodes, j, "Name"@) && (nodes[j].parent matches Some(p) && (p as int) < nodes.len() && is_tag(nodes, p as int, "Sector"@)) {
        match opt_text_view(nodes[j].text) {
            Some(t) => if trim(t).len() > 0 {
                seq![NameSpec {
                    text: trim(t),
                    lang: attr_trimmed(nodes[j].attributes@, "Lang"@),
                    source: attr_trimmed(nodes[j].attributes@, "Source"@),
                }]
            } else {
                Seq::empty()
            },
            None => Seq::empty(),
        }
    } else {
        Seq::empty()
    }
}

pub open spec fn meta_names_upto(nodes: Seq<XmlNode>, k: int) -> Seq<NameSpec>
    decreases k,
{
    if k <= 0 { Seq::empty() } else { meta_names_upto(nodes, k - 1) + meta_name_at(nodes, k - 1) }
}

fn meta_name_from(nodes: &Vec<XmlNode>, j: usize) -> (r: Option<SectorName>)
    requires
        j < nodes@.len(),
    ensures
        match r {
            Some(n) => meta_name_at(nodes@, j as int) == seq![name_spec(n)],
            None => meta_name_at(nodes@, j as int) == Seq::<NameSpec>::empty(),
        },
{
    if !node_is(nodes, j, "Name") {
        return None;
    }
    let p = match nodes[j].parent {
        Some(p) => p,
        None => return None,
    };
    if !(p < nodes.len() && node_is(nodes, p, "Sector")) {
        return None;
    }
    match &nodes[j].text {
        Some(t) => {
            let text = trim_str(t.as_str());
            if text.as_str().is_empty() {
                return None;
            }
            let n = SectorName { text, lang: attribute_trimmed(&nodes[j], "Lang"), source: attribute_trimmed(&nodes[j], "Source") };
            assert(meta_name_at(nodes@, j as int) =~~= seq![name_spec(n)]);
            Some(n)
        },
        None => None,
    }
}

fn meta_names_from(nodes: &Vec<XmlNode>) -> (r: Vec<SectorName>)
    ensures
        names_view(r@) == meta_names_upto(nodes@, nodes@.len() as int),
{
    let mut out: Vec<SectorName> = Vec::new();
    let mut j: usize = 0;
    while j < nodes.len()
        invariant
            j <= nodes@.len(),
            names_view(out@) == meta_names_upto(nodes@, j as int),
        decreases nodes@.len() - j,
    {
        let ghost before = names_view(out@);
        match meta_name_from(nodes, j) {
            Some(n) => {
                out.push(n);
                assert(names_view(out@) =~= before + meta_name_at(nodes@, j as int));
            },
            None => {
                assert(before + meta_name_at(nodes@, j as int) =~= before);
            },
        }
        j += 1;
    }
    out
}

// Subsectors: `<Subsector Index=…>name</Subsector>` with an index and a name.

/// `char::to_ascii_uppercase`.
pub open spec fn ascii_upper(c: char) -> int {
    if 'a' <= c <= 'z' { c as u32 - 32 } else { c as u32 as int }
}

pub open spec fn meta_subsector_at(nodes: Seq<XmlNode>, j: int) -> Seq<(Seq<char>, Seq<char>, int)> {
    if is_tag(nodes, j, "Subsector"@) {
        match (attr_trimmed(nodes[j].attributes@, "Index"@), opt_text_view(nodes[j].text)) {
            (Some(index), Some(t)) => if trim(t).len() > 0 {
                seq![(trim(t), index, ascii_upper(index[0]) - 'A' as int)]
            } else {
                Seq::empty()
            },
            _ => Seq::empty(),
        }
    } else {
        Seq::empty()
    }
}

pub open spec fn meta_subsectors_upto(nodes: Seq<XmlNode>, k: int) -> Seq<(Seq<char>, Seq<char>, int)>
    decreases k,
{
    if k <= 0 { Seq::empty() } else { meta_subsectors_upto(nodes, k - 1) + meta_subsector_at(nodes, k - 1) }
}

pub open spec fn meta_subsector_views(v: Seq<MetaSubsector>) -> Seq<(Seq<char>, Seq<char>, int)> {
    v.map_values(|s: MetaSubsector| (s.name@, s.index@, s.index_number as int))
}

fn meta_subsector_from(nodes: &Vec<XmlNode>, j: usize) -> (r: Option<MetaSubsector>)
    requires
        j < nodes@.len(),
    ensures
        match r {
            Some(s) => meta_subsector_at(nodes@, j as int) == seq![(s.name@, s.index@, s.index_number as int)],
            None => meta_subsector_at(nodes@, j as int) == Seq::<(Seq<char>, Seq<char>, int)>::empty(),
        },
{
    if !node_is(nodes, j, "Subsector") {
        return None;
    }
    let index = match attribute_trimmed(&nodes[j], "Index") {
        Some(ix) => ix,
        None => return None,
    };
    let name = match &nodes[j].text {
        Some(t) => trim_str(t.as_str()),
        None => return None,
    };
    if name.as_str().is_empty() {
        return None;
    }
    let ic = chars_of(index.as_str());
    let c = ic[0];
    let code: u32 = c as u32;
    proof { vstd::utf8::char_is_scalar(c); }
    assert(code <= 0x10FFFF);
    let up: u32 = if 'a' <= c && c <= 'z' { code - 32 } else { code };
    let index_number: i32 = up as i32 - 65;
    let s = MetaSubsector { name, index, index_number };
    assert(ic@[0] == s.index@[0]);
    assert(meta_subsector_at(nodes@, j as int) =~~= seq![(s.name@, s.index@, s.index_number as int)]);
    Some(s)
}

fn meta_subsectors_from(nodes: &Vec<XmlNode>) -> (r: Vec<MetaSubsector>)
    ensures
        meta_subsector_views(r@) == meta_subsectors_upto(nodes@, nodes@.len() as int),
{
    let mut out: Vec<MetaSubsector> = Vec::new();
    let mut j: usize = 0;
    while j < nodes.len()
        invariant
            j <= nodes@.len(),
            meta_subsector_views(out@) == meta_subsectors_upto(nodes@, j as int),
        decreases nodes@.len() - j,
    {
        let ghost before = meta_subsector_views(out@);
        match meta_subsector_from(nodes, j) {
            Some(x) => {
                out.push(x);
                assert(meta_subsector_views(out@) =~= before + meta_subsector_at(nodes@, j as int));
            },
            None => {
                assert(before + meta_subsector_at(nodes@, j as int) =~= before);
            },
        }
        j += 1;
    }
    out
}

// Products: every `<Product>`.

pub open spec fn product_view(p: Product) -> (Option<Seq<char>>, Option<Seq<char>>, Option<Seq<char>>, Option<Seq<char>>) {
    (opt_view(p.author), opt_view(p.title), opt_view(p.publisher), opt_view(p.reference))
}

pub open spec fn meta_product_at(nodes: Seq<XmlNode>, j: int) -> Seq<(Option<Seq<char>>, Option<Seq<char>>, Option<Seq<char>>, Option<Seq<char>>)> {
    let a = nodes[j].attributes@;
    if is_tag(nodes, j, "Product"@) {
        seq![(attr_trimmed(a, "Author"@), attr_trimmed(a, "Title"@), attr_trimmed(a, "Publisher"@), attr_trimmed(a, "Ref"@))]
    } else {
        Seq::empty()
    }
}

pub open spec fn meta_products_upto(nodes: Seq<XmlNode>, k: int) -> Seq<(Option<Seq<char>>, Option<Seq<char>>, Option<Seq<char>>, Option<Seq<char>>)>
    decreases k,
{
    if k <= 0 { Seq::empty() } else { meta_products_upto(nodes, k - 1) + meta_product_at(nodes, k - 1) }
}

fn meta_products_from(nodes: &Vec<XmlNode>) -> (r: Vec<Product>)
    ensures
        r@.map_values(|p: Product| product_view(p)) == meta_products_upto(nodes@, nodes@.len() as int),
{
    let mut out: Vec<Product> = Vec::new();
    let mut j: usize = 0;
    while j < nodes.len()
        invariant
            j <= nodes@.len(),
            out@.map_values(|p: Product| product_view(p)) == meta_products_upto(nodes@, j as int),
        decreases nodes@.len() - j,
    {
        let ghost before = out@.map_values(|p: Product| product_view(p));
        if node_is(nodes, j, "Product") {
            let n = &nodes[j];
            out.push(Product {
                author: attribute_trimmed(n, "Author"),
                title: attribute_trimmed(n, "Title"),
                publisher: attribute_trimmed(n, "Publisher"),
                reference: attribute_trimmed(n, "Ref"),
            });
            assert(out@.map_values(|p: Product| product_view(p)) =~= before + meta_product_at(nodes@, j as int));
        } else {
            assert(before + meta_product_at(nodes@, j as int) =~= before);
        }
        j += 1;
    }
    out
}

// Stylesheet: the last `<Stylesheet>`'s text, unless blank.

pub open spec fn style_value(n: XmlNode) -> Option<Seq<char>> {
    match opt_text_view(n.text) {
        Some(t) => if trim(t).len() > 0 { Some(t) } else { None },
        None => None,
    }
}

pub open spec fn meta_stylesheet_upto(nodes: Seq<XmlNode>, k: int) -> Option<Seq<char>>
    decreases k,
{
    if k <= 0 {
        None
    } else if is_tag(nodes, k - 1, "Stylesheet"@) {
        style_value(nodes[k - 1])
    } else {
        meta_stylesheet_upto(nodes, k - 1)
    }
}

fn meta_stylesheet_from(nodes: &Vec<XmlNode>) -> (r: Option<String>)
    ensures
        opt_view(r) == meta_stylesheet_upto(nodes@, nodes@.len() as int),
{
    let mut out: Option<String> = None;
    let mut j: usize = 0;
    while j < nodes.len()
        invariant
            j <= nodes@.len(),
            opt_view(out) == meta_stylesheet_upto(nodes@, j as int),
        decreases nodes@.len() - j,
    {
        if node_is(nodes, j, "Stylesheet") {
            out = match &nodes[j].text {
                Some(t) => {
                    let tt = trim_str(t.as_str());
                    if tt.as_str().is_empty() { None } else { Some(t.clone()) }
                },
                None => None,
            };
        }
        j += 1;
    }
    out
}

// Credits: the last `<Credits>` whose text-node text is not blank, trimmed.

pub open spec fn credit_at(nodes: Seq<XmlNode>, j: int) -> Option<Seq<char>> {
    if is_tag(nodes, j, "Credits"@) {
        let t = trim(text_nodes_within(nodes, j, nodes.len() as int));
        if t.len() > 0 { Some(t) } else { None }
    } else {
        None
    }
}

pub open spec fn meta_credits_upto(nodes: Seq<XmlNode>, k: int) -> Option<Seq<char>>
    decreases k,
{
    if k <= 0 {
        None
    } else {
        match credit_at(nodes, k - 1) {
            Some(t) => Some(t),
            None => meta_credits_upto(nodes, k - 1),
        }
    }
}

fn meta_credits_from(nodes: &Vec<XmlNode>) -> (r: Option<String>)
    ensures
        opt_view(r) == meta_credits_upto(nodes@, nodes@.len() as int),
{
    let mut out: Option<String> = None;
    let mut j: usize = 0;
    while j < nodes.len()
        invariant
            j <= nodes@.len(),
            opt_view(out) == meta_credits_upto(nodes@, j as int),
        decreases nodes@.len() - j,
    {
        if node_is(nodes, j, "Credits") {
            let all = collect_text_nodes(nodes, j);
            let t = trim_chars(&all);
            if t.len() > 0 {
                out = Some(string_from_chars(&t));
            }
        }
        j += 1;
    }
    out
}

} // verus!

verus! {

// Borders and regions.

/// A border or region as read.
pub struct BorderSpec {
    pub show_label: bool,
    pub wrap_label: bool,
    pub color: Option<Seq<char>>,
    pub allegiance: Option<Seq<char>>,
    pub label_position: Option<Seq<char>>,
    pub label_offset_x: Option<Seq<char>>,
    pub label_offset_y: Option<Seq<char>>,
    pub label: Option<Seq<char>>,
    pub hexes: Seq<Seq<char>>,
    pub seq: int,
}

pub open spec fn border_view(b: MetaBorder) -> BorderSpec {
    BorderSpec {
        show_label: b.show_label,
        wrap_label: b.wrap_label,
        color: opt_view(b.color),
        allegiance: opt_view(b.allegiance),
        label_position: opt_view(b.label_position),
        label_offset_x: opt_view(b.label_offset_x),
        label_offset_y: opt_view(b.label_offset_y),
        label: opt_view(b.label),
        hexes: strings_view(b.hexes@),
        seq: b.seq as int,
    }
}

/// A 4-digit hex label.
pub open spec fn is_hex_token(t: Seq<char>) -> bool {
    t.len() == 4 && all_digits(t)
}

/// The tokens that are 4-digit hex labels.
pub open spec fn hex_tokens(ts: Seq<Seq<char>>) -> Seq<Seq<char>>
    decreases ts.len(),
{
    if ts.len() == 0 {
        Seq::empty()
    } else {
        hex_tokens(ts.drop_last()) + if is_hex_token(ts.last()) { seq![ts.last()] } else { Seq::empty() }
    }
}

pub open spec fn text_of(n: XmlNode) -> Seq<char> {
    match n.text {
        Some(t) => t@,
        None => Seq::empty(),
    }
}

/// A `<Border>` or `<Region>` element read: the label is shown unless
/// `ShowLabel` is `False`/`false`, wrapped when `WrapLabel` is `True`/`true`,
/// and the path keeps only the whitespace-separated 4-digit hex labels.
pub open spec fn border_of_node(n: XmlNode, seq: int) -> BorderSpec {
    let a = n.attributes@;
    BorderSpec {
        show_label: match attr_of(a, "ShowLabel"@) {
            Some(v) => v != "False"@ && v != "false"@,
            None => true,
        },
        wrap_label: attr_true(a, "WrapLabel"@),
        color: attr_trimmed(a, "Color"@),
        allegiance: attr_trimmed(a, "Allegiance"@),
        label_position: attr_trimmed(a, "LabelPosition"@),
        label_offset_x: attr_trimmed(a, "LabelOffsetX"@),
        label_offset_y: attr_trimmed(a, "LabelOffsetY"@),
        label: attr_trimmed(a, "Label"@),
        hexes: hex_tokens(ws_tokens(text_of(n))),
        seq,
    }
}

/// How many `<Border>` and `<Region>` elements the first `k` nodes hold.
pub open spec fn border_count(nodes: Seq<XmlNode>, k: int) -> int
    decreases k,
{
    if k <= 0 {
        0
    } else {
        border_count(nodes, k - 1) + if is_tag(nodes, k - 1, "Border"@) || is_tag(nodes, k - 1, "Region"@) { 1int } else { 0int }
    }
}

/// The `tag` elements (`Border` or `Region`) among the first `k` nodes, each
/// numbered by its position among borders and regions together.
pub open spec fn meta_borders_upto(nodes: Seq<XmlNode>, tag: Seq<char>, k: int) -> Seq<BorderSpec>
    decreases k,
{
    if k <= 0 {
        Seq::empty()
    } else {
        meta_borders_upto(nodes, tag, k - 1) + if is_tag(nodes, k - 1, tag) {
            seq![border_of_node(nodes[k - 1], border_count(nodes, k - 1))]
        } else {
            Seq::empty()
        }
    }
}

pub open spec fn border_views(v: Seq<MetaBorder>) -> Seq<BorderSpec> {
    v.map_values(|b: MetaBorder| border_view(b))
}

fn digits_only(cs: &Vec<char>) -> (r: bool)
    ensures
        r == all_digits(cs@),
{
    let mut k: usize = 0;
    while k < cs.len()
        invariant
            k <= cs@.len(),
            forall|m: int| 0 <= m < k ==> '0' <= #[trigger] cs@[m] <= '9',
        decreases cs@.len() - k,
    {
        if !('0' <= cs[k] && cs[k] <= '9') {
            return false;
        }
        k += 1;
    }
    true
}

/// The 4-digit hex labels among the whitespace-separated tokens of `text`.
pub(crate) fn hex_path(text: &Option<String>) -> (r: Vec<String>)
    ensures
        strings_view(r@) == hex_tokens(ws_tokens(match *text {
            Some(t) => t@,
            None => Seq::<char>::empty(),
        })),
{
    let toks = match text {
        Some(t) => split_ws(t.as_str()),
        None => split_ws(""),
    };
    proof {
        if text.is_none() {
            reveal_strlit("");
        }
    }
    let ghost tv = toks@.map_values(|t: String| t@);
    let mut out: Vec<String> = Vec::new();
    let mut i: usize = 0;
    while i < toks.len()
        invariant
            i <= toks@.len(),
            tv == toks@.map_values(|t: String| t@),
            strings_view(out@) == hex_tokens(tv.subrange(0, i as int)),
        decreases toks@.len() - i,
    {
        let ghost before = strings_view(out@);
        assert(tv.subrange(0, i + 1).drop_last() =~= tv.subrange(0, i as int));
        assert(tv.subrange(0, i + 1).last() == toks@[i as int]@);
        let cs = chars_of(toks[i].as_str());
        let ok = cs.len() == 4 && digits_only(&cs);
        if ok {
            out.push(toks[i].clone());
            assert(strings_view(out@) =~= before + seq![toks@[i as int]@]);
        } else {
            assert(before + Seq::<Seq<char>>::empty() =~= before);
        }
        i += 1;
    }
    assert(tv.subrange(0, toks@.len() as int) =~= tv);
    out
}

/// Read one `<Border>` or `<Region>` element.
fn parse_border(n: &XmlNode, seq: usize) -> (b: MetaBorder)
    ensures
        border_view(b) == border_of_node(*n, seq as int),
{
    let show_label = match attribute(n, "ShowLabel") {
        Some(v) => !str_eq(v.as_str(), "False") && !str_eq(v.as_str(), "false"),
        None => true,
    };
    let b = MetaBorder {
        show_label,
        wrap_label: attribute_true(n, "WrapLabel"),
        color: attribute_trimmed(n, "Color"),
        allegiance: attribute_trimmed(n, "Allegiance"),
        label_position: attribute_trimmed(n, "LabelPosition"),
        label_offset_x: attribute_trimmed(n, "LabelOffsetX"),
        label_offset_y: attribute_trimmed(n, "LabelOffsetY"),
        label: attribute_trimmed(n, "Label"),
        hexes: hex_path(&n.text),
        seq,
    };
    assert(border_view(b) =~~= border_of_node(*n, seq as int));
    b
}

fn meta_borders_from(nodes: &Vec<XmlNode>, tag: &str) -> (r: Vec<MetaBorder>)
    ensures
        border_views(r@) == meta_borders_upto(nodes@, tag@, nodes@.len() as int),
{
    let mut out: Vec<MetaBorder> = Vec::new();
    let mut count: usize = 0;
    let mut j: usize = 0;
    while j < nodes.len()
        invariant
            j <= nodes@.len(),
            count as int == border_count(nodes@, j as int),
            count <= j,
            border_views(out@) == meta_borders_upto(nodes@, tag@, j as int),
        decreases nodes@.len() - j,
    {
        let ghost before = border_views(out@);
        if node_is(nodes, j, tag) {
            out.push(parse_border(&nodes[j], count));
            assert(border_views(out@) =~= before + seq![border_of_node(nodes@[j as int], border_count(nodes@, j as int))]);
        } else {
            assert(before + Seq::<BorderSpec>::empty() =~= before);
        }
        if node_is(nodes, j, "Border") || node_is(nodes, j, "Region") {
            count += 1;
        }
        j += 1;
    }
    out
}

// Routes.

pub open spec fn or_empty(o: Option<Seq<char>>) -> Seq<char> {
    match o {
        Some(s) => s,
        None => Seq::empty(),
    }
}

pub open spec fn meta_route_view(r: MetaRoute) -> (Seq<char>, Seq<char>, int, int, int, int, Option<Seq<char>>, Option<Seq<char>>, Option<Seq<char>>) {
    (r.start@, r.end@, r.start_offset_x as int, r.start_offset_y as int, r.end_offset_x as int, r.end_offset_y as int,
        opt_view(r.allegiance), opt_view(r.color), opt_view(r.route_type))
}

/// A `<Route>` read: blank ends are empty, offsets not numbers are zero.
pub open spec fn meta_route_at(nodes: Seq<XmlNode>, j: int) -> Seq<(Seq<char>, Seq<char>, int, int, int, int, Option<Seq<char>>, Option<Seq<char>>, Option<Seq<char>>)> {
    let a = nodes[j].attributes@;
    if is_tag(nodes, j, "Route"@) {
        seq![(or_empty(attr_trimmed(a, "Start"@)), or_empty(attr_trimmed(a, "End"@)),
            attr_int_or_zero(a, "StartOffsetX"@, i32::MIN as int, i32::MAX as int),
            attr_int_or_zero(a, "StartOffsetY"@, i32::MIN as int, i32::MAX as int),
            attr_int_or_zero(a, "EndOffsetX"@, i32::MIN as int, i32::MAX as int),
            attr_int_or_zero(a, "EndOffsetY"@, i32::MIN as int, i32::MAX as int),
            attr_trimmed(a, "Allegiance"@), attr_trimmed(a, "Color"@), attr_trimmed(a, "Type"@))]
    } else {
        Seq::empty()
    }
}

pub open spec fn meta_routes_upto(nodes: Seq<XmlNode>, k: int) -> Seq<(Seq<char>, Seq<char>, int, int, int, int, Option<Seq<char>>, Option<Seq<char>>, Option<Seq<char>>)>
    decreases k,
{
    if k <= 0 { Seq::empty() } else { meta_routes_upto(nodes, k - 1) + meta_route_at(nodes, k - 1) }
}

fn trimmed_or_empty(n: &XmlNode, name: &str) -> (r: String)
    ensures
        r@ == or_empty(attr_trimmed(n.attributes@, name@)),
{
    match attribute_trimmed(n, name) {
        Some(v) => v,
        None => String::new(),
    }
}

fn offset_of(n: &XmlNode, name: &str) -> (r: i32)
    ensures
        r as int == attr_int_or_zero(n.attributes@, name@, i32::MIN as int, i32::MAX as int),
{
    attribute_int_or_zero(n, name, -2147483648, 2147483647) as i32
}

fn meta_routes_from(nodes: &Vec<XmlNode>) -> (r: Vec<MetaRoute>)
    ensures
        r@.map_values(|x: MetaRoute| meta_route_view(x)) == meta_routes_upto(nodes@, nodes@.len() as int),
{
    let mut out: Vec<MetaRoute> = Vec::new();
    let mut j: usize = 0;
    while j < nodes.len()
        invariant
            j <= nodes@.len(),
            out@.map_values(|x: MetaRoute| meta_route_view(x)) == meta_routes_upto(nodes@, j as int),
        decreases nodes@.len() - j,
    {
        let ghost before = out@.map_values(|x: MetaRoute| meta_route_view(x));
        if node_is(nodes, j, "Route") {
            let n = &nodes[j];
            out.push(MetaRoute {
                start: trimmed_or_empty(n, "Start"),
                end: trimmed_or_empty(n, "End"),
                start_offset_x: offset_of(n, "StartOffsetX"),
                start_offset_y: offset_of(n, "StartOffsetY"),
                end_offset_x: offset_of(n, "EndOffsetX"),
                end_offset_y: offset_of(n, "EndOffsetY"),
                allegiance: attribute_trimmed(n, "Allegiance"),
                color: attribute_trimmed(n, "Color"),
                route_type: attribute_trimmed(n, "Type"),
            });
            assert(out@.map_values(|x: MetaRoute| meta_route_view(x)) =~= before + meta_route_at(nodes@, j as int));
        } else {
            assert(before + meta_route_at(nodes@, j as int) =~= before);
        }
        j += 1;
    }
    out
}

// Labels.

pub open spec fn meta_label_view(l: MetaLabel) -> (Seq<char>, Option<Seq<char>>, Option<Seq<char>>, Option<Seq<char>>, bool, Option<Seq<char>>, Option<Seq<char>>, Seq<char>) {
    (l.hex@, opt_view(l.allegiance), opt_view(l.color), opt_view(l.size), l.wrap, opt_view(l.offset_x), opt_view(l.offset_y), l.text@)
}

/// A `<Label>` read: its text trimmed.
pub open spec fn meta_label_at(nodes: Seq<XmlNode>, j: int) -> Seq<(Seq<char>, Option<Seq<char>>, Option<Seq<char>>, Option<Seq<char>>, bool, Option<Seq<char>>, Option<Seq<char>>, Seq<char>)> {
    let a = nodes[j].attributes@;
    if is_tag(nodes, j, "Label"@) {
        seq![(or_empty(attr_trimmed(a, "Hex"@)), attr_trimmed(a, "Allegiance"@), attr_trimmed(a, "Color"@),
            attr_trimmed(a, "Size"@), attr_true(a, "Wrap"@), attr_trimmed(a, "OffsetX"@), attr_trimmed(a, "OffsetY"@),
            trim(text_of(nodes[j])))]
    } else {
        Seq::empty()
    }
}

pub open spec fn meta_labels_upto(nodes: Seq<XmlNode>, k: int) -> Seq<(Seq<char>, Option<Seq<char>>, Option<Seq<char>>, Option<Seq<char>>, bool, Option<Seq<char>>, Option<Seq<char>>, Seq<char>)>
    decreases k,
{
    if k <= 0 { Seq::empty() } else { meta_labels_upto(nodes, k - 1) + meta_label_at(nodes, k - 1) }
}

fn meta_labels_from(nodes: &Vec<XmlNode>) -> (r: Vec<MetaLabel>)
    ensures
        r@.map_values(|x: MetaLabel| meta_label_view(x)) == meta_labels_upto(nodes@, nodes@.len() as int),
{
    let mut out: Vec<MetaLabel> = Vec::new();
    let mut j: usize = 0;
    while j < nodes.len()
        invariant
            j <= nodes@.len(),
            out@.map_values(|x: MetaLabel| meta_label_view(x)) == meta_labels_upto(nodes@, j as int),
        decreases nodes@.len() - j,
    {
        let ghost before = out@.map_values(|x: MetaLabel| meta_label_view(x));
        if node_is(nodes, j, "Label") {
            let n = &nodes[j];
            let text = match &n.text {
                Some(t) => trim_str(t.as_str()),
                None => String::new(),
            };
            out.push(MetaLabel {
                hex: trimmed_or_empty(n, "Hex"),
                allegiance: attribute_trimmed(n, "Allegiance"),
                color: attribute_trimmed(n, "Color"),
                size: attribute_trimmed(n, "Size"),
                wrap: attribute_true(n, "Wrap"),
                offset_x: attribute_trimmed(n, "OffsetX"),
                offset_y: attribute_trimmed(n, "OffsetY"),
                text,
            });
            assert(out@.map_values(|x: MetaLabel| meta_label_view(x)) =~= before + meta_label_at(nodes@, j as int));
        } else {
            assert(before + meta_label_at(nodes@, j as int) =~= before);
        }
        j += 1;
    }
    out
}

// The sector's own allegiances.

pub open spec fn meta_allegiance_view(a: MetaAllegiance) -> (Seq<char>, Seq<char>, Option<Seq<char>>) {
    (a.name@, a.code@, opt_view(a.base))
}

/// An `<Allegiance Code=…>name</Allegiance>` with a code; a blank name is
/// empty.
pub open spec fn local_allegiance_at(nodes: Seq<XmlNode>, j: int) -> Seq<(Seq<char>, Seq<char>, Option<Seq<char>>)> {
    let a = nodes[j].attributes@;
    if is_tag(nodes, j, "Allegiance"@) {
        match attr_trimmed(a, "Code"@) {
            Some(code) => seq![(trim(text_of(nodes[j])), code, attr_trimmed(a, "Base"@))],
            None => Seq::empty(),
        }
    } else {
        Seq::empty()
    }
}

pub open spec fn local_allegiances_upto(nodes: Seq<XmlNode>, k: int) -> Seq<(Seq<char>, Seq<char>, Option<Seq<char>>)>
    decreases k,
{
    if k <= 0 { Seq::empty() } else { local_allegiances_upto(nodes, k - 1) + local_allegiance_at(nodes, k - 1) }
}

fn local_allegiances_from(nodes: &Vec<XmlNode>) -> (r: Vec<MetaAllegiance>)
    ensures
        r@.map_values(|x: MetaAllegiance| meta_allegiance_view(x)) == local_allegiances_upto(nodes@, nodes@.len() as int),
{
    let mut out: Vec<MetaAllegiance> = Vec::new();
    let mut j: usize = 0;
    while j < nodes.len()
        invariant
            j <= nodes@.len(),
            out@.map_values(|x: MetaAllegiance| meta_allegiance_view(x)) == local_allegiances_upto(nodes@, j as int),
        decreases nodes@.len() - j,
    {
        let ghost before = out@.map_values(|x: MetaAllegiance| meta_allegiance_view(x));
        let n = &nodes[j];
        let mut found: Option<MetaAllegiance> = None;
        if node_is(nodes, j, "Allegiance") {
            if let Some(code) = attribute_trimmed(n, "Code") {
                let name = match &n.text {
                    Some(t) => trim_str(t.as_str()),
                    None => String::new(),
                };
                found = Some(MetaAllegiance { name, code, base: attribute_trimmed(n, "Base") });
            }
        }
        match found {
            Some(a) => {
                out.push(a);
                assert(out@.map_values(|x: MetaAllegiance| meta_allegiance_view(x)) =~= before + local_allegiance_at(nodes@, j as int));
            },
            None => {
                assert(before + local_allegiance_at(nodes@, j as int) =~= before);
            },
        }
        j += 1;
    }
    out
}

} // verus!

verus! {

/// What `m` must hold after reading a document with nodes `nodes`: the root
/// `<Sector>`'s `Selected`, `Tags`, `Abbreviation` and `Label`; every list
/// in document order; the last non-blank stylesheet and credits; position,
/// data file and allegiance list left empty for the caller to fill.
pub open spec fn metadata_read(m: SectorMetadata, nodes: Seq<XmlNode>) -> bool {
    let k = nodes.len() as int;
    let root_attrs = match sector_root(nodes) {
        Some(r) => Some(nodes[r].attributes@),
        None => None,
    };
    &&& m.selected == (match root_attrs {
        Some(a) => attr_true(a, "Selected"@),
        None => false,
    })
    &&& m.tags@ == (match root_attrs {
        Some(a) => match attr_of(a, "Tags"@) {
            Some(t) => trim(t),
            None => Seq::empty(),
        },
        None => Seq::empty(),
    })
    &&& opt_view(m.abbreviation) == (match root_attrs {
        Some(a) => attr_trimmed(a, "Abbreviation"@),
        None => None,
    })
    &&& opt_view(m.label) == (match root_attrs {
        Some(a) => attr_trimmed(a, "Label"@),
        None => None,
    })
    &&& names_view(m.names@) == meta_names_upto(nodes, k)
    &&& m.credits@.len() == 0
    &&& opt_view(m.credits_text) == meta_credits_upto(nodes, k)
    &&& m.x == 0 && m.y == 0
    &&& m.products@.map_values(|p: Product| product_view(p)) == meta_products_upto(nodes, k)
    &&& m.data_file.title is None && m.data_file.author is None && m.data_file.source is None
    &&& m.data_file.publisher is None && m.data_file.copyright is None && m.data_file.milieu is None
    &&& m.data_file.reference is None
    &&& meta_subsector_views(m.subsectors@) == meta_subsectors_upto(nodes, k)
    &&& m.allegiances@.len() == 0
    &&& opt_view(m.stylesheet) == meta_stylesheet_upto(nodes, k)
    &&& m.labels@.map_values(|x: MetaLabel| meta_label_view(x)) == meta_labels_upto(nodes, k)
    &&& border_views(m.borders@) == meta_borders_upto(nodes, "Border"@, k)
    &&& border_views(m.regions@) == meta_borders_upto(nodes, "Region"@, k)
    &&& m.routes@.map_values(|x: MetaRoute| meta_route_view(x)) == meta_routes_upto(nodes, k)
    &&& m.local_allegiances@.map_values(|x: MetaAllegiance| meta_allegiance_view(x)) == local_allegiances_upto(nodes, k)
}

/// Parse a sector's metadata `.xml` into [`SectorMetadata`]: everything but
/// the position, data file and worlds-derived allegiances, which the caller
/// has from the sector index and the world list. A document that doesn't
/// parse reads as empty.
pub fn parse_sector_metadata(xml: &str) -> (m: SectorMetadata)
    ensures
        metadata_read(m, doc_nodes(xml@)),
{
    match parse_xml(xml) {
        Ok(nodes) => metadata_from(&nodes),
        Err(_) => metadata_from(&Vec::new()),
    }
}

/// [`parse_sector_metadata`] over a parsed document.
pub fn metadata_from(nodes: &Vec<XmlNode>) -> (m: SectorMetadata)
    ensures
        metadata_read(m, nodes@),
{
    let mut m = SectorMetadata::default();
    let root = find_root(nodes);
    let sector = match root {
        Some(r) => if str_eq(nodes[r].name.as_str(), "Sector") { Some(r) } else { None },
        None => None,
    };
    if let Some(r) = sector {
        let n = &nodes[r];
        m.selected = attribute_true(n, "Selected");
        m.tags = match attribute(n, "Tags") {
            Some(t) => trim_str(t.as_str()),
            None => String::new(),
        };
        m.abbreviation = attribute_trimmed(n, "Abbreviation");
        m.label = attribute_trimmed(n, "Label");
    } else {
        assert(m.tags@ =~= Seq::<char>::empty());
    }
    m.names = meta_names_from(nodes);
    m.credits_text = meta_credits_from(nodes);
    m.products = meta_products_from(nodes);
    m.subsectors = meta_subsectors_from(nodes);
    m.stylesheet = meta_stylesheet_from(nodes);
    m.labels = meta_labels_from(nodes);
    m.borders = meta_borders_from(nodes, "Border");
    m.regions = meta_borders_from(nodes, "Region");
    m.routes = meta_routes_from(nodes);
    m.local_allegiances = local_allegiances_from(nodes);
    m
}

} // verus!
