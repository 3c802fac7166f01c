//! The allegiance borders of a sector metadata document as the map's border
//! layer reads them: each `<Border Allegiance="…">hex hex …</Border>` element
//! with an allegiance and at least one 4-digit hex label.
use vstd::prelude::*;

use crate::xml::{XmlNode, doc_nodes, parse_xml, attr_of, attribute};
use crate::metadata::{is_tag, hex_tokens, text_of, hex_path, strings_view, opt_view};
use crate::text::{ws_tokens, str_eq};

verus! {

/// One allegiance border.
#[derive(Debug)]
pub struct Border {
    pub allegiance: String,
    /// The boundary hexes (4-digit labels) of the perimeter.
    pub hexes: Vec<String>,
    /// Every absolute hex inside the border; filled in later, empty as read.
    pub region: Vec<(i32, i32)>,
    /// The border's own colour (`Color`), ahead of the allegiance's.
    pub color: Option<String>,
    pub label: Option<String>,
    pub label_position: Option<String>,
}

/// A border as plain values.
pub struct BorderRead {
    pub allegiance: Seq<char>,
    pub hexes: Seq<Seq<char>>,
    pub region: Seq<(int, int)>,
    pub color: Option<Seq<char>>,
    pub label: Option<Seq<char>>,
    pub label_position: Option<Seq<char>>,
}

pub open spec fn border_read_view(b: Border) -> BorderRead {
    BorderRead {
        allegiance: b.allegiance@,
        hexes: strings_view(b.hexes@),
        region: b.region@.map_values(|p: (i32, i32)| (p.0 as int, p.1 as int)),
        color: opt_view(b.color),
        label: opt_view(b.label),
        label_position: opt_view(b.label_position),
    }
}

pub open spec fn borders_view(v: Seq<Border>) -> Seq<BorderRead> {
    v.map_values(|b: Border| border_read_view(b))
}

/// A `<Border>` element read: its trimmed `Allegiance` (required), the
/// 4-digit hex labels among the whitespace-separated tokens of its text
/// (at least one required), no region yet, and its `Color`, `Label` and
/// `LabelPosition` as written.
pub open spec fn border_read_of(n: XmlNode) -> Option<BorderRead> {
    let a = n.attributes@;
    match attr_of(a, "Allegiance"@) {
        Some(alleg) => {
            let hexes = hex_tokens(ws_tokens(text_of(n)));
            if hexes.len() > 0 {
                Some(BorderRead {
                    allegiance: crate::text::trim(alleg),
                    hexes,
                    region: Seq::empty(),
                    color: attr_of(a, "Color"@),
                    label: attr_of(a, "Label"@),
                    label_position: attr_of(a, "LabelPosition"@),
                })
            } else {
                None
            }
        },
        None => None,
    }
}

/// The borders read from the first `k` nodes, in document order.
pub open spec fn borders_upto(nodes: Seq<XmlNode>, k: int) -> Seq<BorderRead>
    decreases k,
{
    if k <= 0 {
        Seq::empty()
    } else {
        borders_upto(nodes, k - 1) + if is_tag(nodes, k - 1, "Border"@) {
            match border_read_of(nodes[k - 1]) {
                Some(b) => seq![b],
                None => Seq::empty(),
            }
        } else {
            Seq::empty()
        }
    }
}

/// The borders of a parsed document, in document order.
pub open spec fn borders_of(nodes: Seq<XmlNode>) -> Seq<BorderRead> {
    borders_upto(nodes, nodes.len() as int)
}

/// Read one `<Border>` element, when it has an allegiance and a hex.
fn read_border(n: &XmlNode) -> (r: Option<Border>)
    ensures
        match r {
            Some(b) => border_read_of(*n) == Some(border_read_view(b)),
            None => border_read_of(*n) is None,
        },
{
    let alleg = match attribute(n, "Allegiance") {
        Some(a) => a,
        None => return None,
    };
    let hexes = hex_path(&n.text);
    assert(text_of(*n) == match n.text {
        Some(t) => t@,
        None => Seq::<char>::empty(),
    });
    if hexes.len() == 0 {
        return None;
    }
    let b = Border {
        allegiance: crate::text::trim_str(alleg.as_str()),
        hexes,
        region: Vec::new(),
        color: attribute(n, "Color"),
        label: attribute(n, "Label"),
        label_position: attribute(n, "LabelPosition"),
    };
    assert(border_read_view(b).region =~= Seq::<(int, int)>::empty());
    Some(b)
}

/// [`sector_borders`] over a parsed document.
pub fn borders_from(nodes: &Vec<XmlNode>) -> (r: Vec<Border>)
    ensures
        borders_view(r@) == borders_of(nodes@),
{
    let mut out: Vec<Border> = Vec::new();
    let mut k: usize = 0;
    while k < nodes.len()
        invariant
            k <= nodes@.len(),
            borders_view(out@) == borders_upto(nodes@, k as int),
        decreases nodes@.len() - k,
    {
        let ghost before = borders_view(out@);
        if nodes[k].element && str_eq(nodes[k].name.as_str(), "Border") {
            match read_border(&nodes[k]) {
                Some(b) => {
                    out.push(b);
                    assert(borders_view(out@) =~= before + seq![border_read_view(out@.last())]);
                },
                None => {
                    assert(before + Seq::<BorderRead>::empty() =~= before);
                },
            }
        } else {
            assert(before + Seq::<BorderRead>::empty() =~= before);
        }
        k += 1;
    }
    out
}

/// The allegiance borders of a sector metadata document (`<Border
/// Allegiance="…">hex hex …</Border>`), in document order; none when the
/// document does not parse. A border without an allegiance or without any
/// 4-digit hex label is left out.
pub fn sector_borders(xml: &str) -> (r: Vec<Border>)
    ensures
        borders_view(r@) == borders_of(doc_nodes(xml@)),
{
    match parse_xml(xml) {
        Ok(nodes) => borders_from(&nodes),
        Err(_) => Vec::new(),
    }
}

} // verus!
