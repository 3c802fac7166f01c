//! A parsed XML document as a flat list of nodes in document order, and the
//! navigation the metadata readers need over it (first child by tag, root
//! element, attribute lookup, the text under an element).
//!
//! Parsing itself is done by `roxmltree`; everything after it is verified.
use vstd::prelude::*;

use crate::text::{str_eq, trim, trim_str, chars_of, trim_chars, spec_parse_in, parse_int_chars, string_from_chars};
use crate::sector_writer::byte_len;

verus! {

/// One node of a parsed XML document. The list holds the document node first
/// and then every node in document order; `parent` is the position of the
/// parent node in the same list.
#[derive(Debug, Clone)]
pub struct XmlNode {
    /// An element (not the document, text, comment or processing instruction).
    pub element: bool,
    /// A text node.
    pub text_node: bool,
    /// The element's local tag name; empty for other nodes.
    pub name: String,
    /// The element's attributes in document order, as (local name, value).
    pub attributes: Vec<(String, String)>,
    /// An element's first child when that is text; a text or comment node's own
    /// text.
    pub text: Option<String>,
    pub parent: Option<usize>,
    /// Byte range of the node in the source text.
    pub start: usize,
    pub end: usize,
}

/// What `roxmltree::Document::parse` makes of `xml`: its nodes (as
/// [`XmlNode`]s, document node first, then in document order), or the parse
/// error's message.
pub uninterp spec fn xml_document(xml: Seq<char>) -> Result<Seq<XmlNode>, Seq<char>>;

/// Parses `xml` with `roxmltree::Document::parse` and lists its nodes in
/// document order (`Document::descendants`), each converted field by field;
/// a parse error becomes its message. The result is [`xml_document`] of the
/// text.
#[verifier::external_body]
pub(crate) fn parse_xml(xml: &str) -> (r: Result<Vec<XmlNode>, String>)
    ensures
        match r {
            Ok(nodes) => xml_document(xml@) == Ok::<Seq<XmlNode>, Seq<char>>(nodes@),
            Err(m) => xml_document(xml@) == Err::<Seq<XmlNode>, Seq<char>>(m@),
        },
{
    let doc = roxmltree::Document::parse(xml).map_err(|e| e.to_string())?;
    Ok(doc.descendants().map(|n| XmlNode {
        element: n.is_element(),
        text_node: n.is_text(),
        name: n.tag_name().name().to_string(),
        attributes: n.attributes().map(|a| (a.name().to_string(), a.value().to_string())).collect(),
        text: n.text().map(|t| t.to_string()),
        parent: n.parent().map(|p| p.id().get_usize()),
        start: n.range().start,
        end: n.range().end,
    }).collect())
}

/// The nodes of `xml`, or none when it does not parse.
pub open spec fn doc_nodes(xml: Seq<char>) -> Seq<XmlNode> {
    match xml_document(xml) {
        Ok(nodes) => nodes,
        Err(_) => Seq::empty(),
    }
}

pub open spec fn opt_text_view(o: Option<String>) -> Option<Seq<char>> {
    match o {
        Some(s) => Some(s@),
        None => None,
    }
}

// ── Attributes ──────────────────────────────────────────────────────────────

/// The value of the first attribute named `name`.
pub open spec fn attr_of(attrs: Seq<(String, String)>, name: Seq<char>) -> Option<Seq<char>>
    decreases attrs.len(),
{
    if attrs.len() == 0 {
        None
    } else if attrs[0].0@ == name {
        Some(attrs[0].1@)
    } else {
        attr_of(attrs.drop_first(), name)
    }
}

/// `attr_of`, trimmed, and only when something is left (how metadata reads an
/// optional attribute).
pub open spec fn attr_trimmed(attrs: Seq<(String, String)>, name: Seq<char>) -> Option<Seq<char>> {
    match attr_of(attrs, name) {
        Some(v) => if trim(v).len() > 0 { Some(trim(v)) } else { None },
        None => None,
    }
}

/// The value of `n`'s attribute `name` (`Node::attribute`).
pub fn attribute(n: &XmlNode, name: &str) -> (r: Option<String>)
    ensures
        opt_text_view(r) == attr_of(n.attributes@, name@),
{
    let mut i: usize = 0;
    assert(n.attributes@.subrange(0, n.attributes@.len() as int) =~= n.attributes@);
    while i < n.attributes.len()
        invariant
            i <= n.attributes@.len(),
            attr_of(n.attributes@, name@) == attr_of(n.attributes@.subrange(i as int, n.attributes@.len() as int), name@),
        decreases n.attributes@.len() - i,
    {
        let ghost rest = n.attributes@.subrange(i as int, n.attributes@.len() as int);
        assert(rest.drop_first() =~= n.attributes@.subrange(i + 1, n.attributes@.len() as int));
        assert(rest[0] == n.attributes@[i as int]);
        if str_eq(n.attributes[i].0.as_str(), name) {
            return Some(n.attributes[i].1.clone());
        }
        i += 1;
    }
    None
}

/// `n`'s attribute `name`, trimmed, when that leaves something.
pub fn attribute_trimmed(n: &XmlNode, name: &str) -> (r: Option<String>)
    ensures
        opt_text_view(r) == attr_trimmed(n.attributes@, name@),
{
    match attribute(n, name) {
        Some(v) => {
            let t = trim_str(v.as_str());
            if !t.as_str().is_empty() { Some(t) } else { None }
        },
        None => None,
    }
}

// ── Children ────────────────────────────────────────────────────────────────

/// Node `j` is an element child of node `p`, named `tag` when a tag is given.
pub open spec fn is_child(nodes: Seq<XmlNode>, j: int, p: usize, tag: Option<Seq<char>>) -> bool {
    &&& nodes[j].parent == Some(p)
    &&& nodes[j].element
    &&& match tag {
        Some(t) => nodes[j].name@ == t,
        None => true,
    }
}

/// The first of the nodes before position `k` that is such a child.
pub open spec fn first_child_before(nodes: Seq<XmlNode>, p: usize, tag: Option<Seq<char>>, k: int) -> Option<int>
    decreases k,
{
    if k <= 0 {
        None
    } else {
        match first_child_before(nodes, p, tag, k - 1) {
            Some(j) => Some(j),
            None => if is_child(nodes, k - 1, p, tag) { Some(k - 1) } else { None },
        }
    }
}

/// The first element child of node `p` (named `tag`, when given).
pub open spec fn first_child(nodes: Seq<XmlNode>, p: usize, tag: Option<Seq<char>>) -> Option<int> {
    first_child_before(nodes, p, tag, nodes.len() as int)
}

/// The root element: the document node's element child.
pub open spec fn root_element(nodes: Seq<XmlNode>) -> Option<int> {
    first_child(nodes, 0, None)
}

proof fn lemma_first_child_stable(nodes: Seq<XmlNode>, p: usize, tag: Option<Seq<char>>, k1: int, k2: int)
    requires
        k1 <= k2,
        first_child_before(nodes, p, tag, k1) is Some,
    ensures
        first_child_before(nodes, p, tag, k2) == first_child_before(nodes, p, tag, k1),
    decreases k2 - k1,
{
    if k1 < k2 {
        lemma_first_child_stable(nodes, p, tag, k1, k2 - 1);
    }
}

proof fn lemma_first_child_bounds(nodes: Seq<XmlNode>, p: usize, tag: Option<Seq<char>>, k: int)
    ensures
        first_child_before(nodes, p, tag, k) matches Some(j) ==> 0 <= j < k && is_child(nodes, j, p, tag),
    decreases k,
{
    if k > 0 {
        lemma_first_child_bounds(nodes, p, tag, k - 1);
    }
}

/// Position of the first element child of node `p`, named `tag` when given.
pub fn find_child(nodes: &Vec<XmlNode>, p: usize, tag: Option<&str>) -> (r: Option<usize>)
    ensures
        match r {
            Some(j) => first_child(nodes@, p, opt_str(tag)) == Some(j as int) && j < nodes@.len(),
            None => first_child(nodes@, p, opt_str(tag)) is None,
        },
{
    let ghost t = opt_str(tag);
    let mut j: usize = 0;
    while j < nodes.len()
        invariant
            j <= nodes@.len(),
            t == opt_str(tag),
            first_child_before(nodes@, p, t, j as int) is None,
        decreases nodes@.len() - j,
    {
        let n = &nodes[j];
        let named = match tag {
            Some(name) => str_eq(n.name.as_str(), name),
            None => true,
        };
        if n.parent == Some(p) && n.element && named {
            assert(is_child(nodes@, j as int, p, t));
            proof { lemma_first_child_stable(nodes@, p, t, j + 1, nodes@.len() as int); }
            return Some(j);
        }
        assert(!is_child(nodes@, j as int, p, t));
        j += 1;
    }
    None
}

pub open spec fn opt_str(o: Option<&str>) -> Option<Seq<char>> {
    match o {
        Some(s) => Some(s@),
        None => None,
    }
}

/// Position of the root element.
pub fn find_root(nodes: &Vec<XmlNode>) -> (r: Option<usize>)
    ensures
        match r {
            Some(j) => root_element(nodes@) == Some(j as int) && j < nodes@.len(),
            None => root_element(nodes@) is None,
        },
{
    find_child(nodes, 0, None)
}

// ── Text ────────────────────────────────────────────────────────────────────

/// The text of an element's first child child named `tag`, when it has one.
pub open spec fn child_text(nodes: Seq<XmlNode>, p: usize, tag: Seq<char>) -> Option<Seq<char>> {
    match first_child(nodes, p, Some(tag)) {
        Some(j) => opt_text_view(nodes[j].text),
        None => None,
    }
}

/// The text of node `p`'s first child element named `tag`.
pub fn find_child_text(nodes: &Vec<XmlNode>, p: usize, tag: &str) -> (r: Option<String>)
    ensures
        opt_text_view(r) == child_text(nodes@, p, tag@),
{
    match find_child(nodes, p, Some(tag)) {
        Some(j) => nodes[j].text.clone(),
        None => None,
    }
}

/// Node `j` is node `c` or lies inside it.
pub open spec fn within(nodes: Seq<XmlNode>, j: int, c: int) -> bool
    decreases j,
{
    if j == c {
        true
    } else if 0 <= j < nodes.len() {
        match nodes[j].parent {
            Some(p) => if (p as int) < j { within(nodes, p as int, c) } else { false },
            None => false,
        }
    } else {
        false
    }
}

/// Is node `j` node `c` or inside it?
pub fn is_within(nodes: &Vec<XmlNode>, j: usize, c: usize) -> (r: bool)
    ensures
        r == within(nodes@, j as int, c as int),
{
    let mut cur = j;
    while cur != c
        invariant
            within(nodes@, j as int, c as int) == within(nodes@, cur as int, c as int),
        decreases cur,
    {
        if cur >= nodes.len() {
            return false;
        }
        match nodes[cur].parent {
            Some(p) => {
                if p < cur {
                    cur = p;
                } else {
                    return false;
                }
            },
            None => {
                return false;
            },
        }
    }
    true
}

pub open spec fn text_or_empty(n: XmlNode) -> Seq<char> {
    match n.text {
        Some(t) => t@,
        None => Seq::empty(),
    }
}

/// The texts of node `c` and every node inside it, among the first `k`
/// nodes, joined in document order (what `descendants().filter_map(text)`
/// collects).
pub open spec fn text_within(nodes: Seq<XmlNode>, c: int, k: int) -> Seq<char>
    decreases k,
{
    if k <= 0 {
        Seq::empty()
    } else {
        text_within(nodes, c, k - 1) + if within(nodes, k - 1, c) { text_or_empty(nodes[k - 1]) } else { Seq::empty() }
    }
}

/// All the text of node `c` and the nodes inside it.
pub fn collect_text(nodes: &Vec<XmlNode>, c: usize) -> (r: Vec<char>)
    ensures
        r@ == text_within(nodes@, c as int, nodes@.len() as int),
{
    let mut out: Vec<char> = Vec::new();
    let mut j: usize = 0;
    while j < nodes.len()
        invariant
            j <= nodes@.len(),
            out@ == text_within(nodes@, c as int, j as int),
        decreases nodes@.len() - j,
    {
        if is_within(nodes, j, c) {
            match &nodes[j].text {
                Some(t) => {
                    let ghost before = out@;
                    crate::text::push_str_chars(&mut out, t.as_str());
                    assert(out@ =~= before + t@);
                },
                None => {
                    assert(out@ =~= out@ + Seq::<char>::empty());
                },
            }
        } else {
            assert(out@ =~= out@ + Seq::<char>::empty());
        }
        j += 1;
    }
    out
}

/// The trimmed text of node `p`'s first child element named `tag`, when that
/// is not blank.
pub open spec fn child_trimmed(nodes: Seq<XmlNode>, p: usize, tag: Seq<char>) -> Option<Seq<char>> {
    match child_text(nodes, p, tag) {
        Some(t) => if trim(t).len() > 0 { Some(trim(t)) } else { None },
        None => None,
    }
}

/// [`child_trimmed`], computed.
pub fn find_child_trimmed(nodes: &Vec<XmlNode>, p: usize, tag: &str) -> (r: Option<String>)
    ensures
        opt_text_view(r) == child_trimmed(nodes@, p, tag@),
{
    match find_child_text(nodes, p, tag) {
        Some(t) => {
            let v = trim_str(t.as_str());
            if !v.as_str().is_empty() { Some(v) } else { None }
        },
        None => None,
    }
}

/// The trimmed text of node `p`'s first child named `tag`, read as an integer
/// in `lo..=hi` (`str::parse`).
pub open spec fn child_int(nodes: Seq<XmlNode>, p: usize, tag: Seq<char>, lo: int, hi: int) -> Option<int> {
    match child_text(nodes, p, tag) {
        Some(t) => spec_parse_in(trim(t), true, lo, hi),
        None => None,
    }
}

/// [`child_int`], computed (`|lo|, hi < 2^63`).
pub fn find_child_int(nodes: &Vec<XmlNode>, p: usize, tag: &str, lo: i64, hi: i64) -> (r: Option<i64>)
    requires
        lo <= 0 <= hi,
    ensures
        match r {
            Some(v) => child_int(nodes@, p, tag@, lo as int, hi as int) == Some(v as int),
            None => child_int(nodes@, p, tag@, lo as int, hi as int) is None,
        },
{
    match find_child_text(nodes, p, tag) {
        Some(t) => {
            let cs = chars_of(t.as_str());
            let v = trim_chars(&cs);
            parse_int_chars(&v, true, lo, hi)
        },
        None => None,
    }
}

/// An optional attribute, trimmed, read as an integer in `lo..=hi`; zero
/// when absent or not a number.
pub open spec fn attr_int_or_zero(attrs: Seq<(String, String)>, name: Seq<char>, lo: int, hi: int) -> int {
    match attr_of(attrs, name) {
        Some(v) => match spec_parse_in(trim(v), true, lo, hi) {
            Some(i) => i,
            None => 0,
        },
        None => 0,
    }
}

/// [`attr_int_or_zero`], computed.
pub fn attribute_int_or_zero(n: &XmlNode, name: &str, lo: i64, hi: i64) -> (r: i64)
    requires
        lo <= 0 <= hi,
    ensures
        r as int == attr_int_or_zero(n.attributes@, name@, lo as int, hi as int),
{
    match attribute(n, name) {
        Some(v) => {
            let cs = chars_of(v.as_str());
            let t = trim_chars(&cs);
            match parse_int_chars(&t, true, lo, hi) {
                Some(i) => i,
                None => 0,
            }
        },
        None => 0,
    }
}

/// The texts of the text nodes inside node `c` (or `c` itself), among the
/// first `k` nodes, joined in document order.
pub open spec fn text_nodes_within(nodes: Seq<XmlNode>, c: int, k: int) -> Seq<char>
    decreases k,
{
    if k <= 0 {
        Seq::empty()
    } else {
        text_nodes_within(nodes, c, k - 1) + if nodes[k - 1].text_node && within(nodes, k - 1, c) {
            text_or_empty(nodes[k - 1])
        } else {
            Seq::empty()
        }
    }
}

/// All the text-node text inside node `c`.
pub fn collect_text_nodes(nodes: &Vec<XmlNode>, c: usize) -> (r: Vec<char>)
    ensures
        r@ == text_nodes_within(nodes@, c as int, nodes@.len() as int),
{
    let mut out: Vec<char> = Vec::new();
    let mut j: usize = 0;
    while j < nodes.len()
        invariant
            j <= nodes@.len(),
            out@ == text_nodes_within(nodes@, c as int, j as int),
        decreases nodes@.len() - j,
    {
        if nodes[j].text_node && is_within(nodes, j, c) {
            match &nodes[j].text {
                Some(t) => {
                    let ghost before = out@;
                    crate::text::push_str_chars(&mut out, t.as_str());
                    assert(out@ =~= before + t@);
                },
                None => {
                    assert(out@ =~= out@ + Seq::<char>::empty());
                },
            }
        } else {
            assert(out@ =~= out@ + Seq::<char>::empty());
        }
        j += 1;
    }
    out
}

// ── Source ranges ───────────────────────────────────────────────────────────

/// The characters among the first `k` of `s` that lie wholly inside the byte
/// range `a..b` of its UTF-8 encoding.
pub open spec fn byte_slice_upto(s: Seq<char>, a: int, b: int, k: int) -> Seq<char>
    decreases k,
{
    if k <= 0 {
        Seq::empty()
    } else {
        byte_slice_upto(s, a, b, k - 1) + if a <= byte_len(s.take(k - 1)) && byte_len(s.take(k)) <= b {
            seq![s[k - 1]]
        } else {
            Seq::empty()
        }
    }
}

/// The text of `s` in its byte range `a..b` (`&s[a..b]` when both ends fall
/// on character boundaries).
pub open spec fn byte_slice(s: Seq<char>, a: int, b: int) -> Seq<char> {
    byte_slice_upto(s, a, b, s.len() as int)
}

/// The text of `s` in its byte range `a..b`.
pub fn slice_bytes(s: &str, a: usize, b: usize) -> (r: String)
    ensures
        r@ == byte_slice(s@, a as int, b as int),
{
    let cs = chars_of(s);
    let mut out: Vec<char> = Vec::new();
    let mut off: u128 = 0;
    let mut i: usize = 0;
    while i < cs.len()
        invariant
            i <= cs@.len(),
            cs@ == s@,
            off as int == byte_len(cs@.take(i as int)),
            off <= 4 * i,
            out@ == byte_slice_upto(cs@, a as int, b as int, i as int),
        decreases cs@.len() - i,
    {
        let c = cs[i];
        let w: u128 = if '\u{80}' > c { 1 } else if '\u{800}' > c { 2 } else if '\u{10000}' > c { 3 } else { 4 };
        proof {
            assert(cs@.take(i + 1).drop_last() =~= cs@.take(i as int));
            assert(cs@.take(i + 1).last() == c);
        }
        let next = off + w;
        if a as u128 <= off && next <= b as u128 {
            out.push(c);
        } else {
            assert(out@ =~= out@ + Seq::<char>::empty());
        }
        off = next;
        i += 1;
    }
    string_from_chars(&out)
}

} // verus!
