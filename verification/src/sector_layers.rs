//! The map layers of a sector: its subsectors, routes, borders and labels,
//! merged from the sector's own metadata file and the block the milieu's
//! region list holds for it. The file's entries come first; the region
//! list adds only what the file lacks.
use vstd::prelude::*;

use crate::astrometrics::Coord;
use crate::dto::{Route, Subsector, World, WorldLabel, SectorIndexEntry};
use crate::parse::WorldLabelDef;
use crate::astrometrics::{parse_hex, spec_parse_hex};
use crate::world_index::sector_fits;
use crate::metadata::{MetaBorder, MetaLabel, MetaRoute, MetaSubsector, SectorMetadata, MetaAllegiance, strings_view, opt_view};
use crate::styles::{key_pos, upsert, assigned, pairs_view, styles_of, upsert_exec, parse_border_styles_css};
use crate::world_util::{AllegianceCode, alleg_view, allegiance_name, allegiance_name_of};
use crate::text::str_eq;
use crate::sector_writer::{stable_order, keys_view, order_view, insert_stable_exec};
use crate::parse::{border_region, region_cols, sector_in_range};
use crate::endpoints::copy_opt;

verus! {

// ── Maps as pair lists ──────────────────────────────────────────────────────

/// The value of key `k`, if the map has it.
pub open spec fn lookup(m: Seq<(Seq<char>, Seq<char>)>, k: Seq<char>) -> Option<Seq<char>> {
    match key_pos(m, k, m.len() as int) {
        Some(i) => Some(m[i].1),
        None => None,
    }
}

/// Add each entry of `extra` whose key the map lacks (the first such entry
/// for a key wins).
pub open spec fn or_insert_all(base: Seq<(Seq<char>, Seq<char>)>, extra: Seq<(Seq<char>, Seq<char>)>)
    -> Seq<(Seq<char>, Seq<char>)>
    decreases extra.len(),
{
    if extra.len() == 0 {
        base
    } else {
        let m = or_insert_all(base, extra.drop_last());
        if key_pos(m, extra.last().0, m.len() as int) is Some { m } else { m.push(extra.last()) }
    }
}

proof fn lemma_key_pos_found(m: Seq<(Seq<char>, Seq<char>)>, k: Seq<char>, n1: int, n2: int)
    requires
        0 <= n1 <= n2,
        key_pos(m, k, n1) is Some,
    ensures
        key_pos(m, k, n2) == key_pos(m, k, n1),
    decreases n2 - n1,
{
    if n1 < n2 {
        lemma_key_pos_found(m, k, n1, n2 - 1);
    }
}

proof fn lemma_key_pos_in(m: Seq<(Seq<char>, Seq<char>)>, k: Seq<char>, n: int)
    requires
        0 <= n,
    ensures
        key_pos(m, k, n) matches Some(i) ==> 0 <= i < n && m[i].0 == k,
    decreases n,
{
    if n > 0 {
        lemma_key_pos_in(m, k, n - 1);
    }
}

fn key_index(m: &Vec<(String, String)>, k: &str) -> (r: Option<usize>)
    ensures
        match r {
            Some(i) => key_pos(pairs_view(m@), k@, m@.len() as int) == Some(i as int) && i < m@.len(),
            None => key_pos(pairs_view(m@), k@, m@.len() as int) is None,
        },
{
    let ghost mv = pairs_view(m@);
    let mut i: usize = 0;
    while i < m.len()
        invariant
            i <= m@.len(),
            mv == pairs_view(m@),
            key_pos(mv, k@, i as int) is None,
        decreases m@.len() - i,
    {
        if str_eq(m[i].0.as_str(), k) {
            proof {
                assert(key_pos(mv, k@, i + 1) == Some(i as int));
                lemma_key_pos_found(mv, k@, i + 1, mv.len() as int);
            }
            return Some(i);
        }
        i += 1;
    }
    None
}

fn lookup_exec(m: &Vec<(String, String)>, k: &str) -> (r: Option<String>)
    ensures
        crate::parse::opt_string_view(r) == lookup(pairs_view(m@), k@),
{
    match key_index(m, k) {
        Some(i) => Some(m[i].1.clone()),
        None => None,
    }
}

fn or_insert_exec(m: &mut Vec<(String, String)>, extra: &Vec<(String, String)>)
    ensures
        pairs_view(final(m)@) == or_insert_all(pairs_view(old(m)@), pairs_view(extra@)),
{
    let ghost base = pairs_view(m@);
    let ghost ev = pairs_view(extra@);
    let mut i: usize = 0;
    while i < extra.len()
        invariant
            i <= extra@.len(),
            ev == pairs_view(extra@),
            pairs_view(m@) == or_insert_all(base, ev.take(i as int)),
        decreases extra@.len() - i,
    {
        assert(ev.take(i + 1).drop_last() =~= ev.take(i as int));
        assert(ev.take(i + 1).last() == (extra@[i as int].0@, extra@[i as int].1@));
        let ghost before = pairs_view(m@);
        if key_index(m, extra[i].0.as_str()).is_none() {
            m.push((extra[i].0.clone(), extra[i].1.clone()));
            assert(pairs_view(m@) =~= before.push((extra@[i as int].0@, extra@[i as int].1@)));
        }
        i += 1;
    }
    assert(ev.take(ev.len() as int) =~= ev);
}

/// The sector's own allegiance names as `(code, name)`.
pub open spec fn local_names(local: Seq<MetaAllegiance>) -> Seq<(Seq<char>, Seq<char>)> {
    local.map_values(|a: MetaAllegiance| (a.code@, a.name@))
}

fn local_name_pairs(local: &Vec<MetaAllegiance>) -> (r: Vec<(String, String)>)
    ensures
        pairs_view(r@) == local_names(local@),
{
    let mut out: Vec<(String, String)> = Vec::new();
    let mut i: usize = 0;
    while i < local.len()
        invariant
            i <= local@.len(),
            pairs_view(out@) == local_names(local@.take(i as int)),
        decreases local@.len() - i,
    {
        let ghost before = pairs_view(out@);
        out.push((local[i].code.clone(), local[i].name.clone()));
        assert(pairs_view(out@) =~= before.push((local@[i as int].code@, local@[i as int].name@)));
        assert(local_names(local@.take(i + 1)) =~= local_names(local@.take(i as int)).push((local@[i as int].code@, local@[i as int].name@)));
        i += 1;
    }
    assert(local@.take(local@.len() as int) =~= local@);
    out
}

fn assign_all(pairs: &Vec<(String, String)>) -> (r: Vec<(String, String)>)
    ensures
        pairs_view(r@) == assigned(pairs_view(pairs@)),
{
    let ghost pv = pairs_view(pairs@);
    let mut out: Vec<(String, String)> = Vec::new();
    let mut j: usize = 0;
    while j < pairs.len()
        invariant
            j <= pairs@.len(),
            pv == pairs_view(pairs@),
            pairs_view(out@) == assigned(pv.take(j as int)),
        decreases pairs@.len() - j,
    {
        assert(pv.take(j + 1).drop_last() =~= pv.take(j as int));
        assert(pv.take(j + 1).last() == (pairs@[j as int].0@, pairs@[j as int].1@));
        upsert_exec(&mut out, &pairs[j].0, &pairs[j].1);
        j += 1;
    }
    assert(pv.take(pv.len() as int) =~= pv);
    out
}

/// The allegiance names a sector's borders are labelled with: the file's
/// `<Allegiance>` entries (a later one for a code replacing an earlier
/// one), then the region list's for codes the file lacks.
pub open spec fn merged_names(meta: SectorMetadata, inline: SectorMetadata) -> Seq<(Seq<char>, Seq<char>)> {
    or_insert_all(assigned(local_names(meta.local_allegiances@)), local_names(inline.local_allegiances@))
}

/// The border colours: the file's stylesheet, then the region list's for
/// allegiances the file does not colour.
pub open spec fn merged_styles(meta: SectorMetadata, inline: SectorMetadata) -> Seq<(Seq<char>, Seq<char>)> {
    let base = match meta.stylesheet { Some(css) => styles_of(css@), None => Seq::empty() };
    match inline.stylesheet {
        Some(css) => or_insert_all(base, styles_of(css@)),
        None => base,
    }
}

// ── Subsectors, routes, labels ──────────────────────────────────────────────

pub open spec fn subsector_of(s: MetaSubsector) -> (Seq<char>, Seq<char>) {
    (s.index@, s.name@)
}

/// The file's subsectors, else the region list's.
pub open spec fn merged_subsectors(meta: SectorMetadata, inline: SectorMetadata) -> Seq<(Seq<char>, Seq<char>)> {
    if meta.subsectors@.len() > 0 {
        meta.subsectors@.map_values(|s: MetaSubsector| subsector_of(s))
    } else {
        inline.subsectors@.map_values(|s: MetaSubsector| subsector_of(s))
    }
}

pub open spec fn subsectors_view(v: Seq<Subsector>) -> Seq<(Seq<char>, Seq<char>)> {
    v.map_values(|s: Subsector| (s.index@, s.name@))
}

fn render_subsectors(subs: &Vec<MetaSubsector>) -> (r: Vec<Subsector>)
    ensures
        subsectors_view(r@) == subs@.map_values(|s: MetaSubsector| subsector_of(s)),
{
    let mut out: Vec<Subsector> = Vec::new();
    let mut i: usize = 0;
    while i < subs.len()
        invariant
            i <= subs@.len(),
            subsectors_view(out@) == subs@.take(i as int).map_values(|s: MetaSubsector| subsector_of(s)),
        decreases subs@.len() - i,
    {
        let ghost before = subsectors_view(out@);
        out.push(Subsector { index: subs[i].index.clone(), name: subs[i].name.clone() });
        assert(subsectors_view(out@) =~= before.push(subsector_of(subs@[i as int])));
        assert(subs@.take(i + 1).map_values(|s: MetaSubsector| subsector_of(s))
            =~= subs@.take(i as int).map_values(|s: MetaSubsector| subsector_of(s)).push(subsector_of(subs@[i as int])));
        i += 1;
    }
    assert(subs@.take(subs@.len() as int) =~= subs@);
    out
}

/// A route as drawn.
pub open spec fn rendered_route(r: MetaRoute) -> Route {
    Route {
        start: r.start,
        end: r.end,
        start_offset: (r.start_offset_x, r.start_offset_y),
        end_offset: (r.end_offset_x, r.end_offset_y),
        allegiance: r.allegiance,
        color: r.color,
    }
}

/// Two routes join the same ends with the same offsets.
pub open spec fn same_route(a: Route, b: Route) -> bool {
    a.start@ == b.start@ && a.end@ == b.end@ && a.start_offset == b.start_offset && a.end_offset == b.end_offset
}

pub open spec fn has_route(m: Seq<Route>, r: Route) -> bool {
    exists|i: int| 0 <= i < m.len() && same_route(#[trigger] m[i], r)
}

/// `base`, then each route of `extra` that joins ends not joined so far.
pub open spec fn merge_routes(base: Seq<Route>, extra: Seq<Route>) -> Seq<Route>
    decreases extra.len(),
{
    if extra.len() == 0 {
        base
    } else {
        let m = merge_routes(base, extra.drop_last());
        if has_route(m, extra.last()) { m } else { m.push(extra.last()) }
    }
}

/// The routes: the file's, then the region list's new ones.
pub open spec fn merged_routes(meta: SectorMetadata, inline: SectorMetadata) -> Seq<Route> {
    merge_routes(meta.routes@.map_values(|r: MetaRoute| rendered_route(r)),
        inline.routes@.map_values(|r: MetaRoute| rendered_route(r)))
}

fn render_route(r: &MetaRoute) -> (o: Route)
    ensures
        o == rendered_route(*r),
{
    Route {
        start: r.start.clone(),
        end: r.end.clone(),
        start_offset: (r.start_offset_x, r.start_offset_y),
        end_offset: (r.end_offset_x, r.end_offset_y),
        allegiance: copy_opt(&r.allegiance),
        color: copy_opt(&r.color),
    }
}

fn has_route_exec(m: &Vec<Route>, r: &Route) -> (b: bool)
    ensures
        b == has_route(m@, *r),
{
    let mut i: usize = 0;
    while i < m.len()
        invariant
            i <= m@.len(),
            forall|j: int| 0 <= j < i ==> !same_route(#[trigger] m@[j], *r),
        decreases m@.len() - i,
    {
        if str_eq(m[i].start.as_str(), r.start.as_str()) && str_eq(m[i].end.as_str(), r.end.as_str())
            && m[i].start_offset.0 == r.start_offset.0 && m[i].start_offset.1 == r.start_offset.1
            && m[i].end_offset.0 == r.end_offset.0 && m[i].end_offset.1 == r.end_offset.1 {
            assert(same_route(m@[i as int], *r));
            return true;
        }
        i += 1;
    }
    false
}

fn merge_route_lists(meta: &Vec<MetaRoute>, inline: &Vec<MetaRoute>) -> (r: Vec<Route>)
    ensures
        r@ == merge_routes(meta@.map_values(|x: MetaRoute| rendered_route(x)), inline@.map_values(|x: MetaRoute| rendered_route(x))),
{
    let ghost base = meta@.map_values(|x: MetaRoute| rendered_route(x));
    let ghost extra = inline@.map_values(|x: MetaRoute| rendered_route(x));
    let mut out: Vec<Route> = Vec::new();
    let mut i: usize = 0;
    while i < meta.len()
        invariant
            i <= meta@.len(),
            base == meta@.map_values(|x: MetaRoute| rendered_route(x)),
            out@ == base.take(i as int),
        decreases meta@.len() - i,
    {
        out.push(render_route(&meta[i]));
        assert(out@ =~= base.take(i + 1));
        i += 1;
    }
    assert(base.take(base.len() as int) =~= base);
    let mut j: usize = 0;
    while j < inline.len()
        invariant
            j <= inline@.len(),
            extra == inline@.map_values(|x: MetaRoute| rendered_route(x)),
            out@ == merge_routes(base, extra.take(j as int)),
        decreases inline@.len() - j,
    {
        assert(extra.take(j + 1).drop_last() =~= extra.take(j as int));
        let r = render_route(&inline[j]);
        assert(extra.take(j + 1).last() == r);
        if !has_route_exec(&out, &r) {
            out.push(r);
        }
        j += 1;
    }
    assert(extra.take(extra.len() as int) =~= extra);
    out
}

/// Two labels have the same text at the same hex.
pub open spec fn same_label(a: MetaLabel, b: MetaLabel) -> bool {
    a.text@ == b.text@ && a.hex@ == b.hex@
}

pub open spec fn has_label(m: Seq<MetaLabel>, l: MetaLabel) -> bool {
    exists|i: int| 0 <= i < m.len() && same_label(#[trigger] m[i], l)
}

/// `base`, then each label of `extra` with a new text and hex.
pub open spec fn merge_labels(base: Seq<MetaLabel>, extra: Seq<MetaLabel>) -> Seq<MetaLabel>
    decreases extra.len(),
{
    if extra.len() == 0 {
        base
    } else {
        let m = merge_labels(base, extra.drop_last());
        if has_label(m, extra.last()) { m } else { m.push(extra.last()) }
    }
}

fn copy_label(l: &MetaLabel) -> (r: MetaLabel)
    ensures
        r == *l,
{
    MetaLabel {
        hex: l.hex.clone(),
        allegiance: copy_opt(&l.allegiance),
        color: copy_opt(&l.color),
        size: copy_opt(&l.size),
        wrap: l.wrap,
        offset_x: copy_opt(&l.offset_x),
        offset_y: copy_opt(&l.offset_y),
        text: l.text.clone(),
    }
}

fn has_label_exec(m: &Vec<MetaLabel>, l: &MetaLabel) -> (b: bool)
    ensures
        b == has_label(m@, *l),
{
    let mut i: usize = 0;
    while i < m.len()
        invariant
            i <= m@.len(),
            forall|j: int| 0 <= j < i ==> !same_label(#[trigger] m@[j], *l),
        decreases m@.len() - i,
    {
        if str_eq(m[i].text.as_str(), l.text.as_str()) && str_eq(m[i].hex.as_str(), l.hex.as_str()) {
            assert(same_label(m@[i as int], *l));
            return true;
        }
        i += 1;
    }
    false
}

fn merge_label_lists(meta: &Vec<MetaLabel>, inline: &Vec<MetaLabel>) -> (r: Vec<MetaLabel>)
    ensures
        r@ == merge_labels(meta@, inline@),
{
    let mut out: Vec<MetaLabel> = Vec::new();
    let mut i: usize = 0;
    while i < meta.len()
        invariant
            i <= meta@.len(),
            out@ == meta@.take(i as int),
        decreases meta@.len() - i,
    {
        out.push(copy_label(&meta[i]));
        assert(out@ =~= meta@.take(i + 1));
        i += 1;
    }
    assert(meta@.take(meta@.len() as int) =~= meta@);
    let mut j: usize = 0;
    while j < inline.len()
        invariant
            j <= inline@.len(),
            out@ == merge_labels(meta@, inline@.take(j as int)),
        decreases inline@.len() - j,
    {
        assert(inline@.take(j + 1).drop_last() =~= inline@.take(j as int));
        let l = copy_label(&inline[j]);
        if !has_label_exec(&out, &l) {
            out.push(l);
        }
        j += 1;
    }
    assert(inline@.take(inline@.len() as int) =~= inline@);
    out
}

// ── Borders ─────────────────────────────────────────────────────────────────

/// A border or region as the map draws it; label offsets kept as written.
#[derive(Debug)]
pub struct LayerBorder {
    /// The allegiance code (empty when none).
    pub allegiance: String,
    /// The 4-digit hex labels of the path.
    pub hexes: Vec<String>,
    /// Every hex inside the border, absolute `(column, row)`; empty when the
    /// sector's position is unknown.
    pub region: Vec<(i32, i32)>,
    pub color: Option<String>,
    pub label: Option<String>,
    pub label_position: Option<String>,
    pub wrap_label: bool,
    pub label_offset_x: Option<String>,
    pub label_offset_y: Option<String>,
}

/// A border's allegiance code, empty when it has none.
pub open spec fn border_alleg(b: MetaBorder) -> Seq<char> {
    match b.allegiance {
        Some(a) => a@,
        None => Seq::empty(),
    }
}

/// The ordering keys of borders: their position in the document.
pub open spec fn border_keys(bs: Seq<MetaBorder>) -> Seq<(int, int, int)> {
    bs.map_values(|b: MetaBorder| (b.seq as int, 0int, 0int))
}

/// A document's borders and regions in document order: a stable sort of
/// borders-then-regions by position.
pub open spec fn ordered_borders(m: SectorMetadata) -> Seq<MetaBorder> {
    let all = m.borders@ + m.regions@;
    let order = stable_order(border_keys(all), all.len() as int);
    Seq::new(order.len(), |k: int| all[order[k]])
}

/// Two borders have the same allegiance and path.
pub open spec fn same_border(a: MetaBorder, b: MetaBorder) -> bool {
    border_alleg(a) == border_alleg(b) && strings_view(a.hexes@) == strings_view(b.hexes@)
}

pub open spec fn has_border(m: Seq<MetaBorder>, b: MetaBorder) -> bool {
    exists|i: int| 0 <= i < m.len() && same_border(#[trigger] m[i], b)
}

/// `base`, then each border of `extra` with a new allegiance and path.
pub open spec fn merge_borders(base: Seq<MetaBorder>, extra: Seq<MetaBorder>) -> Seq<MetaBorder>
    decreases extra.len(),
{
    if extra.len() == 0 {
        base
    } else {
        let m = merge_borders(base, extra.drop_last());
        if has_border(m, extra.last()) { m } else { m.push(extra.last()) }
    }
}

/// The borders drawn: the file's in document order, then the region list's
/// new ones.
pub open spec fn merged_borders(meta: SectorMetadata, inline: SectorMetadata) -> Seq<MetaBorder> {
    merge_borders(ordered_borders(meta), ordered_borders(inline))
}

pub open spec fn region_view(v: Seq<(i32, i32)>) -> Seq<(int, int)> {
    v.map_values(|p: (i32, i32)| (p.0 as int, p.1 as int))
}

/// `lb` is border `b` as drawn: a hidden label drops its text and position;
/// the region is filled in when the sector's position is known; a border
/// without its own colour takes its allegiance's from the stylesheet; a
/// placed label without text takes the allegiance's name (the sector's own
/// names first, then the allegiance table).
pub open spec fn finished(lb: LayerBorder, b: MetaBorder, loc: Option<Coord>, styles: Seq<(Seq<char>, Seq<char>)>,
    names: Seq<(Seq<char>, Seq<char>)>, rows: Seq<(Seq<char>, Seq<char>, Seq<char>)>) -> bool
{
    let alleg = border_alleg(b);
    let pos = if b.show_label { opt_view(b.label_position) } else { None };
    let given = if b.show_label { opt_view(b.label) } else { None };
    &&& lb.allegiance@ == alleg
    &&& strings_view(lb.hexes@) == strings_view(b.hexes@)
    &&& region_view(lb.region@) == (match loc {
        Some(c) => region_cols(strings_view(b.hexes@), c.x as int, c.y as int, 32),
        None => Seq::empty(),
    })
    &&& opt_view(lb.color) == (match opt_view(b.color) {
        Some(c) => Some(c),
        None => lookup(styles, alleg),
    })
    &&& opt_view(lb.label_position) == pos
    &&& opt_view(lb.label) == (if given is None && pos is Some && alleg.len() > 0 {
        match lookup(names, alleg) {
            Some(n) => Some(n),
            None => allegiance_name_of(rows, alleg),
        }
    } else {
        given
    })
    &&& lb.wrap_label == b.wrap_label
    &&& opt_view(lb.label_offset_x) == opt_view(b.label_offset_x)
    &&& opt_view(lb.label_offset_y) == opt_view(b.label_offset_y)
}

fn copy_strings(v: &Vec<String>) -> (r: Vec<String>)
    ensures
        strings_view(r@) == strings_view(v@),
{
    let mut out: Vec<String> = Vec::new();
    let mut i: usize = 0;
    while i < v.len()
        invariant
            i <= v@.len(),
            strings_view(out@) == strings_view(v@.take(i as int)),
        decreases v@.len() - i,
    {
        let ghost before = strings_view(out@);
        out.push(v[i].clone());
        assert(strings_view(out@) =~= before.push(v@[i as int]@));
        assert(strings_view(v@.take(i + 1)) =~= strings_view(v@.take(i as int)).push(v@[i as int]@));
        i += 1;
    }
    assert(v@.take(v@.len() as int) =~= v@);
    out
}

fn strings_equal(a: &Vec<String>, b: &Vec<String>) -> (r: bool)
    ensures
        r == (strings_view(a@) == strings_view(b@)),
{
    if a.len() != b.len() {
        assert(strings_view(a@).len() != strings_view(b@).len());
        return false;
    }
    let mut i: usize = 0;
    while i < a.len()
        invariant
            i <= a@.len(),
            a@.len() == b@.len(),
            forall|j: int| 0 <= j < i ==> (#[trigger] a@[j])@ == b@[j]@,
        decreases a@.len() - i,
    {
        if !str_eq(a[i].as_str(), b[i].as_str()) {
            assert(strings_view(a@)[i as int] != strings_view(b@)[i as int]);
            return false;
        }
        i += 1;
    }
    assert(strings_view(a@) =~= strings_view(b@));
    true
}

fn alleg_text(b: &MetaBorder) -> (r: String)
    ensures
        r@ == border_alleg(*b),
{
    match &b.allegiance {
        Some(a) => a.clone(),
        None => String::new(),
    }
}

fn same_border_exec(a: &MetaBorder, b: &MetaBorder) -> (r: bool)
    ensures
        r == same_border(*a, *b),
{
    let x = alleg_text(a);
    let y = alleg_text(b);
    str_eq(x.as_str(), y.as_str()) && strings_equal(&a.hexes, &b.hexes)
}

/// The border at position `k` of the document's borders-then-regions.
fn border_at(m: &SectorMetadata, k: usize) -> (b: &MetaBorder)
    requires
        k < m.borders@.len() + m.regions@.len(),
    ensures
        *b == (m.borders@ + m.regions@)[k as int],
{
    if k < m.borders.len() { &m.borders[k] } else { &m.regions[k - m.borders.len()] }
}

/// The positions of a document's borders-then-regions in document order.
fn border_order(m: &SectorMetadata) -> (r: Vec<usize>)
    requires
        m.borders@.len() + m.regions@.len() <= usize::MAX,
    ensures
        order_view(r@) == stable_order(border_keys(m.borders@ + m.regions@), (m.borders@.len() + m.regions@.len()) as int),
        forall|k: int| 0 <= k < r@.len() ==> #[trigger] r@[k] < m.borders@.len() + m.regions@.len(),
{
    let ghost all = m.borders@ + m.regions@;
    let n = m.borders.len() + m.regions.len();
    let mut keys: Vec<(usize, i32, i32)> = Vec::new();
    let mut i: usize = 0;
    while i < n
        invariant
            i <= n,
            n == all.len(),
            all == m.borders@ + m.regions@,
            keys_view(keys@) == border_keys(all.take(i as int)),
        decreases n - i,
    {
        let b = border_at(m, i);
        let ghost before = keys_view(keys@);
        keys.push((b.seq, 0, 0));
        assert(keys_view(keys@) =~= before.push((all[i as int].seq as int, 0int, 0int)));
        assert(border_keys(all.take(i + 1)) =~= border_keys(all.take(i as int)).push((all[i as int].seq as int, 0int, 0int)));
        i += 1;
    }
    assert(all.take(all.len() as int) =~= all);
    let mut order: Vec<usize> = Vec::new();
    let mut k: usize = 0;
    assert(order_view(order@) =~= Seq::<int>::empty());
    while k < n
        invariant
            k <= n,
            n == all.len(),
            keys@.len() == n,
            keys_view(keys@) == border_keys(all),
            order_view(order@) == stable_order(border_keys(all), k as int),
            forall|j: int| 0 <= j < order@.len() ==> #[trigger] order@[j] < keys@.len(),
        decreases n - k,
    {
        order = insert_stable_exec(&order, &keys, k);
        k += 1;
    }
    order
}

/// One finished border.
fn finish_border(b: &MetaBorder, location: Option<Coord>, styles: &Vec<(String, String)>, names: &Vec<(String, String)>,
    table: &Vec<AllegianceCode>) -> (lb: LayerBorder)
    requires
        location matches Some(c) ==> sector_in_range(c.x as int, c.y as int),
    ensures
        finished(lb, *b, location, pairs_view(styles@), pairs_view(names@), table@.map_values(|a: AllegianceCode| alleg_view(a))),
{
    let alleg = alleg_text(b);
    let region = match location {
        Some(c) => border_region(&b.hexes, c.x, c.y),
        None => Vec::new(),
    };
    assert(region_view(region@) == (match location {
        Some(c) => region_cols(strings_view(b.hexes@), c.x as int, c.y as int, 32),
        None => Seq::<(int, int)>::empty(),
    })) by {
        if location is None {
            assert(region_view(region@) =~= Seq::<(int, int)>::empty());
        } else {
            assert(region_view(region@) =~= region@.map_values(|v: (i32, i32)| (v.0 as int, v.1 as int)));
        }
    }
    let color = match &b.color {
        Some(c) => Some(c.clone()),
        None => lookup_exec(styles, alleg.as_str()),
    };
    let label_position = if b.show_label { copy_opt(&b.label_position) } else { None };
    let given = if b.show_label { copy_opt(&b.label) } else { None };
    let label = if given.is_none() && label_position.is_some() && !alleg.as_str().is_empty() {
        match lookup_exec(names, alleg.as_str()) {
            Some(n) => Some(n),
            None => allegiance_name(table, alleg.as_str()),
        }
    } else {
        given
    };
    LayerBorder {
        allegiance: alleg,
        hexes: copy_strings(&b.hexes),
        region,
        color,
        label,
        label_position,
        wrap_label: b.wrap_label,
        label_offset_x: copy_opt(&b.label_offset_x),
        label_offset_y: copy_opt(&b.label_offset_y),
    }
}

// ── The layers ──────────────────────────────────────────────────────────────

/// What the map draws of a sector besides its worlds.
#[derive(Debug)]
pub struct SectorLayers {
    pub subsectors: Vec<Subsector>,
    pub routes: Vec<Route>,
    pub borders: Vec<LayerBorder>,
    pub labels: Vec<MetaLabel>,
    /// Review tags: the file's, else the region list's.
    pub tags: String,
    /// Data-source credit: the file's, else the region list's.
    pub credits: Option<String>,
}

/// Merge a sector's layers from its metadata file (`meta`) and its block in
/// the milieu's region list (`inline`). `location` is the sector's grid
/// position when the index knows it, and `table` the allegiance table.
pub fn sector_layers(meta: &SectorMetadata, inline: &SectorMetadata, location: Option<Coord>, table: &Vec<AllegianceCode>)
    -> (r: SectorLayers)
    requires
        location matches Some(c) ==> sector_in_range(c.x as int, c.y as int),
        meta.borders@.len() + meta.regions@.len() <= usize::MAX,
        inline.borders@.len() + inline.regions@.len() <= usize::MAX,
    ensures
        subsectors_view(r.subsectors@) == merged_subsectors(*meta, *inline),
        r.routes@ == merged_routes(*meta, *inline),
        r.labels@ == merge_labels(meta.labels@, inline.labels@),
        r.tags@ == (if meta.tags@.len() > 0 { meta.tags@ } else { inline.tags@ }),
        opt_view(r.credits) == (match meta.credits_text {
            Some(c) => Some(c@),
            None => opt_view(inline.credits_text),
        }),
        r.borders@.len() == merged_borders(*meta, *inline).len(),
        forall|k: int| 0 <= k < r.borders@.len() ==> finished(#[trigger] r.borders@[k], merged_borders(*meta, *inline)[k],
            location, merged_styles(*meta, *inline), merged_names(*meta, *inline),
            table@.map_values(|a: AllegianceCode| alleg_view(a))),
{
    let subsectors = if meta.subsectors.len() > 0 {
        render_subsectors(&meta.subsectors)
    } else {
        render_subsectors(&inline.subsectors)
    };
    let routes = merge_route_lists(&meta.routes, &inline.routes);
    let labels = merge_label_lists(&meta.labels, &inline.labels);

    // Colours and names.
    let mut styles: Vec<(String, String)> = match &meta.stylesheet {
        Some(css) => parse_border_styles_css(css.as_str()),
        None => Vec::new(),
    };
    assert(pairs_view(styles@) == match meta.stylesheet { Some(css) => styles_of(css@), None => Seq::<(Seq<char>, Seq<char>)>::empty() });
    if let Some(css) = &inline.stylesheet {
        let extra = parse_border_styles_css(css.as_str());
        or_insert_exec(&mut styles, &extra);
    }
    let mut names = assign_all(&local_name_pairs(&meta.local_allegiances));
    let extra_names = local_name_pairs(&inline.local_allegiances);
    or_insert_exec(&mut names, &extra_names);

    // Borders: the file's in document order, then the region list's new ones.
    let ghost ordered_meta = ordered_borders(*meta);
    let ghost ordered_inline = ordered_borders(*inline);
    let ghost merged = merged_borders(*meta, *inline);
    let ghost rows = table@.map_values(|a: AllegianceCode| alleg_view(a));
    let mo = border_order(meta);
    let io = border_order(inline);
    let ghost all_m = meta.borders@ + meta.regions@;
    let ghost all_i = inline.borders@ + inline.regions@;
    // The chosen borders as (from the region list, position).
    let mut chosen: Vec<(bool, usize)> = Vec::new();
    let mut k: usize = 0;
    while k < mo.len()
        invariant
            k <= mo@.len(),
            all_m == meta.borders@ + meta.regions@,
            ordered_meta == ordered_borders(*meta),
            order_view(mo@) == stable_order(border_keys(all_m), all_m.len() as int),
            forall|j: int| 0 <= j < mo@.len() ==> #[trigger] mo@[j] < all_m.len(),
            chosen@.len() == k,
            forall|j: int| 0 <= j < k ==> (#[trigger] chosen@[j]).0 == false && chosen@[j].1 == mo@[j],
        decreases mo@.len() - k,
    {
        chosen.push((false, mo[k]));
        k += 1;
    }
    proof {
        assert(ordered_meta.len() == mo@.len());
    }
    let mut k: usize = 0;
    while k < io.len()
        invariant
            k <= io@.len(),
            all_m == meta.borders@ + meta.regions@,
            all_i == inline.borders@ + inline.regions@,
            ordered_meta == ordered_borders(*meta),
            ordered_inline == ordered_borders(*inline),
            order_view(mo@) == stable_order(border_keys(all_m), all_m.len() as int),
            order_view(io@) == stable_order(border_keys(all_i), all_i.len() as int),
            forall|j: int| 0 <= j < mo@.len() ==> #[trigger] mo@[j] < all_m.len(),
            forall|j: int| 0 <= j < io@.len() ==> #[trigger] io@[j] < all_i.len(),
            forall|j: int| 0 <= j < chosen@.len() ==> (#[trigger] chosen@[j]).1 < (if chosen@[j].0 { all_i.len() } else { all_m.len() }),
            Seq::new(chosen@.len(), |j: int| if chosen@[j].0 { all_i[chosen@[j].1 as int] } else { all_m[chosen@[j].1 as int] })
                == merge_borders(ordered_meta, ordered_inline.take(k as int)),
        decreases io@.len() - k,
    {
        let ghost cur = Seq::new(chosen@.len(), |j: int| if chosen@[j].0 { all_i[chosen@[j].1 as int] } else { all_m[chosen@[j].1 as int] });
        assert(ordered_inline.take(k + 1).drop_last() =~= ordered_inline.take(k as int));
        let b = border_at(inline, io[k]);
        assert(ordered_inline.take(k + 1).last() == *b);
        let mut seen = false;
        let mut j: usize = 0;
        while j < chosen.len()
            invariant
                j <= chosen@.len(),
                all_m == meta.borders@ + meta.regions@,
                all_i == inline.borders@ + inline.regions@,
                forall|x: int| 0 <= x < chosen@.len() ==> (#[trigger] chosen@[x]).1 < (if chosen@[x].0 { all_i.len() } else { all_m.len() }),
                cur == Seq::new(chosen@.len(), |x: int| if chosen@[x].0 { all_i[chosen@[x].1 as int] } else { all_m[chosen@[x].1 as int] }),
                !seen ==> forall|x: int| 0 <= x < j ==> !same_border(#[trigger] cur[x], *b),
                seen ==> has_border(cur, *b),
            decreases chosen@.len() - j,
        {
            let (from_inline, p) = chosen[j];
            let c = if from_inline { border_at(inline, p) } else { border_at(meta, p) };
            assert(*c == cur[j as int]);
            if same_border_exec(c, b) {
                seen = true;
                assert(same_border(cur[j as int], *b));
            }
            j += 1;
        }
        if !seen {
            chosen.push((true, io[k]));
            assert(Seq::new(chosen@.len(), |x: int| if chosen@[x].0 { all_i[chosen@[x].1 as int] } else { all_m[chosen@[x].1 as int] })
                =~= cur.push(*b));
        }
        k += 1;
    }
    proof {
        assert(ordered_inline.take(ordered_inline.len() as int) =~= ordered_inline);
    }
    let mut borders: Vec<LayerBorder> = Vec::new();
    let mut k: usize = 0;
    while k < chosen.len()
        invariant
            k <= chosen@.len(),
            all_m == meta.borders@ + meta.regions@,
            all_i == inline.borders@ + inline.regions@,
            location matches Some(c) ==> sector_in_range(c.x as int, c.y as int),
            rows == table@.map_values(|a: AllegianceCode| alleg_view(a)),
            forall|j: int| 0 <= j < chosen@.len() ==> (#[trigger] chosen@[j]).1 < (if chosen@[j].0 { all_i.len() } else { all_m.len() }),
            borders@.len() == k,
            forall|j: int| 0 <= j < k ==> finished(#[trigger] borders@[j],
                if chosen@[j].0 { all_i[chosen@[j].1 as int] } else { all_m[chosen@[j].1 as int] },
                location, pairs_view(styles@), pairs_view(names@), rows),
        decreases chosen@.len() - k,
    {
        let (from_inline, p) = chosen[k];
        let b = if from_inline { border_at(inline, p) } else { border_at(meta, p) };
        borders.push(finish_border(b, location, &styles, &names, table));
        k += 1;
    }
    let tags = if meta.tags.as_str().is_empty() { inline.tags.clone() } else { meta.tags.clone() };
    let credits = match &meta.credits_text {
        Some(c) => Some(c.clone()),
        None => copy_opt(&inline.credits_text),
    };
    SectorLayers { subsectors, routes, borders, labels, tags, credits }
}

/// The lower-detail form of a world for the overview: stellar data, the
/// importance, economic and cultural extensions, nobility, worlds and
/// resource units dropped; everything else kept.
pub fn project_overview(w: &World) -> (r: World)
    ensures
        r.hex == w.hex && r.name == w.name && r.uwp == w.uwp && r.bases == w.bases && r.remarks == w.remarks,
        r.zone == w.zone && r.pbg == w.pbg && r.allegiance == w.allegiance,
        r.stellar@.len() == 0,
        r.importance is None && r.economic is None && r.cultural is None && r.nobility is None,
        r.worlds is None && r.resource_units is None,
{
    World {
        hex: w.hex.clone(),
        name: w.name.clone(),
        uwp: w.uwp.clone(),
        bases: w.bases.clone(),
        remarks: w.remarks.clone(),
        zone: w.zone.clone(),
        pbg: w.pbg.clone(),
        allegiance: w.allegiance.clone(),
        stellar: String::new(),
        importance: None,
        economic: None,
        cultural: None,
        nobility: None,
        worlds: None,
        resource_units: None,
    }
}

// ── Capital and homeworld markers ───────────────────────────────────────────

/// The last of the first `k` sectors named exactly `name` (a later sector of
/// the same name replaces an earlier one).
pub open spec fn last_named(sectors: Seq<SectorIndexEntry>, name: Seq<char>, k: int) -> Option<int>
    decreases k,
{
    if k <= 0 {
        None
    } else if sectors[k - 1].name@ == name {
        Some(k - 1)
    } else {
        last_named(sectors, name, k - 1)
    }
}

/// The marker a label definition gives, when its sector is known and its hex
/// parses: name, absolute hex `(sector·32 + column, sector·40 + row)`, bias.
pub open spec fn marker_of(d: WorldLabelDef, sectors: Seq<SectorIndexEntry>) -> Option<(Seq<char>, (int, int), (i8, i8))> {
    match last_named(sectors, d.sector@, sectors.len() as int) {
        Some(i) => match spec_parse_hex(d.hex@) {
            Some((c, r)) => Some((d.name@, (sectors[i].location.x * 32 + c, sectors[i].location.y * 40 + r), (d.bias_x, d.bias_y))),
            None => None,
        },
        None => None,
    }
}

/// The markers of the definitions that have one, in order.
pub open spec fn markers_of(defs: Seq<WorldLabelDef>, sectors: Seq<SectorIndexEntry>) -> Seq<(Seq<char>, (int, int), (i8, i8))>
    decreases defs.len(),
{
    if defs.len() == 0 {
        Seq::empty()
    } else {
        markers_of(defs.drop_last(), sectors) + match marker_of(defs.last(), sectors) {
            Some(m) => seq![m],
            None => Seq::empty(),
        }
    }
}

pub open spec fn markers_view(v: Seq<WorldLabel>) -> Seq<(Seq<char>, (int, int), (i8, i8))> {
    v.map_values(|l: WorldLabel| (l.name@, (l.coord.x as int, l.coord.y as int), l.bias))
}

proof fn lemma_last_named_range(sectors: Seq<SectorIndexEntry>, name: Seq<char>, k: int)
    requires
        0 <= k <= sectors.len(),
    ensures
        last_named(sectors, name, k) matches Some(i) ==> 0 <= i < k,
    decreases k,
{
    if k > 0 {
        lemma_last_named_range(sectors, name, k - 1);
    }
}

fn last_named_exec(sectors: &Vec<SectorIndexEntry>, name: &str) -> (r: Option<usize>)
    ensures
        match r {
            Some(i) => last_named(sectors@, name@, sectors@.len() as int) == Some(i as int) && i < sectors@.len(),
            None => last_named(sectors@, name@, sectors@.len() as int) is None,
        },
{
    let mut k: usize = sectors.len();
    while k > 0
        invariant
            k <= sectors@.len(),
            last_named(sectors@, name@, sectors@.len() as int) == last_named(sectors@, name@, k as int),
        decreases k,
    {
        if str_eq(sectors[k - 1].name.as_str(), name) {
            return Some(k - 1);
        }
        k -= 1;
    }
    None
}

/// The capital and homeworld markers: each definition whose sector the index
/// names (the last sector of that name) and whose hex parses, at its
/// absolute hex.
pub fn world_markers(defs: &Vec<WorldLabelDef>, sectors: &Vec<SectorIndexEntry>) -> (r: Vec<WorldLabel>)
    requires
        forall|i: int| 0 <= i < sectors@.len() ==> sector_fits((#[trigger] sectors@[i]).location.x as int, sectors@[i].location.y as int),
    ensures
        markers_view(r@) == markers_of(defs@, sectors@),
{
    let mut out: Vec<WorldLabel> = Vec::new();
    let mut i: usize = 0;
    while i < defs.len()
        invariant
            i <= defs@.len(),
            forall|j: int| 0 <= j < sectors@.len() ==> sector_fits((#[trigger] sectors@[j]).location.x as int, sectors@[j].location.y as int),
            markers_view(out@) == markers_of(defs@.take(i as int), sectors@),
        decreases defs@.len() - i,
    {
        assert(defs@.take(i + 1).drop_last() =~= defs@.take(i as int));
        let d = &defs[i];
        let ghost before = markers_view(out@);
        let ghost rest = markers_of(defs@.take(i as int), sectors@);
        let found = last_named_exec(sectors, d.sector.as_str());
        let hex = parse_hex(d.hex.as_str());
        proof { crate::astrometrics::lemma_parse_hex_range(d.hex@); }
        match (found, hex) {
            (Some(k), Some((c, r))) => {
                let loc = sectors[k].location;
                assert(sector_fits(loc.x as int, loc.y as int));
                out.push(WorldLabel {
                    name: d.name.clone(),
                    coord: Coord::new(loc.x * 32 + c, loc.y * 40 + r),
                    bias: (d.bias_x, d.bias_y),
                });
                assert(markers_view(out@) =~= before.push((d.name@, (loc.x * 32 + c, loc.y * 40 + r), (d.bias_x, d.bias_y))));
                assert(rest + seq![(d.name@, (loc.x * 32 + c, loc.y * 40 + r), (d.bias_x, d.bias_y))] =~= before.push((d.name@, (loc.x * 32 + c, loc.y * 40 + r), (d.bias_x, d.bias_y))));
            },
            _ => {
                assert(rest + Seq::<(Seq<char>, (int, int), (i8, i8))>::empty() =~= rest);
            },
        }
        i += 1;
    }
    assert(defs@.take(defs@.len() as int) =~= defs@);
    out
}

} // verus!
