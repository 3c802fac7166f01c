//! The entries of a milieu's search index: every sector tagged `OTU` or
//! `Faraway`, its named subsectors and its named worlds, then one entry per
//! labelled region (border labels and hand-placed labels of the same text
//! across all sectors, placed at their mean point).
//!
//! Reading the files is the caller's part: each sector comes with its
//! subsectors and metadata (when its metadata file was found) and its worlds.
use vstd::prelude::*;

use crate::dto::{SectorIndexEntry, Subsector, World, SearchItem, SearchWorld, SearchSector, SearchSubsector, SearchLabel};
use crate::metadata::{SectorMetadata, opt_view};
use crate::search_index::{WorldFields, fields_of, world_fields, combined_tags, sector_tags, is_searchable,
    importance_of, importance_value, label_points, sector_label_points, point_entries, group_label_points,
    groups_upto, groups_view, group_index, label_entries, label_placement, placement_of, points_in_range};
use crate::searchlang::{spec_lowercase, to_lowercase};
use crate::astrometrics::{spec_parse_hex, parse_hex};
use crate::world_util::{AllegianceCode, alleg_view};
use crate::text::ws_tokens;

verus! {

/// What the search index is built from for one sector of the milieu.
pub struct SectorSource {
    pub entry: SectorIndexEntry,
    /// The named subsectors of its metadata file (empty without one).
    pub subsectors: Vec<Subsector>,
    /// Its metadata, when its metadata file was found.
    pub meta: Option<SectorMetadata>,
    /// The worlds of its data file.
    pub worlds: Vec<World>,
}

/// One entry of the search index.
pub struct SearchEntry {
    /// The item's name, lowercased.
    pub name_lower: String,
    /// 0 sector, 1 subsector, 2 world, 3 labelled region.
    pub kind: u8,
    /// A world's importance `{Ix}`, when it has one that is a number.
    pub importance: Option<i32>,
    /// A world's searchable fields; blank for the other kinds.
    pub fields: WorldFields,
    pub item: SearchItem,
}

/// A search hit as plain values.
pub enum ItemSpec {
    World { hex_x: int, hex_y: int, sector: Seq<char>, uwp: Seq<char>, sector_x: int, sector_y: int, name: Seq<char>, tags: Seq<char> },
    Sector { sector_x: int, sector_y: int, name: Seq<char>, tags: Seq<char> },
    Subsector { sector: Seq<char>, index: Seq<char>, sector_x: int, sector_y: int, name: Seq<char>, tags: Seq<char> },
    Label { hex_x: int, hex_y: int, scale: int, sector_x: int, sector_y: int, name: Seq<char>, tags: Seq<char> },
}

pub open spec fn item_view(i: SearchItem) -> ItemSpec {
    match i {
        SearchItem::World(w) => ItemSpec::World {
            hex_x: w.hex_x as int, hex_y: w.hex_y as int, sector: w.sector@, uwp: w.uwp@,
            sector_x: w.sector_x as int, sector_y: w.sector_y as int, name: w.name@, tags: w.sector_tags@,
        },
        SearchItem::Sector(s) => ItemSpec::Sector {
            sector_x: s.sector_x as int, sector_y: s.sector_y as int, name: s.name@, tags: s.sector_tags@,
        },
        SearchItem::Subsector(s) => ItemSpec::Subsector {
            sector: s.sector@, index: s.index@, sector_x: s.sector_x as int, sector_y: s.sector_y as int,
            name: s.name@, tags: s.sector_tags@,
        },
        SearchItem::Label(l) => ItemSpec::Label {
            hex_x: l.hex_x as int, hex_y: l.hex_y as int, scale: l.scale as int, sector_x: l.sector_x as int,
            sector_y: l.sector_y as int, name: l.name@, tags: l.sector_tags@,
        },
    }
}

/// The name a hit is found by.
pub open spec fn item_name(i: ItemSpec) -> Seq<char> {
    match i {
        ItemSpec::World { name, .. } => name,
        ItemSpec::Sector { name, .. } => name,
        ItemSpec::Subsector { name, .. } => name,
        ItemSpec::Label { name, .. } => name,
    }
}

/// An entry as plain values: its kind, importance and hit, and for a world
/// the world and its sector's name (its fields are those of the world).
pub struct EntrySpec {
    pub kind: int,
    pub importance: Option<int>,
    pub item: ItemSpec,
    pub world: Option<(World, Seq<char>)>,
}

pub open spec fn fields_blank(f: WorldFields) -> bool {
    &&& f.uwp@.len() == 0 && f.pbg@.len() == 0 && f.zone@.len() == 0 && f.alleg@.len() == 0
    &&& f.stellar@.len() == 0 && f.remarks@.len() == 0 && f.ex@.len() == 0 && f.cx@.len() == 0
    &&& f.sector_name@.len() == 0
}

pub open spec fn opt_i32_view(o: Option<i32>) -> Option<int> {
    match o {
        Some(v) => Some(v as int),
        None => None,
    }
}

/// Entry `e` is the entry `s` describes.
pub open spec fn entry_matches(e: SearchEntry, s: EntrySpec) -> bool {
    &&& e.kind as int == s.kind
    &&& opt_i32_view(e.importance) == s.importance
    &&& item_view(e.item) == s.item
    &&& e.name_lower@ == spec_lowercase(item_name(s.item))
    &&& match s.world {
        Some((w, sector_name)) => fields_of(w, sector_name, e.fields),
        None => fields_blank(e.fields),
    }
}

/// The entries are, one for one, those the specs describe.
pub open spec fn entries_match(r: Seq<SearchEntry>, s: Seq<EntrySpec>) -> bool {
    r.len() == s.len() && forall|i: int| 0 <= i < r.len() ==> #[trigger] entry_matches(r[i], s[i])
}

/// A sector's tags: its own, then its milieu entry's, each once.
pub open spec fn src_tags(s: SectorSource) -> Seq<char> {
    combined_tags(s.entry.tags@, opt_view(s.entry.metafile_tag))
}

/// Only sectors tagged `OTU` or `Faraway` are indexed.
pub open spec fn searchable(tags: Seq<char>) -> bool {
    ws_tokens(tags).contains("OTU"@) || ws_tokens(tags).contains("Faraway"@)
}

pub open spec fn sector_spec(s: SectorSource) -> EntrySpec {
    EntrySpec {
        kind: 0,
        importance: None,
        item: ItemSpec::Sector {
            sector_x: s.entry.location.x as int, sector_y: s.entry.location.y as int, name: s.entry.name@, tags: src_tags(s),
        },
        world: None,
    }
}

pub open spec fn subsector_spec(s: SectorSource, j: int) -> EntrySpec {
    EntrySpec {
        kind: 1,
        importance: None,
        item: ItemSpec::Subsector {
            sector: s.entry.name@, index: s.subsectors@[j].index@, sector_x: s.entry.location.x as int,
            sector_y: s.entry.location.y as int, name: s.subsectors@[j].name@, tags: src_tags(s),
        },
        world: None,
    }
}

/// The subsector entries of the first `k` subsectors.
pub open spec fn subsector_specs(s: SectorSource, k: int) -> Seq<EntrySpec> {
    Seq::new(k as nat, |j: int| subsector_spec(s, j))
}

/// The entry of world `w` of sector `s`: only a named world with a valid hex
/// has one.
pub open spec fn world_spec(s: SectorSource, w: World) -> Seq<EntrySpec> {
    match spec_parse_hex(w.hex@) {
        Some((c, r)) => if w.name@.len() > 0 {
            seq![EntrySpec {
                kind: 2,
                importance: importance_of(opt_view(w.importance)),
                item: ItemSpec::World {
                    hex_x: c, hex_y: r, sector: s.entry.name@, uwp: w.uwp@, sector_x: s.entry.location.x as int,
                    sector_y: s.entry.location.y as int, name: w.name@, tags: src_tags(s),
                },
                world: Some((w, s.entry.name@)),
            }]
        } else {
            Seq::empty()
        },
        None => Seq::empty(),
    }
}

/// The world entries of the first `k` worlds of `s`.
pub open spec fn world_specs(s: SectorSource, k: int) -> Seq<EntrySpec>
    decreases k,
{
    if k <= 0 { Seq::empty() } else { world_specs(s, k - 1) + world_spec(s, s.worlds@[k - 1]) }
}

/// A searchable sector's entries: the sector, its subsectors, its worlds.
pub open spec fn source_specs(s: SectorSource) -> Seq<EntrySpec> {
    if searchable(src_tags(s)) {
        seq![sector_spec(s)] + subsector_specs(s, s.subsectors@.len() as int) + world_specs(s, s.worlds@.len() as int)
    } else {
        Seq::empty()
    }
}

pub open spec fn sources_specs(srcs: Seq<SectorSource>, k: int) -> Seq<EntrySpec>
    decreases k,
{
    if k <= 0 { Seq::empty() } else { sources_specs(srcs, k - 1) + source_specs(srcs[k - 1]) }
}

/// The labelled points of a searchable sector with metadata.
pub open spec fn source_points(s: SectorSource, rows: Seq<(Seq<char>, Seq<char>, Seq<char>)>) -> Seq<(Seq<char>, (int, int))> {
    match s.meta {
        Some(m) => if searchable(src_tags(s)) {
            sector_label_points(m, s.entry.location.x as int, s.entry.location.y as int, rows)
        } else {
            Seq::empty()
        },
        None => Seq::empty(),
    }
}

pub open spec fn all_points(srcs: Seq<SectorSource>, k: int, rows: Seq<(Seq<char>, Seq<char>, Seq<char>)>)
    -> Seq<(Seq<char>, (int, int))>
    decreases k,
{
    if k <= 0 { Seq::empty() } else { all_points(srcs, k - 1, rows) + source_points(srcs[k - 1], rows) }
}

pub open spec fn as_i32_points(ps: Seq<(Seq<char>, (int, int))>) -> Seq<(Seq<char>, (i32, i32))> {
    ps.map_values(|e: (Seq<char>, (int, int))| (e.0, (e.1.0 as i32, e.1.1 as i32)))
}

/// The tags of the last of the first `k` sectors at grid position `(x, y)`;
/// empty when none is there.
pub open spec fn tags_at(srcs: Seq<SectorSource>, k: int, x: int, y: int) -> Seq<char>
    decreases k,
{
    if k <= 0 {
        Seq::empty()
    } else if srcs[k - 1].entry.location.x == x && srcs[k - 1].entry.location.y == y {
        src_tags(srcs[k - 1])
    } else {
        tags_at(srcs, k - 1, x, y)
    }
}

/// One entry per label group, at its placement, with the tags of the sector
/// found there.
pub open spec fn label_specs(gs: Seq<(Seq<char>, Seq<(i32, i32)>)>, srcs: Seq<SectorSource>) -> Seq<EntrySpec>
    decreases gs.len(),
{
    if gs.len() == 0 {
        Seq::empty()
    } else {
        label_specs(gs.drop_last(), srcs) + match placement_of(gs.last().1) {
            Some((sx, sy, hx, hy, scale)) => seq![EntrySpec {
                kind: 3,
                importance: None,
                item: ItemSpec::Label {
                    hex_x: hx, hex_y: hy, scale, sector_x: sx, sector_y: sy, name: gs.last().0,
                    tags: tags_at(srcs, srcs.len() as int, sx, sy),
                },
                world: None,
            }],
            None => Seq::empty(),
        }
    }
}

/// The search index entries of a milieu's sectors: each searchable sector's
/// entries in order, then the labelled regions, grouped by label text in
/// order of first appearance.
pub open spec fn search_entries_of(srcs: Seq<SectorSource>, rows: Seq<(Seq<char>, Seq<char>, Seq<char>)>) -> Seq<EntrySpec> {
    let pts = as_i32_points(all_points(srcs, srcs.len() as int, rows));
    sources_specs(srcs, srcs.len() as int) + label_specs(groups_upto(pts, pts.len() as int), srcs)
}

/// A sector whose hexes all have world-space points that the sector lookup
/// can place back in `i32`.
pub open spec fn search_sector_fits(c: crate::astrometrics::Coord) -> bool {
    fits_at(c.x as int, c.y as int)
}

// ── Building ───────────────────────────────────────────────────────────────

proof fn lemma_match_push(r: Seq<SearchEntry>, s: Seq<EntrySpec>, e: SearchEntry, x: EntrySpec)
    requires
        entries_match(r, s),
        entry_matches(e, x),
    ensures
        entries_match(r.push(e), s.push(x)),
{
    assert forall|i: int| 0 <= i < r.push(e).len() implies #[trigger] entry_matches(r.push(e)[i], s.push(x)[i]) by {
        if i < r.len() {
            assert(entry_matches(r[i], s[i]));
        }
    }
}

fn blank_fields() -> (f: WorldFields)
    ensures
        fields_blank(f),
{
    WorldFields {
        uwp: String::new(),
        pbg: String::new(),
        zone: String::new(),
        alleg: String::new(),
        stellar: String::new(),
        remarks: String::new(),
        ex: String::new(),
        cx: String::new(),
        sector_name: String::new(),
    }
}

fn opt_as_str(o: &Option<String>) -> (r: Option<&str>)
    ensures
        crate::text::opt_str_view(r) == opt_view(*o),
{
    match o {
        Some(s) => Some(s.as_str()),
        None => None,
    }
}

/// The tags of the last sector at `(x, y)`, empty when none is there.
fn tags_at_exec(srcs: &Vec<SectorSource>, x: i32, y: i32) -> (t: String)
    ensures
        t@ == tags_at(srcs@, srcs@.len() as int, x as int, y as int),
{
    let mut k = srcs.len();
    while k > 0
        invariant
            k <= srcs@.len(),
            tags_at(srcs@, srcs@.len() as int, x as int, y as int) == tags_at(srcs@, k as int, x as int, y as int),
        decreases k,
    {
        let e = &srcs[k - 1].entry;
        if e.location.x == x && e.location.y == y {
            return sector_tags(e.tags.as_str(), opt_as_str(&e.metafile_tag));
        }
        k -= 1;
    }
    String::new()
}

proof fn lemma_group_index_range(gs: Seq<(Seq<char>, Seq<(i32, i32)>)>, name: Seq<char>)
    ensures
        group_index(gs, name) matches Some(i) ==> 0 <= i < gs.len() && gs[i].0 == name,
    decreases gs.len(),
{
    if gs.len() > 0 {
        lemma_group_index_range(gs.drop_last(), name);
    }
}

/// Every point of every group is one of the grouped points.
proof fn lemma_group_points(es: Seq<(Seq<char>, (i32, i32))>, k: int)
    requires
        0 <= k <= es.len(),
    ensures
        forall|g: int, j: int| 0 <= g < groups_upto(es, k).len() && 0 <= j < groups_upto(es, k)[g].1.len()
            ==> exists|m: int| 0 <= m < k && (#[trigger] groups_upto(es, k)[g].1[j]) == es[m].1,
    decreases k,
{
    if k > 0 {
        lemma_group_points(es, k - 1);
        let gs = groups_upto(es, k - 1);
        let r = groups_upto(es, k);
        let (name, p) = es[k - 1];
        lemma_group_index_range(gs, name);
        assert forall|g: int, j: int| 0 <= g < r.len() && 0 <= j < r[g].1.len()
            implies exists|m: int| 0 <= m < k && (#[trigger] r[g].1[j]) == es[m].1 by {
            let old_pt = g < gs.len() && j < gs[g].1.len();
            match group_index(gs, name) {
                Some(i) => {
                    if g == i {
                        assert(r[g].1 == gs[i].1.push(p));
                    } else {
                        assert(r[g] == gs[g]);
                    }
                },
                None => {
                    if g < gs.len() {
                        assert(r[g] == gs[g]);
                    } else {
                        assert(r[g].1 == seq![p]);
                    }
                },
            }
            if old_pt && r[g].1[j] == gs[g].1[j] {
                let m = choose|m: int| 0 <= m < k - 1 && (#[trigger] gs[g].1[j]) == es[m].1;
                assert(r[g].1[j] == es[m].1);
            } else {
                assert(r[g].1[j] == es[k - 1].1);
            }
        }
    }
}

fn push_label_entries(out: &mut Vec<SearchEntry>, groups: &Vec<(String, Vec<(i32, i32)>)>, srcs: &Vec<SectorSource>)
    requires
        forall|g: int| 0 <= g < groups@.len() ==> points_in_range((#[trigger] groups@[g]).1@),
    ensures
        forall|s: Seq<EntrySpec>| entries_match(old(out)@, s)
            ==> entries_match(final(out)@, s + label_specs(groups_view(groups@), srcs@)),
{
    let ghost start = out@;
    let ghost gv = groups_view(groups@);
    let mut k: usize = 0;
    while k < groups.len()
        invariant
            k <= groups@.len(),
            gv == groups_view(groups@),
            forall|g: int| 0 <= g < groups@.len() ==> points_in_range((#[trigger] groups@[g]).1@),
            forall|s: Seq<EntrySpec>| entries_match(start, s)
                ==> entries_match(out@, s + label_specs(gv.take(k as int), srcs@)),
        decreases groups@.len() - k,
    {
        let ghost before = out@;
        let ghost t = gv.take(k + 1);
        assert(t.drop_last() =~= gv.take(k as int));
        assert(t.last() == (groups@[k as int].0@, groups@[k as int].1@));
        let g = &groups[k];
        match label_placement(&g.1) {
            Some(p) => {
                let tags = tags_at_exec(srcs, p.sector_x, p.sector_y);
                let name = g.0.clone();
                let name_lower = to_lowercase(name.as_str());
                let e = SearchEntry {
                    name_lower,
                    kind: 3,
                    importance: None,
                    fields: blank_fields(),
                    item: SearchItem::Label(SearchLabel {
                        hex_x: p.hex_x,
                        hex_y: p.hex_y,
                        scale: p.scale,
                        sector_x: p.sector_x,
                        sector_y: p.sector_y,
                        name,
                        sector_tags: tags,
                    }),
                };
                let ghost x = EntrySpec {
                    kind: 3,
                    importance: None,
                    item: ItemSpec::Label {
                        hex_x: p.hex_x as int, hex_y: p.hex_y as int, scale: p.scale as int, sector_x: p.sector_x as int,
                        sector_y: p.sector_y as int, name: t.last().0,
                        tags: tags_at(srcs@, srcs@.len() as int, p.sector_x as int, p.sector_y as int),
                    },
                    world: None,
                };
                assert(entry_matches(e, x));
                out.push(e);
                proof {
                    assert forall|s: Seq<EntrySpec>| entries_match(start, s)
                        implies entries_match(out@, s + label_specs(t, srcs@)) by {
                        lemma_match_push(before, s + label_specs(gv.take(k as int), srcs@), e, x);
                        assert(s + label_specs(t, srcs@) =~= (s + label_specs(gv.take(k as int), srcs@)).push(x));
                    }
                }
            },
            None => {
                proof {
                    assert forall|s: Seq<EntrySpec>| entries_match(start, s)
                        implies entries_match(out@, s + label_specs(t, srcs@)) by {
                        assert(s + label_specs(t, srcs@) =~= s + label_specs(gv.take(k as int), srcs@));
                    }
                }
            },
        }
        k += 1;
    }
    assert(gv.take(groups@.len() as int) =~= gv);
}

/// The entries of one searchable sector (after `out`), and its label points
/// (after `pts`).
fn push_source_entries(out: &mut Vec<SearchEntry>, pts: &mut Vec<(String, (i32, i32))>, src: &SectorSource,
    table: &Vec<AllegianceCode>)
    requires
        search_sector_fits(src.entry.location),
    ensures
        forall|s: Seq<EntrySpec>| entries_match(old(out)@, s) ==> entries_match(final(out)@, s + source_specs(*src)),
        point_entries(final(pts)@) == point_entries(old(pts)@)
            + source_points(*src, table@.map_values(|a: AllegianceCode| alleg_view(a))),
{
    let ghost start = out@;
    let ghost p0 = point_entries(pts@);
    let ghost rows = table@.map_values(|a: AllegianceCode| alleg_view(a));
    let e = &src.entry;
    let tags = sector_tags(e.tags.as_str(), opt_as_str(&e.metafile_tag));
    assert(tags@ == src_tags(*src));
    if !is_searchable(tags.as_str()) {
        proof {
            assert(!searchable(src_tags(*src)));
            assert forall|s: Seq<EntrySpec>| entries_match(start, s) implies entries_match(out@, s + source_specs(*src)) by {
                assert(s + source_specs(*src) =~= s);
            }
            assert(p0 + source_points(*src, rows) =~= p0);
        }
        return;
    }
    let sx = e.location.x;
    let sy = e.location.y;
    // The sector.
    let name = e.name.clone();
    let se = SearchEntry {
        name_lower: to_lowercase(name.as_str()),
        kind: 0,
        importance: None,
        fields: blank_fields(),
        item: SearchItem::Sector(SearchSector { sector_x: sx, sector_y: sy, name, sector_tags: tags.clone() }),
    };
    assert(entry_matches(se, sector_spec(*src)));
    out.push(se);
    let ghost head = seq![sector_spec(*src)];
    proof {
        assert forall|s: Seq<EntrySpec>| entries_match(start, s) implies entries_match(out@, s + head) by {
            lemma_match_push(start, s, se, sector_spec(*src));
            assert(s + head =~= s.push(sector_spec(*src)));
        }
    }
    // Its subsectors.
    let mut j: usize = 0;
    while j < src.subsectors.len()
        invariant
            j <= src.subsectors@.len(),
            tags@ == src_tags(*src),
            sx == src.entry.location.x && sy == src.entry.location.y,
            forall|s: Seq<EntrySpec>| entries_match(start, s) ==> entries_match(out@, s + head + subsector_specs(*src, j as int)),
        decreases src.subsectors@.len() - j,
    {
        let ghost before = out@;
        let sub = &src.subsectors[j];
        let sname = sub.name.clone();
        let x = SearchEntry {
            name_lower: to_lowercase(sname.as_str()),
            kind: 1,
            importance: None,
            fields: blank_fields(),
            item: SearchItem::Subsector(SearchSubsector {
                sector: src.entry.name.clone(),
                index: sub.index.clone(),
                sector_x: sx,
                sector_y: sy,
                name: sname,
                sector_tags: tags.clone(),
            }),
        };
        assert(entry_matches(x, subsector_spec(*src, j as int)));
        out.push(x);
        proof {
            assert forall|s: Seq<EntrySpec>| entries_match(start, s)
                implies entries_match(out@, s + head + subsector_specs(*src, j + 1)) by {
                lemma_match_push(before, s + head + subsector_specs(*src, j as int), x, subsector_spec(*src, j as int));
                assert(s + head + subsector_specs(*src, j + 1)
                    =~= (s + head + subsector_specs(*src, j as int)).push(subsector_spec(*src, j as int)));
            }
        }
        j += 1;
    }
    let ghost mid = head + subsector_specs(*src, src.subsectors@.len() as int);
    // Its label points.
    match &src.meta {
        Some(m) => {
            let lp = label_points(m, sx, sy, table);
            let mut q: usize = 0;
            while q < lp.len()
                invariant
                    q <= lp@.len(),
                    point_entries(pts@) == p0 + point_entries(lp@.take(q as int)),
                decreases lp@.len() - q,
            {
                let ghost b = point_entries(pts@);
                pts.push((lp[q].0.clone(), lp[q].1));
                assert(point_entries(pts@) =~= b.push((lp@[q as int].0@, (lp@[q as int].1.0 as int, lp@[q as int].1.1 as int))));
                assert(point_entries(lp@.take(q + 1)) =~= point_entries(lp@.take(q as int)).push(
                    (lp@[q as int].0@, (lp@[q as int].1.0 as int, lp@[q as int].1.1 as int))));
                q += 1;
            }
            assert(lp@.take(lp@.len() as int) =~= lp@);
        },
        None => {
            assert(p0 + source_points(*src, rows) =~= p0);
        },
    }
    // Its worlds.
    let mut w: usize = 0;
    proof {
        assert forall|s: Seq<EntrySpec>| entries_match(start, s)
            implies entries_match(out@, s + mid + world_specs(*src, 0)) by {
            assert(s + mid + world_specs(*src, 0) =~= s + head + subsector_specs(*src, src.subsectors@.len() as int));
        }
    }
    while w < src.worlds.len()
        invariant
            w <= src.worlds@.len(),
            tags@ == src_tags(*src),
            sx == src.entry.location.x && sy == src.entry.location.y,
            forall|s: Seq<EntrySpec>| entries_match(start, s) ==> entries_match(out@, s + mid + world_specs(*src, w as int)),
        decreases src.worlds@.len() - w,
    {
        let ghost before = out@;
        let wd = &src.worlds[w];
        let ghost spec_w = world_spec(*src, *wd);
        if !wd.name.as_str().is_empty() {
            match parse_hex(wd.hex.as_str()) {
                Some((col, row)) => {
                    let wname = wd.name.clone();
                    let x = SearchEntry {
                        name_lower: to_lowercase(wname.as_str()),
                        kind: 2,
                        importance: importance_value(opt_as_str(&wd.importance)),
                        fields: world_fields(wd, src.entry.name.as_str()),
                        item: SearchItem::World(SearchWorld {
                            hex_x: col,
                            hex_y: row,
                            sector: src.entry.name.clone(),
                            uwp: wd.uwp.clone(),
                            sector_x: sx,
                            sector_y: sy,
                            name: wname,
                            sector_tags: tags.clone(),
                        }),
                    };
                    assert(spec_w.len() == 1);
                    assert(entry_matches(x, spec_w[0]));
                    out.push(x);
                    proof {
                        assert forall|s: Seq<EntrySpec>| entries_match(start, s)
                            implies entries_match(out@, s + mid + world_specs(*src, w + 1)) by {
                            lemma_match_push(before, s + mid + world_specs(*src, w as int), x, spec_w[0]);
                            assert(s + mid + world_specs(*src, w + 1) =~= (s + mid + world_specs(*src, w as int)).push(spec_w[0]));
                        }
                    }
                },
                None => {
                    proof {
                        assert forall|s: Seq<EntrySpec>| entries_match(start, s)
                            implies entries_match(out@, s + mid + world_specs(*src, w + 1)) by {
                            assert(s + mid + world_specs(*src, w + 1) =~= s + mid + world_specs(*src, w as int));
                        }
                    }
                },
            }
        } else {
            proof {
                assert forall|s: Seq<EntrySpec>| entries_match(start, s)
                    implies entries_match(out@, s + mid + world_specs(*src, w + 1)) by {
                    assert(s + mid + world_specs(*src, w + 1) =~= s + mid + world_specs(*src, w as int));
                }
            }
        }
        w += 1;
    }
    proof {
        assert forall|s: Seq<EntrySpec>| entries_match(start, s) implies entries_match(out@, s + source_specs(*src)) by {
            assert(s + source_specs(*src) =~= s + mid + world_specs(*src, src.worlds@.len() as int));
        }
    }
}

/// The search index entries of a milieu: for each sector tagged `OTU` or
/// `Faraway` (its own tags with its milieu entry's), the sector, its named
/// subsectors and its named worlds with a valid hex; then one entry per label
/// text of the indexed sectors' border and hand-placed labels, at the rounded
/// mean of its points, with a zoom scale from their spread and the tags of the
/// sector found there.
pub fn search_entries(sources: &Vec<SectorSource>, table: &Vec<AllegianceCode>) -> (r: Vec<SearchEntry>)
    requires
        forall|i: int| 0 <= i < sources@.len() ==> search_sector_fits((#[trigger] sources@[i]).entry.location),
    ensures
        entries_match(r@, search_entries_of(sources@, table@.map_values(|a: AllegianceCode| alleg_view(a)))),
{
    let ghost rows = table@.map_values(|a: AllegianceCode| alleg_view(a));
    let mut out: Vec<SearchEntry> = Vec::new();
    let mut pts: Vec<(String, (i32, i32))> = Vec::new();
    let mut i: usize = 0;
    while i < sources.len()
        invariant
            i <= sources@.len(),
            rows == table@.map_values(|a: AllegianceCode| alleg_view(a)),
            forall|k: int| 0 <= k < sources@.len() ==> search_sector_fits((#[trigger] sources@[k]).entry.location),
            entries_match(out@, sources_specs(sources@, i as int)),
            point_entries(pts@) == all_points(sources@, i as int, rows),
            all_near(point_entries(pts@)),
        decreases sources@.len() - i,
    {
        let ghost s0 = sources_specs(sources@, i as int);
        let ghost n0 = pts@.len();
        let ghost pts0 = pts@;
        push_source_entries(&mut out, &mut pts, &sources[i], table);
        proof {
            assert(entries_match(out@, s0 + source_specs(sources@[i as int])));
            lemma_source_points_range(sources@[i as int], rows);
            let sp = source_points(sources@[i as int], rows);
            let pe0 = point_entries(pts0);
            assert(point_entries(pts@) == pe0 + sp);
            assert forall|k: int| 0 <= k < (pe0 + sp).len() implies near((#[trigger] (pe0 + sp)[k]).1) by {
                if k < pe0.len() {
                    assert((pe0 + sp)[k] == pe0[k]);
                } else {
                    assert((pe0 + sp)[k] == sp[k - pe0.len()]);
                }
            }
        }
        i += 1;
    }
    let groups = group_label_points(&pts);
    proof {
        let es = label_entries(pts@);
        assert(es =~= as_i32_points(all_points(sources@, sources@.len() as int, rows))) by {
            assert forall|k: int| 0 <= k < es.len() implies es[k] == as_i32_points(all_points(sources@, sources@.len() as int, rows))[k] by {
                assert(point_entries(pts@)[k] == (pts@[k].0@, (pts@[k].1.0 as int, pts@[k].1.1 as int)));
            }
        }
        lemma_group_points(es, es.len() as int);
        assert forall|g: int| 0 <= g < groups@.len() implies points_in_range((#[trigger] groups@[g]).1@) by {
            assert(groups_view(groups@)[g] == (groups@[g].0@, groups@[g].1@));
            assert forall|j: int| 0 <= j < groups@[g].1@.len() implies crate::search_index::placeable(((#[trigger] groups@[g].1@[j]).0 as int, groups@[g].1@[j].1 as int)) by {
                assert(groups_upto(es, es.len() as int)[g].1[j] == groups@[g].1@[j]);
                let m = choose|m: int| 0 <= m < es.len() && (#[trigger] groups_upto(es, es.len() as int)[g].1[j]) == es[m].1;
                assert(es[m].1 == pts@[m].1);
                assert(point_entries(pts@)[m] == (pts@[m].0@, (pts@[m].1.0 as int, pts@[m].1.1 as int)));
                assert(near(point_entries(pts@)[m].1));
            }
        }
    }
    let ghost head = sources_specs(sources@, sources@.len() as int);
    push_label_entries(&mut out, &groups, sources);
    out
}

pub open spec fn near(p: (int, int)) -> bool {
    crate::search_index::placeable(p)
}

pub open spec fn all_near(ps: Seq<(Seq<char>, (int, int))>) -> bool {
    forall|k: int| 0 <= k < ps.len() ==> near((#[trigger] ps[k]).1)
}

pub open spec fn fits_at(sx: int, sy: int) -> bool {
    i32::MIN + 31 <= sx * 32 - 1 && sx * 32 + 98 <= i32::MAX - 1
        && i32::MIN <= sy * 40 - 40 && sy * 40 + 59 <= i32::MAX - 40
}

proof fn lemma_hex_point_near(sx: int, sy: int, hex: Seq<char>)
    requires
        fits_at(sx, sy),
    ensures
        crate::search_index::hex_point(sx, sy, hex) matches Some(p) ==> near(p),
{
    crate::astrometrics::lemma_parse_hex_range(hex);
}

proof fn lemma_border_points_near(bs: Seq<crate::metadata::MetaBorder>, sx: int, sy: int,
    local: Seq<crate::metadata::MetaAllegiance>, rows: Seq<(Seq<char>, Seq<char>, Seq<char>)>)
    requires
        fits_at(sx, sy),
    ensures
        all_near(crate::search_index::border_points(bs, sx, sy, local, rows)),
    decreases bs.len(),
{
    if bs.len() > 0 {
        lemma_border_points_near(bs.drop_last(), sx, sy, local, rows);
        let b = bs.last();
        lemma_hex_point_near(sx, sy, crate::metadata::label_position_of(opt_view(b.label_position),
            crate::metadata::strings_view(b.hexes@)));
        let ps = crate::search_index::border_points(bs, sx, sy, local, rows);
        let prev = crate::search_index::border_points(bs.drop_last(), sx, sy, local, rows);
        assert forall|k: int| 0 <= k < ps.len() implies near((#[trigger] ps[k]).1) by {
            if k < prev.len() {
                assert(ps[k] == prev[k]);
            }
        }
    }
}

proof fn lemma_placed_points_near(ls: Seq<crate::metadata::MetaLabel>, sx: int, sy: int)
    requires
        fits_at(sx, sy),
    ensures
        all_near(crate::search_index::placed_label_points(ls, sx, sy)),
    decreases ls.len(),
{
    if ls.len() > 0 {
        lemma_placed_points_near(ls.drop_last(), sx, sy);
        lemma_hex_point_near(sx, sy, ls.last().hex@);
        let ps = crate::search_index::placed_label_points(ls, sx, sy);
        let prev = crate::search_index::placed_label_points(ls.drop_last(), sx, sy);
        assert forall|k: int| 0 <= k < ps.len() implies near((#[trigger] ps[k]).1) by {
            if k < prev.len() {
                assert(ps[k] == prev[k]);
            }
        }
    }
}

/// The labelled points of a sector that fits stay within the range the
/// placement averages over.
proof fn lemma_source_points_range(s: SectorSource, rows: Seq<(Seq<char>, Seq<char>, Seq<char>)>)
    requires
        search_sector_fits(s.entry.location),
    ensures
        forall|k: int| 0 <= k < source_points(s, rows).len() ==>
            near((#[trigger] source_points(s, rows)[k]).1),
{
    let sx = s.entry.location.x as int;
    let sy = s.entry.location.y as int;
    match s.meta {
        Some(m) => {
            lemma_border_points_near(m.borders@ + m.regions@, sx, sy, m.local_allegiances@, rows);
            lemma_placed_points_near(m.labels@, sx, sy);
            let a = crate::search_index::border_points(m.borders@ + m.regions@, sx, sy, m.local_allegiances@, rows);
            let b = crate::search_index::placed_label_points(m.labels@, sx, sy);
            let ps = source_points(s, rows);
            assert forall|k: int| 0 <= k < ps.len() implies near((#[trigger] ps[k]).1) by {
                if searchable(src_tags(s)) {
                    assert(ps == a + b);
                    if k < a.len() { assert(ps[k] == a[k]); } else { assert(ps[k] == b[k - a.len()]); }
                }
            }
        },
        None => {},
    }
}

} // verus!

verus! {

// ── Running a query ─────────────────────────────────────────────────────────

/// How many hits of each kind, and in all, a search answers with.
pub const NUM_RESULTS: usize = 160;

/// The fields an entry offers the query's clauses.
pub open spec fn entry_view(e: SearchEntry) -> crate::searchlang::RecordView {
    crate::searchlang::RecordView {
        name: e.name_lower@,
        uwp: e.fields.uwp@,
        pbg: e.fields.pbg@,
        zone: e.fields.zone@,
        alleg: e.fields.alleg@,
        stellar: e.fields.stellar@,
        remarks: e.fields.remarks@,
        ex: e.fields.ex@,
        cx: e.fields.cx@,
        ix: e.importance,
        sector_name: e.fields.sector_name@,
    }
}

/// The query asks for entries of the entry's kind.
pub open spec fn kind_wanted(t: crate::searchlang::SearchTypes, kind: u8) -> bool {
    (kind == 0 && t.sectors) || (kind == 1 && t.subsectors) || (kind == 2 && t.worlds) || (kind == 3 && t.labels)
}

/// Entry `e` answers query `q`: its kind is wanted and, for the sector+hex
/// shortcut, it is a world at that hex whose lowercased sector name begins
/// with the given prefix (as a `LIKE` pattern); otherwise every clause holds.
pub open spec fn entry_answers(e: SearchEntry, q: crate::searchlang::ParsedQuery) -> bool {
    &&& kind_wanted(q.types, e.kind)
    &&& match q.sector_hex {
        Some(sh) => e.kind == 2 && (match e.item {
            SearchItem::World(w) => w.hex_x == sh.hex_x && w.hex_y == sh.hex_y,
            _ => false,
        }) && crate::like::spec_like(sh.sector_prefix@.push('%'), e.fields.sector_name@),
        None => forall|k: int| 0 <= k < q.clauses@.len()
            ==> crate::searchlang::clause_holds(#[trigger] q.clauses@[k]@, entry_view(e)),
    }
}

/// The positions of the first `n` entries that answer `q`, in order.
pub open spec fn answering(es: Seq<SearchEntry>, q: crate::searchlang::ParsedQuery, n: int) -> Seq<int>
    decreases n,
{
    if n <= 0 {
        Seq::empty()
    } else {
        answering(es, q, n - 1) + if entry_answers(es[n - 1], q) { seq![n - 1] } else { Seq::empty() }
    }
}

/// The ranking keys of the answering entries: kind, importance, and their
/// order in the index.
pub open spec fn answer_keys(es: Seq<SearchEntry>, hits: Seq<int>) -> Seq<crate::search_index::HitKey> {
    Seq::new(hits.len(), |k: int| crate::search_index::HitKey { kind: es[hits[k]].kind, importance: es[hits[k]].importance, ord: k as u32 })
}

/// The positions of the entries a query returns, best first: none when the
/// query has no clauses and no sector+hex shortcut; otherwise the answering
/// entries ranked (each kind's best `limit` by importance then index order,
/// merged by importance) and cut to `limit`.
pub open spec fn query_result(es: Seq<SearchEntry>, q: crate::searchlang::ParsedQuery, limit: int) -> Seq<int> {
    if q.clauses@.len() == 0 && q.sector_hex is None {
        Seq::empty()
    } else {
        let hits = answering(es, q, es.len() as int);
        crate::search_index::ranking(answer_keys(es, hits), limit).map_values(|j: int| hits[j])
    }
}

fn kind_wanted_exec(t: &crate::searchlang::SearchTypes, kind: u8) -> (b: bool)
    ensures
        b == kind_wanted(*t, kind),
{
    (kind == 0 && t.sectors) || (kind == 1 && t.subsectors) || (kind == 2 && t.worlds) || (kind == 3 && t.labels)
}

fn entry_answers_exec(e: &SearchEntry, q: &crate::searchlang::ParsedQuery) -> (b: bool)
    requires
        crate::searchlang::view_fits(entry_view(*e)),
        forall|k: int| 0 <= k < q.clauses@.len() ==> crate::searchlang::clause_fits(#[trigger] q.clauses@[k]@),
        q.sector_hex matches Some(sh) ==> sh.sector_prefix@.len() < usize::MAX - 8,
    ensures
        b == entry_answers(*e, *q),
{
    if !kind_wanted_exec(&q.types, e.kind) {
        return false;
    }
    match &q.sector_hex {
        Some(sh) => {
            if e.kind != 2 {
                return false;
            }
            let at = match &e.item {
                SearchItem::World(w) => w.hex_x == sh.hex_x && w.hex_y == sh.hex_y,
                _ => false,
            };
            if !at {
                return false;
            }
            let mut p = crate::text::chars_of(sh.sector_prefix.as_str());
            p.push('%');
            let t = crate::text::chars_of(e.fields.sector_name.as_str());
            crate::like::like_chars(&p, &t)
        },
        None => {
            let rec = crate::searchlang::SearchRecord {
                name: e.name_lower.as_str(),
                uwp: e.fields.uwp.as_str(),
                pbg: e.fields.pbg.as_str(),
                zone: e.fields.zone.as_str(),
                alleg: e.fields.alleg.as_str(),
                stellar: e.fields.stellar.as_str(),
                remarks: e.fields.remarks.as_str(),
                ex: e.fields.ex.as_str(),
                cx: e.fields.cx.as_str(),
                ix: e.importance,
                sector_name: e.fields.sector_name.as_str(),
            };
            assert(crate::searchlang::record_view(rec) == entry_view(*e));
            let mut k: usize = 0;
            while k < q.clauses.len()
                invariant
                    k <= q.clauses@.len(),
                    q.sector_hex is None,
                    kind_wanted(q.types, e.kind),
                    crate::searchlang::record_view(rec) == entry_view(*e),
                    crate::searchlang::record_fits(rec),
                    forall|j: int| 0 <= j < q.clauses@.len() ==> crate::searchlang::clause_fits(#[trigger] q.clauses@[j]@),
                    forall|j: int| 0 <= j < k ==> crate::searchlang::clause_matches(#[trigger] q.clauses@[j]@, rec),
                decreases q.clauses@.len() - k,
            {
                if !q.clauses[k].matches(&rec) {
                    assert(!crate::searchlang::clause_holds(q.clauses@[k as int]@, entry_view(*e)));
                    return false;
                }
                k += 1;
            }
            true
        },
    }
}

fn copy_item(i: &SearchItem) -> (r: SearchItem)
    ensures
        item_view(r) == item_view(*i),
{
    match i {
        SearchItem::World(w) => SearchItem::World(SearchWorld {
            hex_x: w.hex_x, hex_y: w.hex_y, sector: w.sector.clone(), uwp: w.uwp.clone(), sector_x: w.sector_x,
            sector_y: w.sector_y, name: w.name.clone(), sector_tags: w.sector_tags.clone(),
        }),
        SearchItem::Sector(s) => SearchItem::Sector(SearchSector {
            sector_x: s.sector_x, sector_y: s.sector_y, name: s.name.clone(), sector_tags: s.sector_tags.clone(),
        }),
        SearchItem::Subsector(s) => SearchItem::Subsector(SearchSubsector {
            sector: s.sector.clone(), index: s.index.clone(), sector_x: s.sector_x, sector_y: s.sector_y,
            name: s.name.clone(), sector_tags: s.sector_tags.clone(),
        }),
        SearchItem::Label(l) => SearchItem::Label(SearchLabel {
            hex_x: l.hex_x, hex_y: l.hex_y, scale: l.scale, sector_x: l.sector_x, sector_y: l.sector_y,
            name: l.name.clone(), sector_tags: l.sector_tags.clone(),
        }),
    }
}

/// Run a parsed query over the search entries: the hits, best first, at
/// most `limit` of them (see [`query_result`]).
pub fn run_query(entries: &Vec<SearchEntry>, q: &crate::searchlang::ParsedQuery, limit: usize) -> (r: Vec<SearchItem>)
    requires
        entries@.len() <= u32::MAX,
        forall|i: int| 0 <= i < entries@.len() ==> crate::searchlang::view_fits(entry_view(#[trigger] entries@[i])),
        forall|k: int| 0 <= k < q.clauses@.len() ==> crate::searchlang::clause_fits(#[trigger] q.clauses@[k]@),
        q.sector_hex matches Some(sh) ==> sh.sector_prefix@.len() < usize::MAX - 8,
    ensures
        r@.len() == query_result(entries@, *q, limit as int).len(),
        forall|k: int| 0 <= k < r@.len() ==> item_view(#[trigger] r@[k]) == item_view(entries@[query_result(entries@, *q, limit as int)[k]].item),
{
    let mut out: Vec<SearchItem> = Vec::new();
    if q.clauses.len() == 0 && q.sector_hex.is_none() {
        return out;
    }
    let ghost es = entries@;
    let mut hits: Vec<usize> = Vec::new();
    let mut keys: Vec<crate::search_index::HitKey> = Vec::new();
    let mut i: usize = 0;
    while i < entries.len()
        invariant
            i <= entries@.len(),
            es == entries@,
            es.len() <= u32::MAX,
            forall|j: int| 0 <= j < es.len() ==> crate::searchlang::view_fits(entry_view(#[trigger] es[j])),
            forall|k: int| 0 <= k < q.clauses@.len() ==> crate::searchlang::clause_fits(#[trigger] q.clauses@[k]@),
            q.sector_hex matches Some(sh) ==> sh.sector_prefix@.len() < usize::MAX - 8,
            crate::search_index::as_ints(hits@) == answering(es, *q, i as int),
            keys@ == answer_keys(es, crate::search_index::as_ints(hits@)),
            hits@.len() <= i,
            forall|k: int| 0 <= k < hits@.len() ==> (#[trigger] hits@[k]) < i,
        decreases entries@.len() - i,
    {
        let ghost h0 = crate::search_index::as_ints(hits@);
        let ghost k0 = keys@;
        if entry_answers_exec(&entries[i], q) {
            let ord = hits.len() as u32;
            keys.push(crate::search_index::HitKey { kind: entries[i].kind, importance: entries[i].importance, ord });
            hits.push(i);
            assert(crate::search_index::as_ints(hits@) =~= h0.push(i as int));
            assert(keys@ =~= answer_keys(es, crate::search_index::as_ints(hits@)));
        } else {
            assert(h0 + Seq::<int>::empty() =~= h0);
        }
        i += 1;
    }
    let ghost hv = crate::search_index::as_ints(hits@);
    let order = crate::search_index::rank_order(&keys, limit);
    let ghost res = crate::search_index::ranking(keys@, limit as int);
    assert(crate::search_index::as_ints(order@) == res);
    let mut k: usize = 0;
    while k < order.len()
        invariant
            k <= order@.len(),
            es == entries@,
            hv == crate::search_index::as_ints(hits@),
            forall|j: int| 0 <= j < hits@.len() ==> (#[trigger] hits@[j]) < es.len(),
            crate::search_index::as_ints(order@) == res,
            crate::search_index::all_below(res, keys@.len() as int),
            keys@.len() == hits@.len(),
            out@.len() == k,
            forall|j: int| 0 <= j < k ==> item_view(#[trigger] out@[j]) == item_view(es[hv[res[j]]].item),
        decreases order@.len() - k,
    {
        assert(res[k as int] == order@[k as int] as int);
        let e = &entries[hits[order[k]]];
        let it = copy_item(&e.item);
        out.push(it);
        k += 1;
    }
    proof {
        let qr = query_result(es, *q, limit as int);
        assert(qr == res.map_values(|j: int| hv[j]));
        assert forall|j: int| 0 <= j < out@.len() implies item_view(#[trigger] out@[j]) == item_view(es[qr[j]].item) by {
            assert(qr[j] == hv[res[j]]);
        }
    }
    out
}

/// An entry's rank by importance; one without an importance ranks below
/// every value.
pub open spec fn entry_rank(e: SearchEntry) -> int {
    match e.importance {
        Some(v) => v as int,
        None => i32::MIN as int - 1,
    }
}

proof fn lemma_answering(es: Seq<SearchEntry>, q: crate::searchlang::ParsedQuery, n: int)
    requires
        0 <= n <= es.len(),
    ensures
        forall|k: int| 0 <= k < answering(es, q, n).len() ==> 0 <= #[trigger] answering(es, q, n)[k] < n
            && entry_answers(es[answering(es, q, n)[k]], q),
    decreases n,
{
    if n > 0 {
        lemma_answering(es, q, n - 1);
        let a = answering(es, q, n - 1);
        let b: Seq<int> = if entry_answers(es[n - 1], q) { seq![n - 1] } else { Seq::empty() };
        assert forall|k: int| 0 <= k < (a + b).len() implies 0 <= #[trigger] (a + b)[k] < n
            && entry_answers(es[(a + b)[k]], q) by {
            if k < a.len() { assert((a + b)[k] == a[k]); } else { assert((a + b)[k] == b[k - a.len()]); }
        }
    }
}

/// A search returns at most `limit` hits, each an entry that answers the
/// query, ordered by importance, highest first (hits without one last).
pub proof fn law_query_results(es: Seq<SearchEntry>, q: crate::searchlang::ParsedQuery, limit: int)
    requires
        limit >= 0,
    ensures
        query_result(es, q, limit).len() <= limit,
        forall|k: int| 0 <= k < query_result(es, q, limit).len() ==> 0 <= #[trigger] query_result(es, q, limit)[k] < es.len()
            && entry_answers(es[query_result(es, q, limit)[k]], q),
        forall|i: int, j: int| 0 <= i < j < query_result(es, q, limit).len()
            ==> entry_rank(es[#[trigger] query_result(es, q, limit)[i]]) >= entry_rank(es[#[trigger] query_result(es, q, limit)[j]]),
{
    if !(q.clauses@.len() == 0 && q.sector_hex is None) {
        let hits = answering(es, q, es.len() as int);
        let keys = answer_keys(es, hits);
        let rk = crate::search_index::ranking(keys, limit);
        lemma_answering(es, q, es.len() as int);
        crate::search_index::lemma_ranking_below(keys, limit);
        crate::search_index::lemma_ranking_by_importance(keys, limit);
        let r = query_result(es, q, limit);
        assert(r == rk.map_values(|j: int| hits[j]));
        assert forall|k: int| 0 <= k < r.len() implies 0 <= #[trigger] r[k] < es.len() && entry_answers(es[r[k]], q) by {
            assert(r[k] == hits[rk[k]]);
            assert(0 <= rk[k] < keys.len());
        }
        assert forall|i: int, j: int| 0 <= i < j < r.len() implies entry_rank(es[#[trigger] r[i]]) >= entry_rank(es[#[trigger] r[j]]) by {
            assert(r[i] == hits[rk[i]] && r[j] == hits[rk[j]]);
            assert(0 <= rk[i] < keys.len() && 0 <= rk[j] < keys.len());
            assert(crate::search_index::imp(keys[rk[i]]) >= crate::search_index::imp(keys[rk[j]]));
            assert(keys[rk[i]].importance == es[hits[rk[i]]].importance);
            assert(keys[rk[j]].importance == es[hits[rk[j]]].importance);
        }
    }
}

} // verus!
