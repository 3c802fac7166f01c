//! The per-milieu world index that jump routes are found over: one entry per
//! occupied hex, with what a route's waypoints report.
use vstd::prelude::*;

use crate::astrometrics::{Coord, parse_hex, spec_parse_hex, spec_subsector_index, subsector_letter};
use crate::dto::{Subsector, World};
use crate::requests::{eq_ignore_case, eq_ignore_ascii_case};
use crate::route::{RouteWorld, RouteOptions, is_optimal_route, route_exists, route_parsecs, ints};
use crate::dto::{RouteResult, RouteWaypoint, RouteStop, stop_of};
use crate::route_sheet::{hex_digit_at, has_refuel, is_anomaly, is_default_imperial};
use crate::text::{chars_of, string_from_chars, str_eq, trim, trim_chars, split_on, split_chars, lemma_split_on_len,
    text_lines, lines_of};
use crate::world_util::has_prefix;
use crate::requests::after_header;

verus! {

/// One world of the index: its route node and what a waypoint shows of it.
#[derive(Debug)]
pub struct IndexedWorld {
    pub node: RouteWorld,
    pub name: String,
    pub hex: String,
    pub sector: String,
    /// Name of the subsector the hex lies in (empty when unnamed).
    pub subsector: String,
    pub uwp: String,
    pub pbg: String,
    pub zone: String,
    /// Full allegiance name (the code when the table has no name for it).
    pub allegiance: String,
}

fn copy_indexed(w: &IndexedWorld) -> (r: IndexedWorld)
    ensures
        r == *w,
{
    IndexedWorld {
        node: w.node,
        name: w.name.clone(),
        hex: w.hex.clone(),
        sector: w.sector.clone(),
        subsector: w.subsector.clone(),
        uwp: w.uwp.clone(),
        pbg: w.pbg.clone(),
        zone: w.zone.clone(),
        allegiance: w.allegiance.clone(),
    }
}

// ── Allegiance names ────────────────────────────────────────────────────────

/// The `(code, name)` pairs of allegiance-table lines (columns `Code Legacy
/// BaseCode Name Location`, tab-separated) whose code and name are both
/// non-empty once trimmed.
pub open spec fn code_names_of(lines: Seq<Seq<char>>) -> Seq<(Seq<char>, Seq<char>)>
    decreases lines.len(),
{
    if lines.len() == 0 {
        Seq::empty()
    } else {
        let f = split_on(lines.last(), '\t');
        code_names_of(lines.drop_last()) + if f.len() >= 4 && trim(f[0]).len() > 0 && trim(f[3]).len() > 0 {
            seq![(trim(f[0]), trim(f[3]))]
        } else {
            Seq::empty()
        }
    }
}

/// The `(code, name)` pairs of the allegiance table (`allegiance_codes.tab`
/// text, header line first), in file order.
pub fn allegiance_names(table: &str) -> (r: Vec<(String, String)>)
    ensures
        r@.map_values(|e: (String, String)| (e.0@, e.1@)) == code_names_of(after_header(text_lines(table@))),
{
    let lines = lines_of(table);
    let ghost lv = lines@.map_values(|v: Vec<char>| v@);
    let mut out: Vec<(String, String)> = Vec::new();
    if lines.len() == 0 {
        assert(out@.map_values(|e: (String, String)| (e.0@, e.1@)) =~= Seq::<(Seq<char>, Seq<char>)>::empty());
        return out;
    }
    let mut i: usize = 1;
    assert(lv.subrange(1, 1) =~= Seq::<Seq<char>>::empty());
    while i < lines.len()
        invariant
            1 <= i <= lines@.len(),
            lv == lines@.map_values(|v: Vec<char>| v@),
            out@.map_values(|e: (String, String)| (e.0@, e.1@)) == code_names_of(lv.subrange(1, i as int)),
        decreases lines@.len() - i,
    {
        let ghost before = out@.map_values(|e: (String, String)| (e.0@, e.1@));
        assert(lv.subrange(1, i + 1).drop_last() =~= lv.subrange(1, i as int));
        assert(lv.subrange(1, i + 1).last() == lines@[i as int]@);
        let f = split_chars(&lines[i], '\t');
        proof { lemma_split_on_len(lines@[i as int]@, '\t'); }
        if f.len() >= 4 {
            let code = trim_chars(&f[0]);
            let name = trim_chars(&f[3]);
            if code.len() > 0 && name.len() > 0 {
                out.push((string_from_chars(&code), string_from_chars(&name)));
                assert(out@.map_values(|e: (String, String)| (e.0@, e.1@)) =~= before.push((code@, name@)));
            } else {
                assert(before + Seq::<(Seq<char>, Seq<char>)>::empty() =~= before);
            }
        } else {
            assert(before + Seq::<(Seq<char>, Seq<char>)>::empty() =~= before);
        }
        i += 1;
    }
    assert(lv.subrange(1, lv.len() as int) =~= after_header(lv));
    out
}

/// The value of the last pair whose key is `key` (a later entry replaces an
/// earlier one, as in a map built in order).
pub open spec fn last_value(pairs: Seq<(Seq<char>, Seq<char>)>, key: Seq<char>) -> Option<Seq<char>>
    decreases pairs.len(),
{
    if pairs.len() == 0 {
        None
    } else if pairs.last().0 == key {
        Some(pairs.last().1)
    } else {
        last_value(pairs.drop_last(), key)
    }
}

fn last_value_of(pairs: &Vec<(String, String)>, key: &str) -> (r: Option<String>)
    ensures
        crate::parse::opt_string_view(r) == last_value(pairs@.map_values(|e: (String, String)| (e.0@, e.1@)), key@),
{
    let ghost pv = pairs@.map_values(|e: (String, String)| (e.0@, e.1@));
    let mut i: usize = pairs.len();
    assert(pv.subrange(0, i as int) =~= pv);
    while i > 0
        invariant
            i <= pairs@.len(),
            pv == pairs@.map_values(|e: (String, String)| (e.0@, e.1@)),
            last_value(pv, key@) == last_value(pv.subrange(0, i as int), key@),
        decreases i,
    {
        let ghost pre = pv.subrange(0, i as int);
        assert(pre.drop_last() =~= pv.subrange(0, i - 1));
        assert(pre.last() == (pairs@[i - 1].0@, pairs@[i - 1].1@));
        if str_eq(pairs[i - 1].0.as_str(), key) {
            return Some(pairs[i - 1].1.clone());
        }
        i -= 1;
    }
    None
}

/// The subsector names by letter, unnamed subsectors left out (a later entry
/// for a letter replaces an earlier one).
pub open spec fn named_letters(subs: Seq<Subsector>) -> Seq<(Seq<char>, Seq<char>)>
    decreases subs.len(),
{
    if subs.len() == 0 {
        Seq::empty()
    } else if subs.last().name@.len() > 0 {
        named_letters(subs.drop_last()).push((subs.last().index@, subs.last().name@))
    } else {
        named_letters(subs.drop_last())
    }
}

fn named_letter_pairs(subs: &Vec<Subsector>) -> (r: Vec<(String, String)>)
    ensures
        r@.map_values(|e: (String, String)| (e.0@, e.1@)) == named_letters(subs@),
{
    let mut out: Vec<(String, String)> = Vec::new();
    let mut i: usize = 0;
    while i < subs.len()
        invariant
            i <= subs@.len(),
            out@.map_values(|e: (String, String)| (e.0@, e.1@)) == named_letters(subs@.take(i as int)),
        decreases subs@.len() - i,
    {
        assert(subs@.take(i + 1).drop_last() =~= subs@.take(i as int));
        let ghost before = out@.map_values(|e: (String, String)| (e.0@, e.1@));
        if !subs[i].name.as_str().is_empty() {
            out.push((subs[i].index.clone(), subs[i].name.clone()));
            assert(out@.map_values(|e: (String, String)| (e.0@, e.1@)) =~= before.push((subs@[i as int].index@, subs@[i as int].name@)));
        }
        i += 1;
    }
    assert(subs@.take(subs@.len() as int) =~= subs@);
    out
}

// ── Indexing one world ──────────────────────────────────────────────────────

/// The route node of a world at `(c, r)` in sector `(sx, sy)`.
pub open spec fn node_of(sx: int, sy: int, c: int, r: int, w: World) -> RouteWorld {
    RouteWorld {
        coord: Coord { x: (sx * 32 + c) as i32, y: (sy * 40 + r) as i32 },
        red: w.zone@ == "R"@,
        anomaly: w.uwp@.len() == 0 || w.uwp@[0] == '?',
        imperial: has_prefix(w.allegiance@, "Im"@),
        refuel: hex_digit_at(w.pbg@, 2) > 0 || hex_digit_at(w.uwp@, 3) > 0,
    }
}

/// The letter `A`–`P` of the subsector a hex lies in, as a one-letter text.
pub open spec fn letter_key(hex: Seq<char>) -> Seq<char> {
    seq![('A' as int + spec_subsector_index(hex)) as char]
}

/// `iw` is world `w` of sector `sector` at grid position `(sx, sy)` (when its
/// hex parses), with the subsector named for its letter and the allegiance
/// named by the table.
pub open spec fn indexed_as(iw: IndexedWorld, sx: int, sy: int, sector: Seq<char>, w: World,
    subs: Seq<Subsector>, names: Seq<(Seq<char>, Seq<char>)>) -> bool
{
    match spec_parse_hex(w.hex@) {
        Some((c, r)) => {
            &&& iw.node == node_of(sx, sy, c, r, w)
            &&& iw.name@ == w.name@ && iw.hex@ == w.hex@ && iw.sector@ == sector
            &&& iw.uwp@ == w.uwp@ && iw.pbg@ == w.pbg@ && iw.zone@ == w.zone@
            &&& iw.subsector@ == (match last_value(named_letters(subs), letter_key(w.hex@)) {
                Some(n) => n,
                None => Seq::empty(),
            })
            &&& iw.allegiance@ == (match last_value(names, w.allegiance@) {
                Some(n) => n,
                None => w.allegiance@,
            })
        },
        None => false,
    }
}

/// A sector grid position whose hexes all have `i32` coordinates.
pub open spec fn sector_fits(sx: int, sy: int) -> bool {
    i32::MIN <= sx * 32 && sx * 32 + 99 <= i32::MAX && i32::MIN <= sy * 40 && sy * 40 + 99 <= i32::MAX
}

/// Do the hexes of sector `(sx, sy)` all have `i32` coordinates?
pub fn sector_fits_i32(sx: i32, sy: i32) -> (b: bool)
    ensures
        b == sector_fits(sx as int, sy as int),
{
    let x = sx as i64 * 32;
    let y = sy as i64 * 40;
    x >= i32::MIN as i64 && x + 99 <= i32::MAX as i64 && y >= i32::MIN as i64 && y + 99 <= i32::MAX as i64
}

/// The index entry of world `w` of sector `sector` at `(sx, sy)`: `None`
/// when its hex does not parse. `subsectors` are the sector's subsectors and
/// `names` the allegiance table's `(code, name)` pairs.
pub fn index_world(sx: i32, sy: i32, sector: &str, w: &World, subsectors: &Vec<Subsector>,
    names: &Vec<(String, String)>) -> (r: Option<IndexedWorld>)
    requires
        sector_fits(sx as int, sy as int),
    ensures
        match r {
            Some(iw) => indexed_as(iw, sx as int, sy as int, sector@, *w, subsectors@,
                names@.map_values(|e: (String, String)| (e.0@, e.1@))),
            None => spec_parse_hex(w.hex@) is None,
        },
{
    let (c, r) = match parse_hex(w.hex.as_str()) {
        Some(p) => p,
        None => return None,
    };
    proof { crate::astrometrics::lemma_parse_hex_range(w.hex@); }
    let node = RouteWorld {
        coord: Coord::new(sx * 32 + c, sy * 40 + r),
        red: str_eq(w.zone.as_str(), "R"),
        anomaly: is_anomaly(w.uwp.as_str()),
        imperial: is_default_imperial(w.allegiance.as_str()),
        refuel: has_refuel(w.uwp.as_str(), w.pbg.as_str()),
    };
    let letters = named_letter_pairs(subsectors);
    let letter = subsector_letter(w.hex.as_str());
    let key = string_from_chars(&[letter]);
    assert(key@ =~= letter_key(w.hex@));
    let subsector = match last_value_of(&letters, key.as_str()) {
        Some(n) => n,
        None => String::new(),
    };
    let allegiance = match last_value_of(names, w.allegiance.as_str()) {
        Some(n) => n,
        None => w.allegiance.clone(),
    };
    Some(IndexedWorld {
        node,
        name: w.name.clone(),
        hex: w.hex.clone(),
        sector: string_from_chars(&chars_of(sector)),
        subsector,
        uwp: w.uwp.clone(),
        pbg: w.pbg.clone(),
        zone: w.zone.clone(),
        allegiance,
    })
}

// ── The index ───────────────────────────────────────────────────────────────

/// Every world of a milieu that routes may use, one per coordinate, with the
/// route nodes alongside.
pub struct WorldIndex {
    worlds: Vec<IndexedWorld>,
    nodes: Vec<RouteWorld>,
}

impl View for WorldIndex {
    type V = Seq<IndexedWorld>;

    closed spec fn view(&self) -> Seq<IndexedWorld> {
        self.worlds@
    }
}

/// The route nodes of `ws`, in order.
pub open spec fn nodes_of(ws: Seq<IndexedWorld>) -> Seq<RouteWorld> {
    ws.map_values(|w: IndexedWorld| w.node)
}

/// Some world of `ws` stands at `c`.
pub open spec fn has_coord(ws: Seq<IndexedWorld>, c: Coord) -> bool {
    exists|j: int| 0 <= j < ws.len() && (#[trigger] ws[j]).node.coord == c
}

/// No two worlds of `ws` stand at the same coordinate.
pub open spec fn coords_distinct(ws: Seq<IndexedWorld>) -> bool {
    forall|i: int, j: int| 0 <= i < j < ws.len() ==> (#[trigger] ws[i]).node.coord != (#[trigger] ws[j]).node.coord
}

/// The worlds of `ws` that are the first at their coordinate, in order.
pub open spec fn first_per_coord(ws: Seq<IndexedWorld>) -> Seq<IndexedWorld>
    decreases ws.len(),
{
    if ws.len() == 0 {
        Seq::empty()
    } else if has_coord(ws.drop_last(), ws.last().node.coord) {
        first_per_coord(ws.drop_last())
    } else {
        first_per_coord(ws.drop_last()).push(ws.last())
    }
}

/// A coordinate as one integer: `x * 2^32 + (y + 2^31)`.
pub open spec fn coord_key(c: Coord) -> int {
    c.x as int * 0x1_0000_0000 + (c.y as int + 0x8000_0000)
}

proof fn lemma_coord_key_injective(a: Coord, b: Coord)
    ensures
        coord_key(a) == coord_key(b) <==> a == b,
{
    if coord_key(a) == coord_key(b) {
        let ya = a.y as int + 0x8000_0000;
        let yb = b.y as int + 0x8000_0000;
        assert((a.x as int - b.x as int) * 0x1_0000_0000 == yb - ya);
        if a.x as int > b.x as int {
            assert((a.x as int - b.x as int) * 0x1_0000_0000 >= 0x1_0000_0000) by (nonlinear_arith)
                requires a.x as int - b.x as int >= 1;
        } else if (a.x as int) < (b.x as int) {
            assert((a.x as int - b.x as int) * 0x1_0000_0000 <= -0x1_0000_0000) by (nonlinear_arith)
                requires a.x as int - b.x as int <= -1;
        }
    }
}

fn coord_key_of(c: Coord) -> (k: i64)
    ensures
        k as int == coord_key(c),
{
    (c.x as i64) * 0x1_0000_0000 + (c.y as i64 + 0x8000_0000)
}

/// `wp` shows world `w`.
pub open spec fn waypoint_of(wp: RouteWaypoint, w: IndexedWorld) -> bool {
    &&& wp.name@ == w.name@ && wp.hex@ == w.hex@ && wp.coord == w.node.coord
    &&& wp.sector@ == w.sector@ && wp.subsector@ == w.subsector@
    &&& wp.uwp@ == w.uwp@ && wp.pbg@ == w.pbg@ && wp.zone@ == w.zone@ && wp.allegiance@ == w.allegiance@
}

/// `res` reports the route `p` over the worlds `ws`: one waypoint per stop,
/// the number of jumps, and the total parsecs.
pub open spec fn route_result_for(res: RouteResult, ws: Seq<IndexedWorld>, p: Seq<int>) -> bool {
    &&& res.waypoints@.len() == p.len()
    &&& forall|k: int| 0 <= k < p.len() ==> waypoint_of(#[trigger] res.waypoints@[k], ws[p[k]])
    &&& res.jumps as int == p.len() - 1
    &&& res.parsecs as int == route_parsecs(nodes_of(ws), p)
}

impl WorldIndex {
    /// One world per coordinate, route nodes matching.
    pub closed spec fn well_formed(&self) -> bool {
        &&& self.nodes@ == nodes_of(self.worlds@)
        &&& coords_distinct(self.worlds@)
    }

    /// The index of `worlds`: the first world at each coordinate, in order.
    pub fn from_worlds(worlds: &Vec<IndexedWorld>) -> (ix: WorldIndex)
        ensures
            ix.well_formed(),
            ix@ == first_per_coord(worlds@),
            coords_distinct(ix@),
    {
        broadcast use vstd::std_specs::hash::group_hash_axioms;
        let mut seen: std::collections::HashSet<i64> = std::collections::HashSet::new();
        let mut out: Vec<IndexedWorld> = Vec::new();
        let mut nodes: Vec<RouteWorld> = Vec::new();
        let mut i: usize = 0;
        while i < worlds.len()
            invariant
                i <= worlds@.len(),
                out@ == first_per_coord(worlds@.take(i as int)),
                nodes@ == nodes_of(out@),
                coords_distinct(out@),
                forall|k: int| 0 <= k < out@.len() ==> has_coord(worlds@.take(i as int), #[trigger] out@[k].node.coord),
                forall|key: i64| seen@.contains(key) <==>
                    exists|j: int| 0 <= j < i && coord_key(#[trigger] worlds@[j].node.coord) == key,
            decreases worlds@.len() - i,
        {
            let ghost pre = worlds@.take(i as int);
            let ghost nxt = worlds@.take(i + 1);
            assert(nxt.drop_last() =~= pre);
            let w = &worlds[i];
            let c = w.node.coord;
            let fresh = seen.insert(coord_key_of(c));
            proof {
                if has_coord(pre, c) {
                    let j = choose|j: int| 0 <= j < pre.len() && (#[trigger] pre[j]).node.coord == c;
                    assert(worlds@[j] == pre[j]);
                    assert(!fresh);
                } else {
                    if !fresh {
                        let j = choose|j: int| 0 <= j < i && coord_key(#[trigger] worlds@[j].node.coord) == coord_key(c);
                        lemma_coord_key_injective(worlds@[j].node.coord, c);
                        assert(pre[j] == worlds@[j]);
                        assert(false);
                    }
                }
            }
            if fresh {
                let ghost before = out@;
                out.push(copy_indexed(w));
                nodes.push(w.node);
                assert(nodes@ =~= nodes_of(out@));
                assert forall|k: int| 0 <= k < out@.len() implies has_coord(nxt, #[trigger] out@[k].node.coord) by {
                    if k < before.len() {
                        let j = choose|j: int| 0 <= j < pre.len() && (#[trigger] pre[j]).node.coord == before[k].node.coord;
                        assert(nxt[j] == pre[j]);
                    } else {
                        assert(nxt[i as int] == worlds@[i as int]);
                    }
                }
                assert forall|a: int, b: int| 0 <= a < b < out@.len() implies
                    (#[trigger] out@[a]).node.coord != (#[trigger] out@[b]).node.coord by {
                    if b == before.len() {
                        assert(has_coord(pre, before[a].node.coord));
                    }
                }
            } else {
                assert forall|k: int| 0 <= k < out@.len() implies has_coord(nxt, #[trigger] out@[k].node.coord) by {
                    let j = choose|j: int| 0 <= j < pre.len() && (#[trigger] pre[j]).node.coord == out@[k].node.coord;
                    assert(nxt[j] == pre[j]);
                }
            }
            assert forall|key: i64| seen@.contains(key) <==>
                exists|j: int| 0 <= j < i + 1 && coord_key(#[trigger] worlds@[j].node.coord) == key by {
                if seen@.contains(key) && key != coord_key(c) {
                    let j = choose|j: int| 0 <= j < i && coord_key(#[trigger] worlds@[j].node.coord) == key;
                    assert(0 <= j < i + 1);
                }
            }
            i += 1;
        }
        assert(worlds@.take(worlds@.len() as int) =~= worlds@);
        WorldIndex { worlds: out, nodes }
    }

    /// The best jump route (fewest jumps, then fewest parsecs) from world
    /// `start` to world `end` with a drive of `jump` parsecs: its waypoints, jumps and parsecs (see
    /// [`crate::route::find_route`]); `None` when there is none.
    pub fn find_route(&self, start: usize, end: usize, jump: i32, opts: RouteOptions) -> (r: Option<RouteResult>)
        requires
            self.well_formed(),
            jump as int * (self@.len() - 1) <= i32::MAX,
        ensures
            (start >= self@.len() || end >= self@.len() || jump < 1) ==> r is None,
            r matches Some(res) ==> exists|p: Seq<int>| #[trigger] is_optimal_route(nodes_of(self@), start as int,
                end as int, jump as int, opts, p) && route_result_for(res, self@, p),
            (start < self@.len() && end < self@.len() && jump >= 1 && r is None) ==>
                !route_exists(nodes_of(self@), start as int, end as int, jump as int, opts),
    {
        let path = match crate::route::find_route(self.nodes.as_slice(), start, end, jump, opts) {
            Some(p) => p,
            None => return None,
        };
        let ghost ws = nodes_of(self.worlds@);
        proof {
            crate::route::lemma_optimal_route_parsecs(ws, start as int, end as int, jump as int, opts, ints(path@));
            assert forall|k: int| 0 <= k < path@.len() implies (#[trigger] path@[k]) < self.nodes@.len() by {
                assert(ints(path@)[k] == path@[k] as int);
            }
            assert(jump as int * (ws.len() - 1) <= jump as int * (self@.len() - 1));
        }
        let parsecs = crate::route::path_parsecs(self.nodes.as_slice(), path.as_slice());
        let mut waypoints: Vec<RouteWaypoint> = Vec::new();
        let mut k: usize = 0;
        while k < path.len()
            invariant
                k <= path@.len(),
                forall|j: int| 0 <= j < path@.len() ==> (#[trigger] path@[j]) < self.worlds@.len(),
                waypoints@.len() == k,
                forall|j: int| 0 <= j < k ==> waypoint_of(#[trigger] waypoints@[j], self.worlds@[path@[j] as int]),
            decreases path@.len() - k,
        {
            let w = &self.worlds[path[k]];
            waypoints.push(RouteWaypoint {
                name: w.name.clone(),
                hex: w.hex.clone(),
                coord: w.node.coord,
                sector: w.sector.clone(),
                subsector: w.subsector.clone(),
                uwp: w.uwp.clone(),
                pbg: w.pbg.clone(),
                zone: w.zone.clone(),
                allegiance: w.allegiance.clone(),
            });
            k += 1;
        }
        let n = waypoints.len();
        let res = RouteResult { jumps: if n > 0 { n - 1 } else { 0 }, parsecs, waypoints };
        proof {
            let p = ints(path@);
            assert(is_optimal_route(ws, start as int, end as int, jump as int, opts, p));
            assert forall|j: int| 0 <= j < p.len() implies waypoint_of(#[trigger] res.waypoints@[j], self@[p[j]]) by {
                assert(p[j] == path@[j] as int);
            }
            assert(route_result_for(res, self@, p));
        }
        Some(res)
    }

    /// The number of worlds.
    pub fn len(&self) -> (n: usize)
        ensures
            n == self@.len(),
    {
        self.worlds.len()
    }
}

// ── Resolving a route endpoint ──────────────────────────────────────────────

/// The position of the last whitespace character among the first `k` of `q`.
pub open spec fn last_ws(q: Seq<char>, k: int) -> Option<int>
    decreases k,
{
    if k <= 0 {
        None
    } else if crate::text::is_ws(q[k - 1]) {
        Some(k - 1)
    } else {
        last_ws(q, k - 1)
    }
}

/// A `"<sector> <hex>"` reference: the text before the last whitespace
/// (trimmed) and the hex after it, written back as four digits.
pub open spec fn hex_reference(q: Seq<char>) -> Option<(Seq<char>, Seq<char>)> {
    match last_ws(q, q.len() as int) {
        Some(p) => match spec_parse_hex(trim(q.subrange(p + 1, q.len() as int))) {
            Some((c, r)) => Some((trim(q.subrange(0, p)), crate::route_sheet::two_wide(c) + crate::route_sheet::two_wide(r))),
            None => None,
        },
        None => None,
    }
}

/// The first of the first `k` worlds in sector `sector` (ASCII case ignored)
/// at hex `hex`.
pub open spec fn first_at_hex(ws: Seq<IndexedWorld>, sector: Seq<char>, hex: Seq<char>, k: int) -> Option<int>
    decreases k,
{
    if k <= 0 {
        None
    } else {
        match first_at_hex(ws, sector, hex, k - 1) {
            Some(i) => Some(i),
            None => if eq_ignore_case(ws[k - 1].sector@, sector) && ws[k - 1].hex@ == hex { Some(k - 1) } else { None },
        }
    }
}

/// The first of the first `k` worlds called `name` (ASCII case ignored).
pub open spec fn first_called(ws: Seq<IndexedWorld>, name: Seq<char>, k: int) -> Option<int>
    decreases k,
{
    if k <= 0 {
        None
    } else {
        match first_called(ws, name, k - 1) {
            Some(i) => Some(i),
            None => if eq_ignore_case(ws[k - 1].name@, name) { Some(k - 1) } else { None },
        }
    }
}

/// The world a route endpoint names: a `"<sector> <hex>"` reference first,
/// else a world name; nothing for an empty query.
pub open spec fn location_of(ws: Seq<IndexedWorld>, query: Seq<char>) -> Option<int> {
    let q = trim(query);
    if q.len() == 0 {
        None
    } else {
        let by_hex = match hex_reference(q) {
            Some((sector, hex)) => first_at_hex(ws, sector, hex, ws.len() as int),
            None => None,
        };
        if by_hex is Some { by_hex } else { first_called(ws, q, ws.len() as int) }
    }
}

proof fn lemma_first_at_hex_stable(ws: Seq<IndexedWorld>, sector: Seq<char>, hex: Seq<char>, k1: int, k2: int)
    requires
        0 <= k1 <= k2,
        first_at_hex(ws, sector, hex, k1) is Some,
    ensures
        first_at_hex(ws, sector, hex, k2) == first_at_hex(ws, sector, hex, k1),
    decreases k2 - k1,
{
    if k1 < k2 {
        lemma_first_at_hex_stable(ws, sector, hex, k1, k2 - 1);
    }
}

proof fn lemma_first_called_stable(ws: Seq<IndexedWorld>, name: Seq<char>, k1: int, k2: int)
    requires
        0 <= k1 <= k2,
        first_called(ws, name, k1) is Some,
    ensures
        first_called(ws, name, k2) == first_called(ws, name, k1),
    decreases k2 - k1,
{
    if k1 < k2 {
        lemma_first_called_stable(ws, name, k1, k2 - 1);
    }
}

fn find_at_hex(ws: &Vec<IndexedWorld>, sector: &str, hex: &str) -> (r: Option<usize>)
    ensures
        match r {
            Some(i) => first_at_hex(ws@, sector@, hex@, ws@.len() as int) == Some(i as int),
            None => first_at_hex(ws@, sector@, hex@, ws@.len() as int) is None,
        },
{
    let mut i: usize = 0;
    while i < ws.len()
        invariant
            i <= ws@.len(),
            first_at_hex(ws@, sector@, hex@, i as int) is None,
        decreases ws@.len() - i,
    {
        if eq_ignore_ascii_case(ws[i].sector.as_str(), sector) && str_eq(ws[i].hex.as_str(), hex) {
            proof { lemma_first_at_hex_stable(ws@, sector@, hex@, i + 1, ws@.len() as int); }
            return Some(i);
        }
        i += 1;
    }
    None
}

fn find_called(ws: &Vec<IndexedWorld>, name: &str) -> (r: Option<usize>)
    ensures
        match r {
            Some(i) => first_called(ws@, name@, ws@.len() as int) == Some(i as int),
            None => first_called(ws@, name@, ws@.len() as int) is None,
        },
{
    let mut i: usize = 0;
    while i < ws.len()
        invariant
            i <= ws@.len(),
            first_called(ws@, name@, i as int) is None,
        decreases ws@.len() - i,
    {
        if eq_ignore_ascii_case(ws[i].name.as_str(), name) {
            proof { lemma_first_called_stable(ws@, name@, i + 1, ws@.len() as int); }
            return Some(i);
        }
        i += 1;
    }
    None
}

fn last_ws_exec(q: &Vec<char>) -> (r: Option<usize>)
    ensures
        match r {
            Some(p) => last_ws(q@, q@.len() as int) == Some(p as int) && p < q@.len(),
            None => last_ws(q@, q@.len() as int) is None,
        },
{
    let mut k: usize = q.len();
    while k > 0
        invariant
            k <= q@.len(),
            last_ws(q@, q@.len() as int) == last_ws(q@, k as int),
        decreases k,
    {
        if crate::text::is_whitespace(q[k - 1]) {
            return Some(k - 1);
        }
        k -= 1;
    }
    None
}

/// Resolve a route endpoint to a world's position in the index: a
/// `"<sector> <hex>"` reference (sector name ignoring ASCII case, the hex as
/// four digits) or else a world name (ignoring ASCII case), the first match
/// in index order.
pub fn resolve_location(index: &WorldIndex, query: &str) -> (r: Option<usize>)
    ensures
        match r {
            Some(i) => location_of(index@, query@) == Some(i as int),
            None => location_of(index@, query@) is None,
        },
{
    let q = trim_chars(&chars_of(query));
    if q.len() == 0 {
        return None;
    }
    let qs = string_from_chars(&q);
    if let Some(p) = last_ws_exec(&q) {
        let sector = trim_chars(&crate::text::slice_to_vec(&q, 0, p));
        let hex = trim_chars(&crate::text::slice_to_vec(&q, p + 1, q.len()));
        if let Some((col, row)) = crate::astrometrics::parse_hex_chars(&hex) {
            let label = crate::route_sheet::hex_label(col, row);
            let sector_s = string_from_chars(&sector);
            if let Some(i) = find_at_hex(&index.worlds, sector_s.as_str(), label.as_str()) {
                return Some(i);
            }
        }
    }
    find_called(&index.worlds, qs.as_str())
}

// ── Planning a route request ────────────────────────────────────────────────

/// Why a route request has no answer (each is a not-found).
#[derive(Debug, Clone, PartialEq, Eq)]
pub enum RoutePlanError {
    /// The start names no world; carries the query.
    StartNotFound(String),
    /// The end names no world; carries the query.
    EndNotFound(String),
    /// Both are known but no route joins them.
    NoRoute,
}

impl RoutePlanError {
    /// The response text.
    pub fn message(&self) -> (s: String)
        ensures
            s@ == (match self {
                RoutePlanError::StartNotFound(q) => "start not found: "@ + q@,
                RoutePlanError::EndNotFound(q) => "end not found: "@ + q@,
                RoutePlanError::NoRoute => "no route found"@,
            }),
    {
        match self {
            RoutePlanError::StartNotFound(q) => crate::text::cat("start not found: ", q.as_str()),
            RoutePlanError::EndNotFound(q) => crate::text::cat("end not found: ", q.as_str()),
            RoutePlanError::NoRoute => "no route found".to_string(),
        }
    }
}

/// The drive rating a request's `jump` stands for: clamped into `1..=12`.
pub open spec fn clamped_drive(jump: int) -> int {
    if jump < 1 { 1 } else if jump > 12 { 12 } else { jump }
}

/// Answer a route request over the index: resolve both endpoints (see
/// [`resolve_location`]), clamp the jump into `1..=12`, and find the
/// best route between them (fewest jumps, then fewest parsecs).
pub fn plan_route(index: &WorldIndex, start: &str, end: &str, jump: i32, opts: RouteOptions) -> (r: Result<RouteResult, RoutePlanError>)
    requires
        index.well_formed(),
        12 * (index@.len() - 1) <= i32::MAX,
    ensures
        location_of(index@, start@) is None ==> (r matches Err(RoutePlanError::StartNotFound(q)) && q@ == start@),
        location_of(index@, start@) is Some && location_of(index@, end@) is None ==>
            (r matches Err(RoutePlanError::EndNotFound(q)) && q@ == end@),
        match (location_of(index@, start@), location_of(index@, end@)) {
            (Some(s), Some(e)) => {
                let j = clamped_drive(jump as int);
                match r {
                    Ok(res) => exists|p: Seq<int>| #[trigger] is_optimal_route(nodes_of(index@), s, e, j, opts, p)
                        && route_result_for(res, index@, p),
                    Err(err) => err == RoutePlanError::NoRoute && !route_exists(nodes_of(index@), s, e, j, opts),
                }
            },
            _ => true,
        },
{
    let j: i32 = if jump < 1 { 1 } else if jump > 12 { 12 } else { jump };
    let s = match resolve_location(index, start) {
        Some(s) => s,
        None => return Err(RoutePlanError::StartNotFound(string_from_chars(&chars_of(start)))),
    };
    let e = match resolve_location(index, end) {
        Some(e) => e,
        None => return Err(RoutePlanError::EndNotFound(string_from_chars(&chars_of(end)))),
    };
    proof {
        lemma_location_in_range(index@, start@);
        lemma_location_in_range(index@, end@);
        assert(j as int * (index@.len() - 1) <= 12 * (index@.len() - 1)) by (nonlinear_arith)
            requires 1 <= j <= 12, index@.len() >= 1;
    }
    assert(j as int == clamped_drive(jump as int));
    let found = index.find_route(s, e, j, opts);
    match found {
        Some(res) => {
            assert(exists|p: Seq<int>| #[trigger] is_optimal_route(nodes_of(index@), s as int, e as int, j as int, opts, p)
                && route_result_for(res, index@, p));
            Ok(res)
        },
        None => {
            assert(!route_exists(nodes_of(index@), s as int, e as int, j as int, opts));
            Err(RoutePlanError::NoRoute)
        },
    }
}

proof fn lemma_first_at_hex_range(ws: Seq<IndexedWorld>, sector: Seq<char>, hex: Seq<char>, k: int)
    requires
        0 <= k,
    ensures
        first_at_hex(ws, sector, hex, k) matches Some(i) ==> 0 <= i < k,
    decreases k,
{
    if k > 0 {
        lemma_first_at_hex_range(ws, sector, hex, k - 1);
    }
}

proof fn lemma_first_called_range(ws: Seq<IndexedWorld>, name: Seq<char>, k: int)
    requires
        0 <= k,
    ensures
        first_called(ws, name, k) matches Some(i) ==> 0 <= i < k,
    decreases k,
{
    if k > 0 {
        lemma_first_called_range(ws, name, k - 1);
    }
}

/// A resolved location is a position of the index.
pub proof fn lemma_location_in_range(ws: Seq<IndexedWorld>, query: Seq<char>)
    ensures
        location_of(ws, query) matches Some(i) ==> 0 <= i < ws.len(),
{
    let q = trim(query);
    if let Some((sector, hex)) = hex_reference(q) {
        lemma_first_at_hex_range(ws, sector, hex, ws.len() as int);
    }
    lemma_first_called_range(ws, q, ws.len() as int);
}

// ── Laws ────────────────────────────────────────────────────────────────────

/// The public stop of a waypoint showing an indexed world gives back the
/// world's sector grid position and its column and row.
pub proof fn law_public_stop_recovers_location(iw: IndexedWorld, sx: int, sy: int, sector: Seq<char>, w: World,
    subs: Seq<Subsector>, names: Seq<(Seq<char>, Seq<char>)>, wp: RouteWaypoint, stop: RouteStop)
    requires
        sector_fits(sx, sy),
        indexed_as(iw, sx, sy, sector, w, subs, names),
        waypoint_of(wp, iw),
        stop_of(stop, wp),
    ensures
        spec_parse_hex(w.hex@) == Some((stop.hex_x as int, stop.hex_y as int)),
        stop.sector_x as int == sx,
        stop.sector_y as int == sy,
        stop.name@ == w.name@ && stop.sector@ == sector,
{
    let (c, r) = spec_parse_hex(w.hex@).unwrap();
    crate::astrometrics::lemma_parse_hex_range(w.hex@);
    assert(wp.coord.x as int == sx * 32 + c);
    assert(wp.coord.y as int == sy * 40 + r);
    lemma_tdiv_multiple(sx, 32);
    lemma_tdiv_multiple(sy, 40);
}

/// Dividing `k * d` by `d` with truncation gives back `k`.
proof fn lemma_tdiv_multiple(k: int, d: int)
    requires
        d > 0,
    ensures
        crate::astrometrics::tdiv(k * d, d) == k,
{
    if k >= 0 {
        assert((k * d) / d == k) by (nonlinear_arith) requires d > 0, k >= 0;
    } else {
        assert(k * d < 0) by (nonlinear_arith) requires d > 0, k < 0;
        assert((-(k * d)) / d == -k) by (nonlinear_arith) requires d > 0, k < 0;
    }
}

} // verus!
