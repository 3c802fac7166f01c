//! Jump-route finding over a set of worlds: an A* search that minimizes the
//! number of jumps, ties broken toward fewer total parsecs.
//!
//! A route's cost is the pair (jumps, parsecs), compared jumps first. In the
//! proofs it is the integer `jumps · unit + parsecs`, with `unit` one more
//! than the parsecs any route without repeated worlds can cover, so the two
//! orders agree. The heuristic `⌈d(node, goal) / jump⌉` jumps is a consistent
//! lower bound on the jumps still needed, so the first time the goal is taken
//! from the open set its route is optimal.
use vstd::prelude::*;

use crate::astrometrics::{Coord, hex_distance_wide, spec_hex_distance};

verus! {

/// A candidate world the route may pass through.
#[derive(Debug, Clone, Copy, PartialEq, Eq, Structural)]
pub struct RouteWorld {
    /// Absolute world coordinate (parsec offsets).
    pub coord: Coord,
    /// Red travel zone.
    pub red: bool,
    /// Anomaly / deep-space object without a real UWP.
    pub anomaly: bool,
    /// Allegiance is the default Imperial allegiance.
    pub imperial: bool,
    /// Has a gas giant or surface water (wilderness refuelling).
    pub refuel: bool,
}

/// Neighbor-filtering options. Filters exclude worlds from being used as
/// intermediate stops; the start and end are always allowed.
#[derive(Debug, Clone, Copy, PartialEq, Eq, Structural)]
pub struct RouteOptions {
    pub avoid_red: bool,
    pub require_refuel: bool,
    pub imperial_only: bool,
    pub allow_anomalies: bool,
}

impl Default for RouteOptions {
    fn default() -> (o: RouteOptions)
        ensures
            !o.avoid_red && !o.require_refuel && !o.imperial_only && !o.allow_anomalies,
    {
        RouteOptions { avoid_red: false, require_refuel: false, imperial_only: false, allow_anomalies: false }
    }
}

/// May `w` be an intermediate stop under `opts`?
pub open spec fn allowed(w: RouteWorld, opts: RouteOptions) -> bool {
    &&& !(!opts.allow_anomalies && w.anomaly)
    &&& !(opts.avoid_red && w.red)
    &&& !(opts.require_refuel && !w.refuel)
    &&& !(opts.imperial_only && !w.imperial)
}

/// Hex distance between worlds `a` and `b`.
pub open spec fn dist(ws: Seq<RouteWorld>, a: int, b: int) -> int {
    spec_hex_distance(ws[a].coord, ws[b].coord)
}

/// A single jump from world `a` to a different world `b` within range.
pub open spec fn leg_ok(ws: Seq<RouteWorld>, jump: int, a: int, b: int) -> bool {
    &&& 0 <= a < ws.len()
    &&& 0 <= b < ws.len()
    &&& a != b
    &&& dist(ws, a, b) <= jump
}

/// A sequence of jumps leaving `start`, every intermediate stop allowed.
pub open spec fn is_walk(ws: Seq<RouteWorld>, start: int, jump: int, opts: RouteOptions, w: Seq<int>) -> bool {
    &&& w.len() >= 1
    &&& w[0] == start
    &&& forall|k: int| 0 <= k < w.len() ==> 0 <= #[trigger] w[k] < ws.len()
    &&& forall|k: int| 0 <= k < w.len() - 1 ==> #[trigger] walk_leg(ws, jump, w, k)
    &&& forall|k: int| 0 < k < w.len() - 1 ==> #[trigger] walk_stop(ws, opts, w, k)
}

/// The `k`-th leg of `w` is a legal jump.
pub open spec fn walk_leg(ws: Seq<RouteWorld>, jump: int, w: Seq<int>, k: int) -> bool {
    leg_ok(ws, jump, w[k], w[k + 1])
}

/// The `k`-th stop of `w` may be an intermediate stop.
pub open spec fn walk_stop(ws: Seq<RouteWorld>, opts: RouteOptions, w: Seq<int>, k: int) -> bool {
    allowed(ws[w[k]], opts)
}

/// A route from `start` to `end`: a walk that ends at `end`.
pub open spec fn is_route(ws: Seq<RouteWorld>, start: int, end: int, jump: int, opts: RouteOptions, w: Seq<int>) -> bool {
    is_walk(ws, start, jump, opts, w) && w.last() == end
}

/// Cost of a walk when a jump weighs `unit`: `unit + distance` per leg.
pub open spec fn route_cost(ws: Seq<RouteWorld>, w: Seq<int>, unit: int) -> int
    decreases w.len(),
{
    if w.len() < 2 {
        0
    } else {
        route_cost(ws, w.drop_last(), unit) + unit + dist(ws, w[w.len() - 2], w[w.len() - 1])
    }
}

/// Number of jumps of a walk.
pub open spec fn route_jumps(w: Seq<int>) -> int {
    w.len() - 1
}

/// The weight of one jump in the search: more than the parsecs of any route
/// that visits each of the worlds at most once.
pub open spec fn jump_unit(ws: Seq<RouteWorld>, jump: int) -> int {
    ws.len() * jump + 1
}

/// Total parsecs of a walk (sum of its legs' hex distances).
pub open spec fn route_parsecs(ws: Seq<RouteWorld>, w: Seq<int>) -> int
    decreases w.len(),
{
    if w.len() < 2 {
        0
    } else {
        route_parsecs(ws, w.drop_last()) + dist(ws, w[w.len() - 2], w[w.len() - 1])
    }
}

/// Lower bound on the jumps still needed from `v` to `end`.
pub open spec fn jumps_left(ws: Seq<RouteWorld>, v: int, end: int, jump: int) -> int {
    (dist(ws, v, end) + jump - 1) / jump
}

/// Lower bound on the cost still needed from `v` to `end`.
pub open spec fn heur(ws: Seq<RouteWorld>, v: int, end: int, jump: int, unit: int) -> int {
    unit * jumps_left(ws, v, end, jump)
}

/// A path of `usize` indices, as integers.
pub open spec fn ints(p: Seq<usize>) -> Seq<int> {
    p.map_values(|i: usize| i as int)
}

/// Is there any route at all?
pub open spec fn route_exists(ws: Seq<RouteWorld>, start: int, end: int, jump: int, opts: RouteOptions) -> bool {
    exists|q: Seq<int>| is_route(ws, start, end, jump, opts, q)
}

/// `w` is a route no other route beats: every route has more jumps, or as
/// many and at least as many parsecs.
pub open spec fn is_optimal_route(ws: Seq<RouteWorld>, start: int, end: int, jump: int, opts: RouteOptions, w: Seq<int>) -> bool {
    &&& is_route(ws, start, end, jump, opts, w)
    &&& forall|q: Seq<int>| #[trigger] is_route(ws, start, end, jump, opts, q) ==>
            route_jumps(w) < route_jumps(q)
            || (route_jumps(w) == route_jumps(q) && route_parsecs(ws, w) <= route_parsecs(ws, q))
}

/// `w` is a route of least cost when a jump weighs `unit`.
pub open spec fn is_cheapest_route(
    ws: Seq<RouteWorld>, start: int, end: int, jump: int, opts: RouteOptions, w: Seq<int>, unit: int,
) -> bool {
    &&& is_route(ws, start, end, jump, opts, w)
    &&& forall|q: Seq<int>| #[trigger] is_route(ws, start, end, jump, opts, q) ==> route_cost(ws, w, unit) <= route_cost(ws, q, unit)
}

/// The cost of a reached world, `(jumps, parsecs)`, as an integer.
pub open spec fn jumps_of(c: Option<(usize, u128)>) -> int {
    match c {
        Some((j, _)) => j as int,
        None => 0,
    }
}

pub open spec fn parsecs_of(c: Option<(usize, u128)>) -> int {
    match c {
        Some((_, p)) => p as int,
        None => 0,
    }
}

pub open spec fn gkey(c: Option<(usize, u128)>, unit: int) -> int {
    jumps_of(c) * unit + parsecs_of(c)
}

// ── Proof helpers ────────────────────────────────────────────────────────────

/// Splitting a walk at `k` splits its cost.
proof fn lemma_cost_split(ws: Seq<RouteWorld>, w: Seq<int>, k: int, unit: int)
    requires
        0 <= k < w.len(),
    ensures
        route_cost(ws, w, unit) == route_cost(ws, w.take(k + 1), unit) + route_cost(ws, w.subrange(k, w.len() as int), unit),
    decreases w.len(),
{
    if k == w.len() - 1 {
        assert(w.take(k + 1) =~= w);
        assert(w.subrange(k, w.len() as int).len() == 1);
    } else {
        lemma_cost_split(ws, w.drop_last(), k, unit);
        assert(w.drop_last().take(k + 1) =~= w.take(k + 1));
        let s = w.subrange(k, w.len() as int);
        assert(s.drop_last() =~= w.drop_last().subrange(k, w.drop_last().len() as int));
        assert(s[s.len() - 2] == w[w.len() - 2]);
        assert(s[s.len() - 1] == w[w.len() - 1]);
    }
}

/// The cost of a single leg.
proof fn lemma_cost_pair(ws: Seq<RouteWorld>, a: int, b: int, unit: int)
    ensures
        route_cost(ws, seq![a, b], unit) == unit + dist(ws, a, b),
{
    let s = seq![a, b];
    assert(s.drop_last() =~= seq![a]);
    assert(route_cost(ws, seq![a], unit) == 0);
}

/// Every leg costs at least `unit`, so a walk's cost grows with its length.
proof fn lemma_cost_nonneg(ws: Seq<RouteWorld>, w: Seq<int>, unit: int)
    requires
        unit >= 0,
    ensures
        route_cost(ws, w, unit) >= 0,
        w.len() >= 2 ==> route_cost(ws, w, unit) >= unit,
    decreases w.len(),
{
    if w.len() >= 2 {
        lemma_cost_nonneg(ws, w.drop_last(), unit);
        crate::astrometrics::lemma_hex_distance_nonneg(ws[w[w.len() - 2]].coord, ws[w[w.len() - 1]].coord);
    }
}

/// The heuristic is consistent across a single legal jump.
proof fn lemma_heur_step(ws: Seq<RouteWorld>, a: int, b: int, end: int, jump: int, unit: int)
    requires
        jump >= 1,
        unit >= 0,
        0 <= a < ws.len(),
        0 <= b < ws.len(),
        0 <= end < ws.len(),
        dist(ws, a, b) <= jump,
    ensures
        heur(ws, a, end, jump, unit) <= unit + dist(ws, a, b) + heur(ws, b, end, jump, unit),
{
    crate::astrometrics::law_hex_distance_triangle(ws[a].coord, ws[b].coord, ws[end].coord);
    crate::astrometrics::lemma_hex_distance_nonneg(ws[a].coord, ws[b].coord);
    crate::astrometrics::lemma_hex_distance_nonneg(ws[b].coord, ws[end].coord);
    let da = dist(ws, a, end);
    let db = dist(ws, b, end);
    assert(da <= jump + db);
    vstd::arithmetic::div_mod::lemma_div_is_ordered(da + jump - 1, jump + db + jump - 1, jump);
    vstd::arithmetic::div_mod::lemma_div_plus_one(db + jump - 1, jump);
    let ha = jumps_left(ws, a, end, jump);
    let hb = jumps_left(ws, b, end, jump);
    assert(ha <= 1 + hb);
    assert(unit * ha <= unit + unit * hb) by (nonlinear_arith)
        requires ha <= 1 + hb, unit >= 0;
}

/// The heuristic at `w[k]` never exceeds the cost of the rest of the walk plus
/// the heuristic at its end.
proof fn lemma_heur_path(ws: Seq<RouteWorld>, start: int, jump: int, opts: RouteOptions, w: Seq<int>, k: int, end: int, unit: int)
    requires
        jump >= 1,
        unit >= 0,
        0 <= end < ws.len(),
        is_walk(ws, start, jump, opts, w),
        0 <= k < w.len(),
    ensures
        heur(ws, w[k], end, jump, unit) <= route_cost(ws, w.subrange(k, w.len() as int), unit) + heur(ws, w.last(), end, jump, unit),
    decreases w.len() - k,
{
    if k < w.len() - 1 {
        lemma_heur_path(ws, start, jump, opts, w, k + 1, end, unit);
        assert(walk_leg(ws, jump, w, k));
        lemma_heur_step(ws, w[k], w[k + 1], end, jump, unit);
        let s = w.subrange(k, w.len() as int);
        lemma_cost_split(ws, s, 1, unit);
        assert(s.take(2) =~= seq![w[k], w[k + 1]]);
        assert(s.subrange(1, s.len() as int) =~= w.subrange(k + 1, w.len() as int));
        lemma_cost_pair(ws, w[k], w[k + 1], unit);
    } else {
        assert(w.subrange(k, w.len() as int).len() == 1);
    }
}

/// A prefix of a walk is a walk.
proof fn lemma_walk_prefix(ws: Seq<RouteWorld>, start: int, jump: int, opts: RouteOptions, w: Seq<int>, k: int)
    requires
        is_walk(ws, start, jump, opts, w),
        1 <= k <= w.len(),
    ensures
        is_walk(ws, start, jump, opts, w.take(k)),
{
    let p = w.take(k);
    assert forall|i: int| 0 <= i < p.len() - 1 implies #[trigger] walk_leg(ws, jump, p, i) by {
        assert(walk_leg(ws, jump, w, i));
        assert(p[i] == w[i] && p[i + 1] == w[i + 1]);
    }
    assert forall|i: int| 0 < i < p.len() - 1 implies #[trigger] walk_stop(ws, opts, p, i) by {
        assert(walk_stop(ws, opts, w, i));
        assert(p[i] == w[i]);
    }
}

/// Extending a walk whose last stop may serve as an intermediate stop.
proof fn lemma_walk_push(ws: Seq<RouteWorld>, start: int, jump: int, opts: RouteOptions, w: Seq<int>, v: int, unit: int)
    requires
        is_walk(ws, start, jump, opts, w),
        leg_ok(ws, jump, w.last(), v),
        w.len() == 1 || allowed(ws[w.last()], opts),
    ensures
        is_walk(ws, start, jump, opts, w.push(v)),
        route_cost(ws, w.push(v), unit) == route_cost(ws, w, unit) + unit + dist(ws, w.last(), v),
        route_parsecs(ws, w.push(v)) == route_parsecs(ws, w) + dist(ws, w.last(), v),
{
    let p = w.push(v);
    assert(p.drop_last() =~= w);
    assert forall|i: int| 0 <= i < p.len() - 1 implies #[trigger] walk_leg(ws, jump, p, i) by {
        if i < w.len() - 1 {
            assert(walk_leg(ws, jump, w, i));
            assert(p[i] == w[i] && p[i + 1] == w[i + 1]);
        }
    }
    assert forall|i: int| 0 < i < p.len() - 1 implies #[trigger] walk_stop(ws, opts, p, i) by {
        if i < w.len() - 1 {
            assert(walk_stop(ws, opts, w, i));
            assert(p[i] == w[i]);
        }
    }
}

/// On a walk from a closed node to a node that is not closed, some leg leaves
/// the closed set: `w[k - 1]` is closed and `w[k]` is not.
proof fn lemma_first_open(w: Seq<int>, closed: Set<int>) -> (k: int)
    requires
        w.len() >= 1,
        closed.contains(w[0]),
        !closed.contains(w.last()),
    ensures
        1 <= k < w.len(),
        closed.contains(w[k - 1]),
        !closed.contains(w[k]),
    decreases w.len(),
{
    if !closed.contains(w[w.len() - 2]) {
        let p = w.drop_last();
        let k = lemma_first_open(p, closed);
        k
    } else {
        (w.len() - 1) as int
    }
}

/// What is known of every reached world `v` (one with a cost): a witness walk
/// of exactly its cost, and its eligibility as a stop.
pub open spec fn reached_ok(
    ws: Seq<RouteWorld>, start: int, end: int, jump: int, opts: RouteOptions,
    g: Seq<Option<(usize, u128)>>, walks: Map<int, Seq<int>>, v: int, unit: int,
) -> bool {
    &&& walks.contains_key(v)
    &&& is_walk(ws, start, jump, opts, walks[v])
    &&& walks[v].last() == v
    &&& route_cost(ws, walks[v], unit) == gkey(g[v], unit)
    &&& jumps_of(g[v]) == route_jumps(walks[v])
    &&& parsecs_of(g[v]) == route_parsecs(ws, walks[v])
    &&& (v == start || v == end || allowed(ws[v], opts))
}

/// The parent link of a reached world other than the start.
pub open spec fn parent_ok(
    ws: Seq<RouteWorld>, g: Seq<Option<(usize, u128)>>, came: Seq<usize>, cset: Set<int>,
    walks: Map<int, Seq<int>>, v: int,
) -> bool {
    let p = came[v] as int;
    &&& 0 <= p < ws.len()
    &&& cset.contains(p)
    &&& g[p] is Some
    &&& (jumps_of(g[p])) < (jumps_of(g[v]))
    &&& walks[v] == walks[p].push(v)
}

/// Every walk to the closed world `x` costs at least `g[x]`.
pub open spec fn closed_optimal(
    ws: Seq<RouteWorld>, start: int, jump: int, opts: RouteOptions, g: Seq<Option<(usize, u128)>>, x: int, unit: int,
) -> bool {
    forall|q: Seq<int>| #[trigger] is_walk(ws, start, jump, opts, q) && q.last() == x ==> gkey(g[x], unit) <= route_cost(ws, q, unit)
}

/// `x` has relaxed its neighbor `v`.
pub open spec fn relaxed(
    ws: Seq<RouteWorld>, end: int, jump: int, opts: RouteOptions, g: Seq<Option<(usize, u128)>>, x: int, v: int, unit: int,
) -> bool {
    leg_ok(ws, jump, x, v) && (v == end || allowed(ws[v], opts))
        ==> g[v] is Some && gkey(g[v], unit) <= gkey(g[x], unit) + unit + dist(ws, x, v)
}

/// The state of the search between two expansions, with the neighbor
/// relaxation of `pending` (if any) covering only the worlds below `upto`.
#[verifier::opaque]
pub open spec fn search_state(
    ws: Seq<RouteWorld>, start: int, end: int, jump: int, opts: RouteOptions,
    g: Seq<Option<(usize, u128)>>, came: Seq<usize>, cset: Set<int>, walks: Map<int, Seq<int>>,
    pending: int, upto: int, unit: int,
) -> bool {
    let n = ws.len();
    &&& g.len() == n && came.len() == n
    &&& 0 <= start < n && 0 <= end < n && start != end && jump >= 1 && unit >= 1
    &&& forall|i: int| #[trigger] cset.contains(i) ==> 0 <= i < n && i != end && g[i] is Some
    &&& g[start] == Some((0usize, 0u128))
    &&& walks.contains_key(start) && walks[start] == seq![start]
    &&& forall|v: int| 0 <= v < n && (#[trigger] g[v]) is Some ==> reached_ok(ws, start, end, jump, opts, g, walks, v, unit)
    &&& forall|v: int| 0 <= v < n && v != start && (#[trigger] g[v]) is Some ==> parent_ok(ws, g, came, cset, walks, v)
    &&& forall|x: int| #[trigger] cset.contains(x) ==> closed_optimal(ws, start, jump, opts, g, x, unit)
    &&& forall|x: int, v: int| #[trigger] cset.contains(x) && x != pending && 0 <= v < n
        ==> #[trigger] relaxed(ws, end, jump, opts, g, x, v, unit)
    &&& forall|v: int| 0 <= v < upto ==> #[trigger] relaxed(ws, end, jump, opts, g, pending, v, unit)
}

/// With no open world left, the goal is unreachable.
proof fn lemma_no_route(
    ws: Seq<RouteWorld>, start: int, end: int, jump: int, opts: RouteOptions,
    g: Seq<Option<(usize, u128)>>, came: Seq<usize>, cset: Set<int>, walks: Map<int, Seq<int>>,
    unit: int,
)
    requires
        search_state(ws, start, end, jump, opts, g, came, cset, walks, -1, 0, unit),
        cset.contains(start),
        forall|x: int| 0 <= x < ws.len() ==> cset.contains(x) || g[x] is None,
    ensures
        !route_exists(ws, start, end, jump, opts),
{
    reveal(search_state);
    assert forall|q: Seq<int>| !is_route(ws, start, end, jump, opts, q) by {
        if is_route(ws, start, end, jump, opts, q) {
            let k = lemma_first_open(q, cset);
            assert(walk_leg(ws, jump, q, k - 1));
            if k < q.len() - 1 {
                assert(walk_stop(ws, opts, q, k));
            }
            assert(relaxed(ws, end, jump, opts, g, q[k - 1], q[k], unit));
        }
    }
}

/// What the state says of a closed world `x` and any world `v`.
proof fn lemma_closed_facts(
    ws: Seq<RouteWorld>, start: int, end: int, jump: int, opts: RouteOptions,
    g: Seq<Option<(usize, u128)>>, came: Seq<usize>, cset: Set<int>, walks: Map<int, Seq<int>>, x: int, v: int,
    unit: int,
)
    requires
        search_state(ws, start, end, jump, opts, g, came, cset, walks, -1, 0, unit),
        cset.contains(x),
        0 <= v < ws.len(),
    ensures
        relaxed(ws, end, jump, opts, g, x, v, unit),
        closed_optimal(ws, start, jump, opts, g, x, unit),
        0 <= x < ws.len(),
        g[x] is Some,
{
    reveal(search_state);
}

/// The open world with the smallest key has an optimal cost.
proof fn lemma_selected_optimal(
    ws: Seq<RouteWorld>, start: int, end: int, jump: int, opts: RouteOptions,
    g: Seq<Option<(usize, u128)>>, came: Seq<usize>, cset: Set<int>, walks: Map<int, Seq<int>>,
    u: int,
    unit: int,
)
    requires
        search_state(ws, start, end, jump, opts, g, came, cset, walks, -1, 0, unit),
        unit >= 1,
        0 <= u < ws.len(),
        0 <= end < ws.len(),
        jump >= 1,
        !cset.contains(u),
        g[u] is Some,
        u == start || cset.contains(start),
        forall|x: int| 0 <= x < ws.len() && !cset.contains(x) && (#[trigger] g[x]) is Some
            ==> gkey(g[u], unit) + heur(ws, u, end, jump, unit) <= gkey(g[x], unit) + heur(ws, x, end, jump, unit),
    ensures
        closed_optimal(ws, start, jump, opts, g, u, unit),
{
    assert forall|q: Seq<int>| #[trigger] is_walk(ws, start, jump, opts, q) && q.last() == u
        implies gkey(g[u], unit) <= route_cost(ws, q, unit) by {
        lemma_reached(ws, start, end, jump, opts, g, came, cset, walks, -1, 0, u, unit);
        if u == start {
            lemma_cost_nonneg(ws, q, unit);
        } else {
            let k = lemma_first_open(q, cset);
            let a = q[k - 1];
            let v = q[k];
            assert(walk_leg(ws, jump, q, k - 1));
            if k < q.len() - 1 {
                assert(walk_stop(ws, opts, q, k));
            } else {
                assert(v == u);
                lemma_reached(ws, start, end, jump, opts, g, came, cset, walks, -1, 0, u, unit);
            }
            assert(0 <= v < ws.len());
            lemma_closed_facts(ws, start, end, jump, opts, g, came, cset, walks, a, v, unit);
            assert(g[v] is Some);
            lemma_walk_prefix(ws, start, jump, opts, q, k);
            assert(q.take(k).last() == a);
            assert(gkey(g[a], unit) <= route_cost(ws, q.take(k), unit));
            lemma_cost_split(ws, q, k, unit);
            lemma_cost_split(ws, q.take(k + 1), k - 1, unit);
            assert(q.take(k + 1).take(k) =~= q.take(k));
            let mid = q.take(k + 1).subrange(k - 1, k + 1);
            assert(mid =~= seq![a, v]);
            lemma_cost_pair(ws, a, v, unit);
            lemma_heur_path(ws, start, jump, opts, q, k, end, unit);
            assert(gkey(g[u], unit) + heur(ws, u, end, jump, unit) <= gkey(g[v], unit) + heur(ws, v, end, jump, unit));
        }
    }
}

/// Closing the selected world `u` starts its relaxation.
proof fn lemma_close(
    ws: Seq<RouteWorld>, start: int, end: int, jump: int, opts: RouteOptions,
    g: Seq<Option<(usize, u128)>>, came: Seq<usize>, cset: Set<int>, walks: Map<int, Seq<int>>, u: int,
    unit: int,
)
    requires
        search_state(ws, start, end, jump, opts, g, came, cset, walks, -1, 0, unit),
        0 <= u < ws.len(),
        u != end,
        g[u] is Some,
        closed_optimal(ws, start, jump, opts, g, u, unit),
    ensures
        search_state(ws, start, end, jump, opts, g, came, cset.insert(u), walks, u, 0, unit),
        reached_ok(ws, start, end, jump, opts, g, walks, u, unit),
{
    reveal(search_state);
    let c2 = cset.insert(u);
    assert forall|v: int| 0 <= v < ws.len() && v != start && (#[trigger] g[v]) is Some
        implies parent_ok(ws, g, came, c2, walks, v) by {
        assert(parent_ok(ws, g, came, cset, walks, v));
    }
    assert forall|x: int, v: int| #[trigger] c2.contains(x) && x != u && 0 <= v < ws.len()
        implies #[trigger] relaxed(ws, end, jump, opts, g, x, v, unit) by {
        assert(cset.contains(x));
    }
}

/// A skipped world `nb` needs no relaxation from `u`: it is `u` itself, out of
/// range, barred as a stop, or already closed (and so already optimal).
proof fn lemma_relax_skip(
    ws: Seq<RouteWorld>, start: int, end: int, jump: int, opts: RouteOptions,
    g: Seq<Option<(usize, u128)>>, came: Seq<usize>, cset: Set<int>, walks: Map<int, Seq<int>>, u: int, nb: int,
    unit: int,
)
    requires
        search_state(ws, start, end, jump, opts, g, came, cset, walks, u, nb, unit),
        cset.contains(u),
        0 <= nb < ws.len(),
        nb == u || cset.contains(nb) || dist(ws, u, nb) > jump || !(nb == end || allowed(ws[nb], opts)),
    ensures
        search_state(ws, start, end, jump, opts, g, came, cset, walks, u, nb + 1, unit),
{
    reveal(search_state);
    if nb != u && cset.contains(nb) && dist(ws, u, nb) <= jump && (nb == end || allowed(ws[nb], opts)) {
        assert(reached_ok(ws, start, end, jump, opts, g, walks, u, unit));
        if u != start {
            assert(parent_ok(ws, g, came, cset, walks, u));
            assert(walks[u].len() >= 2);
        }
        lemma_walk_push(ws, start, jump, opts, walks[u], nb, unit);
        assert(walks[u].push(nb).last() == nb);
        assert(closed_optimal(ws, start, jump, opts, g, nb, unit));
    }
}

/// A neighbor already reached at no greater cost keeps its cost.
proof fn lemma_relax_keep(
    ws: Seq<RouteWorld>, start: int, end: int, jump: int, opts: RouteOptions,
    g: Seq<Option<(usize, u128)>>, came: Seq<usize>, cset: Set<int>, walks: Map<int, Seq<int>>, u: int, nb: int,
    unit: int,
)
    requires
        search_state(ws, start, end, jump, opts, g, came, cset, walks, u, nb, unit),
        0 <= nb < ws.len(),
        g[nb] is Some,
        gkey(g[nb], unit) <= gkey(g[u], unit) + unit + dist(ws, u, nb),
    ensures
        search_state(ws, start, end, jump, opts, g, came, cset, walks, u, nb + 1, unit),
{
    reveal(search_state);
}

/// What the state says of one reached world.
proof fn lemma_reached(
    ws: Seq<RouteWorld>, start: int, end: int, jump: int, opts: RouteOptions,
    g: Seq<Option<(usize, u128)>>, came: Seq<usize>, cset: Set<int>, walks: Map<int, Seq<int>>,
    pending: int, upto: int, v: int,
    unit: int,
)
    requires
        search_state(ws, start, end, jump, opts, g, came, cset, walks, pending, upto, unit),
        0 <= v < ws.len(),
        g[v] is Some,
    ensures
        reached_ok(ws, start, end, jump, opts, g, walks, v, unit),
        v != start ==> parent_ok(ws, g, came, cset, walks, v),
        v == start ==> walks[v] == seq![start],
        g[start] == Some((0usize, 0u128)),
        cset.contains(v) ==> closed_optimal(ws, start, jump, opts, g, v, unit),
        cset.contains(v) ==> v != end,
        0 <= start < ws.len(),
{
    reveal(search_state);
}

/// The walk to the open world `nb` through the closed world `u`, and its cost.
proof fn lemma_relax_walk(
    ws: Seq<RouteWorld>, start: int, end: int, jump: int, opts: RouteOptions,
    g: Seq<Option<(usize, u128)>>, came: Seq<usize>, cset: Set<int>, walks: Map<int, Seq<int>>, u: int, nb: int,
    unit: int,
)
    requires
        search_state(ws, start, end, jump, opts, g, came, cset, walks, u, nb, unit),
        0 <= u < ws.len(),
        g[u] is Some,
        cset.contains(u),
        cset.contains(start),
        !cset.contains(nb),
        0 <= nb < ws.len(),
        leg_ok(ws, jump, u, nb),
    ensures
        is_walk(ws, start, jump, opts, walks[u].push(nb)),
        walks[u].push(nb).last() == nb,
        route_cost(ws, walks[u].push(nb), unit) == gkey(g[u], unit) + unit + dist(ws, u, nb),
        route_jumps(walks[u].push(nb)) == jumps_of(g[u]) + 1,
        route_parsecs(ws, walks[u].push(nb)) == parsecs_of(g[u]) + dist(ws, u, nb),
        nb != start,
{
    lemma_reached(ws, start, end, jump, opts, g, came, cset, walks, u, nb, u, unit);
    if u != start {
        assert(walks[u].len() >= 2);
    }
    lemma_walk_push(ws, start, jump, opts, walks[u], nb, unit);
}

/// Lowering the cost of the open world `nb` to its cost through `u`.
#[verifier::rlimit(60)]
proof fn lemma_relax_update(
    ws: Seq<RouteWorld>, start: int, end: int, jump: int, opts: RouteOptions,
    g0: Seq<Option<(usize, u128)>>, came0: Seq<usize>, cset: Set<int>, walks0: Map<int, Seq<int>>,
    g: Seq<Option<(usize, u128)>>, came: Seq<usize>, walks: Map<int, Seq<int>>,
    u: int, nb: int, t: (usize, u128), uu: usize,
    unit: int,
)
    requires
        search_state(ws, start, end, jump, opts, g0, came0, cset, walks0, u, nb, unit),
        cset.contains(u),
        0 <= u < ws.len(),
        0 <= nb < ws.len(),
        !cset.contains(nb),
        leg_ok(ws, jump, u, nb),
        nb == end || allowed(ws[nb], opts),
        t.0 as int == jumps_of(g0[u]) + 1,
        t.1 as int == parsecs_of(g0[u]) + dist(ws, u, nb),
        gkey(Some(t), unit) == gkey(g0[u], unit) + unit + dist(ws, u, nb),
        g0[nb] is None || gkey(Some(t), unit) < gkey(g0[nb], unit),
        g == g0.update(nb, Some(t)),
        uu as int == u,
        came == came0.update(nb, uu),
        walks == walks0.insert(nb, walks0[u].push(nb)),
        is_walk(ws, start, jump, opts, walks0[u].push(nb)),
        walks0[u].push(nb).last() == nb,
        route_cost(ws, walks0[u].push(nb), unit) == gkey(Some(t), unit),
        route_jumps(walks0[u].push(nb)) == t.0 as int,
        route_parsecs(ws, walks0[u].push(nb)) == t.1 as int,
        nb != start,
    ensures
        search_state(ws, start, end, jump, opts, g, came, cset, walks, u, nb + 1, unit),
{
    reveal(search_state);
    crate::astrometrics::lemma_hex_distance_nonneg(ws[u].coord, ws[nb].coord);
    assert forall|v: int| 0 <= v < ws.len() && (#[trigger] g[v]) is Some
        implies reached_ok(ws, start, end, jump, opts, g, walks, v, unit) by {
        if v != nb {
            assert(g0[v] is Some);
            assert(reached_ok(ws, start, end, jump, opts, g0, walks0, v, unit));
        }
    }
    assert forall|v: int| 0 <= v < ws.len() && v != start && (#[trigger] g[v]) is Some
        implies parent_ok(ws, g, came, cset, walks, v) by {
        if v != nb {
            assert(g0[v] is Some);
            assert(parent_ok(ws, g0, came0, cset, walks0, v));
            assert(came0[v] as int != nb);
        } else {
            assert(came[v] as int == u);
            assert(g[u] == g0[u]);
        }
    }
    assert forall|x: int| #[trigger] cset.contains(x) implies closed_optimal(ws, start, jump, opts, g, x, unit) by {
        assert(x != nb);
        assert(closed_optimal(ws, start, jump, opts, g0, x, unit));
        assert(g[x] == g0[x]);
    }
    assert forall|x: int, v: int| #[trigger] cset.contains(x) && x != u && 0 <= v < ws.len()
        implies #[trigger] relaxed(ws, end, jump, opts, g, x, v, unit) by {
        assert(relaxed(ws, end, jump, opts, g0, x, v, unit));
        assert(x != nb);
    }
    assert forall|v: int| 0 <= v < nb + 1 implies #[trigger] relaxed(ws, end, jump, opts, g, u, v, unit) by {
        if v != nb {
            assert(relaxed(ws, end, jump, opts, g0, u, v, unit));
        }
    }
}

/// After relaxing every neighbor of `u`, nothing is pending.
proof fn lemma_relax_done(
    ws: Seq<RouteWorld>, start: int, end: int, jump: int, opts: RouteOptions,
    g: Seq<Option<(usize, u128)>>, came: Seq<usize>, cset: Set<int>, walks: Map<int, Seq<int>>, u: int,
    unit: int,
)
    requires
        search_state(ws, start, end, jump, opts, g, came, cset, walks, u, ws.len() as int, unit),
    ensures
        search_state(ws, start, end, jump, opts, g, came, cset, walks, -1, 0, unit),
{
    reveal(search_state);
    assert forall|x: int, v: int| #[trigger] cset.contains(x) && x != -1 && 0 <= v < ws.len()
        implies #[trigger] relaxed(ws, end, jump, opts, g, x, v, unit) by {
        if x == u {
            assert(relaxed(ws, end, jump, opts, g, u, v, unit));
        }
    }
}

/// The initial state: only the start is reached.
proof fn lemma_initial(
    ws: Seq<RouteWorld>, start: int, end: int, jump: int, opts: RouteOptions,
    g: Seq<Option<(usize, u128)>>, came: Seq<usize>,
    unit: int,
)
    requires
        g.len() == ws.len() && came.len() == ws.len(),
        0 <= start < ws.len() && 0 <= end < ws.len() && start != end && jump >= 1,
        forall|k: int| 0 <= k < ws.len() ==> (#[trigger] g[k]) == (if k == start { Some((0usize, 0u128)) } else { None }),
        unit >= 1,
    ensures
        search_state(ws, start, end, jump, opts, g, came, Set::empty(),
            Map::empty().insert(start, seq![start]), -1, 0, unit),
{
    reveal(search_state);
    let walks = Map::<int, Seq<int>>::empty().insert(start, seq![start]);
    assert forall|v: int| 0 <= v < ws.len() && (#[trigger] g[v]) is Some
        implies reached_ok(ws, start, end, jump, opts, g, walks, v, unit) by {
        assert(v == start);
        assert(jumps_of(g[v]) == 0 && parsecs_of(g[v]) == 0);
        assert(gkey(g[v], unit) == 0) by (nonlinear_arith) requires jumps_of(g[v]) == 0, parsecs_of(g[v]) == 0;
        assert(route_cost(ws, seq![start], unit) == 0);
        assert(route_parsecs(ws, seq![start]) == 0);
    }
}

/// Facts about the reached goal.
proof fn lemma_goal(
    ws: Seq<RouteWorld>, start: int, end: int, jump: int, opts: RouteOptions,
    g: Seq<Option<(usize, u128)>>, came: Seq<usize>, cset: Set<int>, walks: Map<int, Seq<int>>,
    unit: int,
)
    requires
        search_state(ws, start, end, jump, opts, g, came, cset, walks, -1, 0, unit),
        g[end] is Some,
        closed_optimal(ws, start, jump, opts, g, end, unit),
    ensures
        is_cheapest_route(ws, start, end, jump, opts, walks[end], unit),
{
    reveal(search_state);
    assert(reached_ok(ws, start, end, jump, opts, g, walks, end, unit));
}

/// Parent links, for the reconstruction.
proof fn lemma_parent(
    ws: Seq<RouteWorld>, start: int, end: int, jump: int, opts: RouteOptions,
    g: Seq<Option<(usize, u128)>>, came: Seq<usize>, cset: Set<int>, walks: Map<int, Seq<int>>, v: int,
    unit: int,
)
    requires
        search_state(ws, start, end, jump, opts, g, came, cset, walks, -1, 0, unit),
        0 <= v < ws.len(),
        g[v] is Some,
    ensures
        v != start ==> parent_ok(ws, g, came, cset, walks, v),
        v == start ==> walks[v] == seq![start],
        came.len() == ws.len(),
{
    reveal(search_state);
}

// ── The search ───────────────────────────────────────────────────────────────

/// Lexicographic order on pairs `(a, b)` agrees with the order of
/// `a · unit + b` while `b` stays below `unit`.
proof fn lemma_lex(a1: int, b1: int, a2: int, b2: int, unit: int)
    requires
        0 <= b1 < unit,
        0 <= b2 < unit,
    ensures
        (a1 < a2 || (a1 == a2 && b1 <= b2)) == (a1 * unit + b1 <= a2 * unit + b2),
        (a1 < a2 || (a1 == a2 && b1 < b2)) == (a1 * unit + b1 < a2 * unit + b2),
{
    if a1 < a2 {
        assert(a1 * unit + unit <= a2 * unit) by (nonlinear_arith) requires a1 < a2, unit >= 0;
    } else if a1 > a2 {
        assert(a2 * unit + unit <= a1 * unit) by (nonlinear_arith) requires a2 < a1, unit >= 0;
    }
}

/// The search key of a reached world plus its heuristic, compared as pairs.
proof fn lemma_f_order(ju: int, pu: int, hu: int, jx: int, px: int, hx: int, unit: int)
    requires
        0 <= pu < unit,
        0 <= px < unit,
        ju + hu < jx + hx || (ju + hu == jx + hx && pu <= px),
    ensures
        ju * unit + pu + unit * hu <= jx * unit + px + unit * hx,
{
    lemma_lex(ju + hu, pu, jx + hx, px, unit);
    assert((ju + hu) * unit == ju * unit + unit * hu) by (nonlinear_arith);
    assert((jx + hx) * unit == jx * unit + unit * hx) by (nonlinear_arith);
}

/// Parsecs within `jump` per jump, over at most `n` jumps, stay below the
/// weight of a jump.
proof fn lemma_below_unit(p: int, j: int, jump: int, n: int)
    requires
        0 <= j <= n,
        jump >= 1,
        p <= jump * j,
    ensures
        p < n * jump + 1,
{
    assert(jump * j <= n * jump) by (nonlinear_arith) requires 0 <= j <= n, jump >= 1;
}

/// One more jump of `d` parsecs.
proof fn lemma_step_key(j: int, p: int, d: int, jump: int, unit: int)
    requires
        p <= jump * j,
        d <= jump,
    ensures
        (j + 1) * unit + (p + d) == j * unit + p + unit + d,
        p + d <= jump * (j + 1),
{
    assert((j + 1) * unit == j * unit + unit) by (nonlinear_arith);
    assert(jump * (j + 1) == jump * j + jump) by (nonlinear_arith);
}

/// Heuristic: the jumps still needed at least (`⌈d / jump⌉`).
fn heuristic(a: Coord, goal: Coord, jump: i32) -> (h: u128)
    requires
        jump >= 1,
    ensures
        h as int == (spec_hex_distance(a, goal) + jump - 1) / jump as int,
        h <= 0x100_0000_0000_0000,
{
    let d = hex_distance_wide(a, goal) as u128;
    let j = jump as u128;
    let q = (d + j - 1) / j;
    assert((q as int) <= (d as int) + (j as int)) by (nonlinear_arith)
        requires (q as int) == ((d as int) + (j as int) - 1) / (j as int), j >= 1, d >= 0;
    q
}

/// Whether world `w` may serve as an intermediate stop.
fn is_allowed(w: &RouteWorld, opts: &RouteOptions) -> (b: bool)
    ensures
        b == allowed(*w, *opts),
{
    if !opts.allow_anomalies && w.anomaly {
        return false;
    }
    if opts.avoid_red && w.red {
        return false;
    }
    if opts.require_refuel && !w.refuel {
        return false;
    }
    if opts.imperial_only && !w.imperial {
        return false;
    }
    true
}

/// Find the best jump route from `worlds[start]` to `worlds[end]` with a
/// drive rating of `jump` parsecs: the world indices of the route, both
/// endpoints included, or `None` when no route exists (or an index is out of
/// range, or `jump < 1`). Among routes the fewest jumps win, then the fewest
/// parsecs.
pub fn find_route(worlds: &[RouteWorld], start: usize, end: usize, jump: i32, opts: RouteOptions) -> (r: Option<Vec<usize>>)
    ensures
        (start >= worlds@.len() || end >= worlds@.len() || jump < 1) ==> r is None,
        r matches Some(p) ==> is_optimal_route(worlds@, start as int, end as int, jump as int, opts, ints(p@)),
        (start < worlds@.len() && end < worlds@.len() && jump >= 1 && r is None) ==>
            !route_exists(worlds@, start as int, end as int, jump as int, opts),
        r matches Some(p) ==> route_by_flags(worlds@, start as int, end as int, jump as int, opts, ints(p@)),
        (start < worlds@.len() && end < worlds@.len() && jump >= 1 && r is None) ==>
            forall|q: Seq<int>| !#[trigger] route_by_flags(worlds@, start as int, end as int, jump as int, opts, q),
{
    let r = best_route(worlds, start, end, jump, opts);
    proof {
        match &r {
            Some(p) => {
                law_route_stops(worlds@, start as int, end as int, jump as int, opts, ints(p@));
            },
            None => {
                if start < worlds@.len() && end < worlds@.len() && jump >= 1 {
                    assert forall|q: Seq<int>| !#[trigger] route_by_flags(worlds@, start as int, end as int, jump as int, opts, q) by {
                        law_route_stops(worlds@, start as int, end as int, jump as int, opts, q);
                        if route_by_flags(worlds@, start as int, end as int, jump as int, opts, q) {
                            assert(is_route(worlds@, start as int, end as int, jump as int, opts, q));
                        }
                    }
                }
            },
        }
    }
    r
}

fn best_route(worlds: &[RouteWorld], start: usize, end: usize, jump: i32, opts: RouteOptions) -> (r: Option<Vec<usize>>)
    ensures
        (start >= worlds@.len() || end >= worlds@.len() || jump < 1) ==> r is None,
        r matches Some(p) ==> is_optimal_route(worlds@, start as int, end as int, jump as int, opts, ints(p@)),
        (start < worlds@.len() && end < worlds@.len() && jump >= 1 && r is None) ==>
            !route_exists(worlds@, start as int, end as int, jump as int, opts),
{
    let ghost ws = worlds@;
    if start >= worlds.len() || end >= worlds.len() || jump < 1 {
        return None;
    }
    if start == end {
        let p = vec![start];
        proof {
            let w = ints(p@);
            assert(w =~= seq![start as int]);
            assert(route_parsecs(ws, w) == 0);
            assert forall|q: Seq<int>| #[trigger] is_route(ws, start as int, end as int, jump as int, opts, q)
                implies route_jumps(w) < route_jumps(q)
                    || (route_jumps(w) == route_jumps(q) && route_parsecs(ws, w) <= route_parsecs(ws, q)) by {
                lemma_parsecs_nonneg(ws, q);
            }
        }
        return Some(p);
    }
    let n = worlds.len();
    let goal = worlds[end].coord;
    let ghost unit = jump_unit(ws, jump as int);
    proof {
        assert(unit >= 1) by (nonlinear_arith) requires unit == (n as int) * (jump as int) + 1, jump >= 1;
    }

    let mut g: Vec<Option<(usize, u128)>> = Vec::new();
    let mut came: Vec<usize> = Vec::new();
    let mut closed: Vec<bool> = Vec::new();
    let mut hs: Vec<u128> = Vec::new();
    let mut i: usize = 0;
    while i < n
        invariant
            i <= n,
            n == ws.len(),
            ws == worlds@,
            jump >= 1,
            end < n,
            goal == ws[end as int].coord,
            g@.len() == i && came@.len() == i && closed@.len() == i && hs@.len() == i,
            forall|k: int| 0 <= k < i ==> (#[trigger] g@[k]) == (if k == start { Some((0usize, 0u128)) } else { None }),
            forall|k: int| 0 <= k < i ==> !(#[trigger] closed@[k]),
            forall|k: int| 0 <= k < i ==> (#[trigger] hs@[k]) as int == jumps_left(ws, k, end as int, jump as int),
            forall|k: int| 0 <= k < i ==> (#[trigger] hs@[k]) <= 0x100_0000_0000_0000,
        decreases n - i,
    {
        g.push(if i == start { Some((0usize, 0u128)) } else { None });
        came.push(usize::MAX);
        closed.push(false);
        hs.push(heuristic(worlds[i].coord, goal, jump));
        i += 1;
    }

    let ghost mut cset: Set<int> = Set::empty();
    let ghost mut walks: Map<int, Seq<int>> = Map::empty().insert(start as int, seq![start as int]);
    proof {
        lemma_initial(ws, start as int, end as int, jump as int, opts, g@, came@, unit);
        vstd::set_lib::lemma_int_range(0, n as int);
    }

    loop
        invariant
            n == ws.len(),
            ws == worlds@,
            0 <= start < n && 0 <= end < n && start != end && jump >= 1,
            unit == jump_unit(ws, jump as int),
            unit >= 1,
            g@.len() == n && came@.len() == n && closed@.len() == n && hs@.len() == n,
            forall|k: int| 0 <= k < n ==> (#[trigger] hs@[k]) as int == jumps_left(ws, k, end as int, jump as int),
            forall|k: int| 0 <= k < n ==> (#[trigger] hs@[k]) <= 0x100_0000_0000_0000,
            search_state(ws, start as int, end as int, jump as int, opts, g@, came@, cset, walks, -1, 0, unit),
            forall|k: int| 0 <= k < n ==> (#[trigger] closed@[k] <==> cset.contains(k)),
            cset.contains(start as int) || (forall|v: int| 0 <= v < n && v != start ==> (#[trigger] g@[v]) is None),
            g@[start as int] is Some,
            cset.finite(),
            cset.subset_of(vstd::set_lib::set_int_range(0, n as int)),
            vstd::set_lib::set_int_range(0, n as int).finite(),
            vstd::set_lib::set_int_range(0, n as int).len() == n,
            forall|v: int| 0 <= v < n && (#[trigger] g@[v]) is Some ==>
                jumps_of(g@[v]) <= cset.len() && parsecs_of(g@[v]) <= (jump as int) * (jumps_of(g@[v])),
        decreases n - cset.len(),
    {
        proof {
            vstd::set_lib::lemma_len_subset(cset, vstd::set_lib::set_int_range(0, n as int));
        }
        // Pick the open world with the smallest (jumps + estimate, parsecs).
        let mut best: Option<usize> = None;
        let mut best_j: u128 = 0;
        let mut best_p: u128 = 0;
        let mut k: usize = 0;
        while k < n
            invariant
                k <= n,
                n == ws.len(),
                start < n,
                g@[start as int] is Some,
                g@.len() == n && closed@.len() == n && hs@.len() == n,
                forall|x: int| 0 <= x < n ==> (#[trigger] hs@[x]) <= 0x100_0000_0000_0000,
                best matches Some(b) ==> b < n && !closed@[b as int] && g@[b as int] is Some
                    && best_j as int == jumps_of(g@[b as int]) + hs@[b as int] as int
                    && best_p == parsecs_of(g@[b as int]),
                best is None ==> forall|x: int| 0 <= x < k ==> closed@[x] || g@[x] is None,
                best is Some ==> forall|x: int| 0 <= x < k && !closed@[x] && (#[trigger] g@[x]) is Some
                    ==> (best_j as int) < jumps_of(g@[x]) + hs@[x] as int
                        || (best_j as int == jumps_of(g@[x]) + hs@[x] as int && best_p <= parsecs_of(g@[x])),
            decreases n - k,
        {
            if !closed[k] {
                if let Some(c) = g[k] {
                    let fj = c.0 as u128 + hs[k];
                    let fp = c.1;
                    if best.is_none() || fj < best_j || (fj == best_j && fp < best_p) {
                        best = Some(k);
                        best_j = fj;
                        best_p = fp;
                    }
                }
            }
            k += 1;
        }
        let u = match best {
            None => {
                proof {
                    assert(closed@[start as int] || g@[start as int] is None);
                    assert(closed@[start as int]);
                    assert forall|x: int| 0 <= x < ws.len() implies cset.contains(x) || g@[x] is None by {
                        assert(closed@[x] || g@[x] is None);
                    }
                    lemma_no_route(ws, start as int, end as int, jump as int, opts, g@, came@, cset, walks, unit);
                }
                return None;
            },
            Some(u) => u,
        };
        let gu = match g[u] { Some(c) => c, None => (0usize, 0u128) };
        proof {
            if u != start {
                assert(closed@[start as int]);
            }
            assert forall|x: int| 0 <= x < ws.len() && !cset.contains(x) && (#[trigger] g@[x]) is Some
                implies gkey(g@[u as int], unit) + heur(ws, u as int, end as int, jump as int, unit)
                    <= gkey(g@[x], unit) + heur(ws, x, end as int, jump as int, unit) by {
                assert(!closed@[x]);
                lemma_below_unit(gu.1 as int, gu.0 as int, jump as int, n as int);
                lemma_below_unit(parsecs_of(g@[x]), jumps_of(g@[x]), jump as int, n as int);
                lemma_f_order(gu.0 as int, gu.1 as int, hs@[u as int] as int,
                    jumps_of(g@[x]), parsecs_of(g@[x]), hs@[x] as int, unit);
            }
            lemma_selected_optimal(ws, start as int, end as int, jump as int, opts, g@, came@, cset, walks, u as int, unit);
        }
        if u == end {
            proof { lemma_goal(ws, start as int, end as int, jump as int, opts, g@, came@, cset, walks, unit); }
            let p = reconstruct(worlds, start, end, jump, opts, &came, Ghost(g@), Ghost(cset), Ghost(walks), Ghost(unit));
            proof { lemma_cheapest_is_optimal(ws, start as int, end as int, jump as int, opts, ints(p@)); }
            return Some(p);
        }
        // Close `u` and relax its neighbors.
        proof {
            lemma_close(ws, start as int, end as int, jump as int, opts, g@, came@, cset, walks, u as int, unit);
            assert(!cset.contains(u as int));
            cset = cset.insert(u as int);
            assert(cset.subset_of(vstd::set_lib::set_int_range(0, n as int)));
            vstd::set_lib::lemma_len_subset(cset, vstd::set_lib::set_int_range(0, n as int));
        }
        closed.set(u, true);
        let cu = worlds[u].coord;
        let mut nb: usize = 0;
        while nb < n
            invariant
                search_state(ws, start as int, end as int, jump as int, opts, g@, came@, cset, walks, u as int, nb as int, unit),
                nb <= n,
                n == ws.len(),
                ws == worlds@,
                0 <= start < n && 0 <= end < n && start != end && jump >= 1,
                unit == jump_unit(ws, jump as int),
                unit >= 1,
                g@.len() == n && came@.len() == n && closed@.len() == n,
                forall|k: int| 0 <= k < n ==> (#[trigger] closed@[k] <==> cset.contains(k)),
                cset.contains(u as int),
                cset.contains(start as int),
                cset.len() <= n,
                g@[start as int] is Some,
                u < n,
                cu == ws[u as int].coord,
                g@[u as int] == Some(gu),
                gu.0 as int + 1 <= cset.len(),
                gu.1 as int <= (jump as int) * (gu.0 as int),
                forall|v: int| 0 <= v < n && (#[trigger] g@[v]) is Some ==>
                    jumps_of(g@[v]) <= cset.len() && parsecs_of(g@[v]) <= (jump as int) * (jumps_of(g@[v])),
            decreases n - nb,
        {
            let ghost g0 = g@;
            let ghost came0 = came@;
            let ghost walks0 = walks;
            let d = hex_distance_wide(cu, worlds[nb].coord);
            if nb != u && !closed[nb] && d <= jump as i64
                && (nb == end || is_allowed(&worlds[nb], &opts)) {
                proof {
                    lemma_step_key(gu.0 as int, gu.1 as int, d as int, jump as int, unit);
                    assert((jump as int) * (gu.0 as int + 1) < 0x1_0000_0000_0000_0000_0000_0000_0000) by (nonlinear_arith)
                        requires gu.0 as int + 1 <= n, n <= usize::MAX, jump <= i32::MAX, jump >= 1;
                    lemma_below_unit(gu.1 as int + d as int, gu.0 as int + 1, jump as int, n as int);
                }
                let tj = gu.0 + 1;
                let tp = gu.1 + d as u128;
                let better = match g[nb] {
                    None => true,
                    Some(c) => tj < c.0 || (tj == c.0 && tp < c.1),
                };
                proof {
                    if let Some(c) = g@[nb as int] {
                        lemma_below_unit(c.1 as int, c.0 as int, jump as int, n as int);
                        lemma_lex(tj as int, tp as int, c.0 as int, c.1 as int, unit);
                        lemma_lex(c.0 as int, c.1 as int, tj as int, tp as int, unit);
                    }
                    assert(gkey(Some((tj, tp)), unit) == gkey(g@[u as int], unit) + unit + d as int);
                }
                if better {
                    proof {
                        lemma_relax_walk(ws, start as int, end as int, jump as int, opts, g@, came@, cset, walks, u as int, nb as int, unit);
                        assert(!cset.contains(nb as int));
                        walks = walks.insert(nb as int, walks[u as int].push(nb as int));
                    }
                    g.set(nb, Some((tj, tp)));
                    came.set(nb, u);
                    proof {
                        lemma_relax_update(ws, start as int, end as int, jump as int, opts, g0, came0, cset, walks0,
                            g@, came@, walks, u as int, nb as int, (tj, tp), u, unit);
                    }
                } else {
                    proof {
                        lemma_relax_keep(ws, start as int, end as int, jump as int, opts, g@, came@, cset, walks, u as int, nb as int, unit);
                    }
                }
            } else {
                proof {
                    lemma_relax_skip(ws, start as int, end as int, jump as int, opts, g@, came@, cset, walks, u as int, nb as int, unit);
                }
            }
            nb += 1;
        }
        proof {
            lemma_relax_done(ws, start as int, end as int, jump as int, opts, g@, came@, cset, walks, u as int, unit);
        }
    }
}

/// Follow the parent links back from the goal.
fn reconstruct(
    worlds: &[RouteWorld],
    start: usize,
    end: usize,
    jump: i32,
    opts: RouteOptions,
    came: &Vec<usize>,
    Ghost(g): Ghost<Seq<Option<(usize, u128)>>>,
    Ghost(cset): Ghost<Set<int>>,
    Ghost(walks): Ghost<Map<int, Seq<int>>>,
    Ghost(unit): Ghost<int>,
) -> (p: Vec<usize>)
    requires
        search_state(worlds@, start as int, end as int, jump as int, opts, g, came@, cset, walks, -1, 0, unit),
        start < worlds@.len(),
        end < worlds@.len(),
        g[end as int] is Some,
    ensures
        ints(p@) == walks[end as int],
{
    let ghost ws = worlds@;
    let mut rev: Vec<usize> = Vec::new();
    rev.push(end);
    let mut node = end;
    let ghost mut tail: Seq<int> = Seq::empty();
    proof {
        lemma_parent(ws, start as int, end as int, jump as int, opts, g, came@, cset, walks, end as int, unit);
        assert(ints(rev@) =~= (seq![node as int] + tail).reverse());
        assert(walks[end as int] =~= walks[node as int] + tail);
    }
    while node != start
        invariant
            search_state(ws, start as int, end as int, jump as int, opts, g, came@, cset, walks, -1, 0, unit),
            came@.len() == ws.len(),
            start < ws.len(),
            0 <= node < ws.len(),
            g[node as int] is Some,
            walks[end as int] == walks[node as int] + tail,
            ints(rev@) == (seq![node as int] + tail).reverse(),
        decreases jumps_of(g[node as int]),
    {
        proof {
            lemma_parent(ws, start as int, end as int, jump as int, opts, g, came@, cset, walks, node as int, unit);
        }
        let prev = came[node];
        let ghost old_rev = ints(rev@);
        let ghost old_tail = tail;
        let ghost old_node = node as int;
        proof {
            assert(parent_ok(ws, g, came@, cset, walks, node as int));
            tail = seq![node as int] + tail;
        }
        rev.push(prev);
        node = prev;
        proof {
            assert(ints(rev@) =~= old_rev.push(prev as int));
            assert((seq![node as int] + tail).reverse() =~= (seq![old_node] + old_tail).reverse().push(prev as int));
            assert(ints(rev@) =~= (seq![node as int] + tail).reverse());
            assert(walks[end as int] =~= walks[node as int] + tail);
        }
    }
    proof {
        lemma_parent(ws, start as int, end as int, jump as int, opts, g, came@, cset, walks, start as int, unit);
    }
    let mut out: Vec<usize> = Vec::new();
    let mut k = rev.len();
    while k > 0
        invariant
            k <= rev@.len(),
            ints(out@) == ints(rev@).reverse().take((rev@.len() - k) as int),
        decreases k,
    {
        k -= 1;
        let ghost old_out = ints(out@);
        out.push(rev[k]);
        assert(ints(out@) =~= old_out.push(rev@[k as int] as int));
        assert(ints(rev@).reverse()[(rev@.len() - 1 - k) as int] == rev@[k as int] as int);
        assert(ints(out@) =~= ints(rev@).reverse().take((rev@.len() - k) as int));
    }
    proof {
        assert(ints(rev@).reverse().take(rev@.len() as int) =~= ints(rev@).reverse());
        assert((seq![start as int] + tail).reverse().reverse() =~= seq![start as int] + tail);
    }
    out
}

/// Total path length in parsecs (sum of per-jump hex distances) for a route.
pub fn path_parsecs(worlds: &[RouteWorld], path: &[usize]) -> (d: i32)
    requires
        forall|k: int| 0 <= k < path@.len() ==> (#[trigger] path@[k]) < worlds@.len(),
        route_parsecs(worlds@, ints(path@)) <= i32::MAX,
    ensures
        d as int == route_parsecs(worlds@, ints(path@)),
{
    if path.len() < 2 {
        return 0;
    }
    let mut total: i128 = 0;
    let mut k: usize = 1;
    proof {
        assert(ints(path@).take(1).len() == 1);
    }
    while k < path.len()
        invariant
            1 <= k <= path@.len(),
            forall|x: int| 0 <= x < path@.len() ==> (#[trigger] path@[x]) < worlds@.len(),
            total as int == route_parsecs(worlds@, ints(path@).take(k as int)),
            0 <= total <= 0x8_0000_0000 * k,
        decreases path@.len() - k,
    {
        let d = hex_distance_wide(worlds[path[k - 1]].coord, worlds[path[k]].coord);
        proof {
            let t = ints(path@).take(k + 1);
            assert(t.drop_last() =~= ints(path@).take(k as int));
        }
        total = total + d as i128;
        k += 1;
    }
    proof {
        assert(ints(path@).take(path@.len() as int) =~= ints(path@));
    }
    total as i32
}

// ── Optimal routes are simple ───────────────────────────────────────────────

/// Cutting the loop `w[a..b]` out of a route whose stops `a` and `b` are the
/// same world leaves a route.
#[verifier::rlimit(40)]
proof fn lemma_cut_loop(ws: Seq<RouteWorld>, start: int, end: int, jump: int, opts: RouteOptions, w: Seq<int>, a: int, b: int, unit: int)
    requires
        is_route(ws, start, end, jump, opts, w),
        0 <= a < b < w.len(),
        w[a] == w[b],
    ensures
        is_route(ws, start, end, jump, opts, w.take(a) + w.subrange(b, w.len() as int)),
        route_cost(ws, w, unit) == route_cost(ws, w.take(a) + w.subrange(b, w.len() as int), unit)
            + route_cost(ws, w.subrange(a, b + 1), unit),
{
    let q = w.take(a) + w.subrange(b, w.len() as int);
    let n = w.len() as int;
    assert(q.len() == a + n - b);
    assert forall|k: int| 0 <= k < q.len() implies q[k] == (if k < a { w[k] } else { w[b + k - a] }) by {}
    assert(q[0] == start) by {
        if a == 0 { assert(q[0] == w[b]); }
    }
    assert(q.last() == end);
    assert forall|k: int| 0 <= k < q.len() implies 0 <= #[trigger] q[k] < ws.len() by {
        if k < a { assert(0 <= w[k] < ws.len()); } else { assert(0 <= w[b + k - a] < ws.len()); }
    }
    assert forall|k: int| 0 <= k < q.len() - 1 implies #[trigger] walk_leg(ws, jump, q, k) by {
        if k + 1 < a {
            assert(walk_leg(ws, jump, w, k));
        } else if k + 1 == a {
            assert(walk_leg(ws, jump, w, k));
            assert(q[k + 1] == w[b]);
        } else {
            assert(walk_leg(ws, jump, w, b + k - a));
            assert(q[k] == w[b + k - a] && q[k + 1] == w[b + k - a + 1]);
        }
    }
    assert forall|k: int| 0 < k < q.len() - 1 implies #[trigger] walk_stop(ws, opts, q, k) by {
        if k < a {
            assert(walk_stop(ws, opts, w, k));
        } else {
            assert(walk_stop(ws, opts, w, b + k - a));
        }
    }
    // cost(w) = cost(w[..=a]) + cost(w[a..]);  cost(w[a..]) = cost(w[a..=b]) + cost(w[b..])
    lemma_cost_split(ws, w, a, unit);
    let tail = w.subrange(a, n);
    lemma_cost_split(ws, tail, b - a, unit);
    assert(tail.take(b - a + 1) =~= w.subrange(a, b + 1));
    assert(tail.subrange(b - a, tail.len() as int) =~= w.subrange(b, n));
    // cost(q) = cost(q[..=a]) + cost(q[a..]) = cost(w[..=a]) + cost(w[b..])
    lemma_cost_split(ws, q, a, unit);
    assert(q.take(a + 1) =~= w.take(a + 1));
    assert(q.subrange(a, q.len() as int) =~= w.subrange(b, n));
}

/// A walk's cost is `unit` per jump plus its parsecs.
proof fn lemma_cost_decomp(ws: Seq<RouteWorld>, w: Seq<int>, unit: int)
    requires
        w.len() >= 1,
    ensures
        route_cost(ws, w, unit) == unit * route_jumps(w) + route_parsecs(ws, w),
    decreases w.len(),
{
    if w.len() >= 2 {
        lemma_cost_decomp(ws, w.drop_last(), unit);
        let j = route_jumps(w);
        assert(unit * j == unit * (j - 1) + unit) by (nonlinear_arith);
    } else {
        assert(unit * route_jumps(w) == 0) by (nonlinear_arith) requires route_jumps(w) == 0;
    }
}

/// A route that visits a world twice is not the cheapest when a jump weighs
/// at least 1.
proof fn lemma_cheapest_route_is_simple(
    ws: Seq<RouteWorld>, start: int, end: int, jump: int, opts: RouteOptions, w: Seq<int>, unit: int,
)
    requires
        is_cheapest_route(ws, start, end, jump, opts, w, unit),
        unit >= 1,
    ensures
        w.no_duplicates(),
{
    assert forall|a: int, b: int| 0 <= a < w.len() && 0 <= b < w.len() && a != b implies w[a] != w[b] by {
        if w[a] == w[b] {
            let (lo, hi) = if a < b { (a, b) } else { (b, a) };
            lemma_cut_loop(ws, start, end, jump, opts, w, lo, hi, unit);
            let q = w.take(lo) + w.subrange(hi, w.len() as int);
            lemma_cost_nonneg(ws, w.subrange(lo, hi + 1), unit);
            assert(route_cost(ws, w, unit) <= route_cost(ws, q, unit));
        }
    }
}

/// An optimal route never visits a world twice.
pub proof fn law_optimal_route_is_simple(ws: Seq<RouteWorld>, start: int, end: int, jump: int, opts: RouteOptions, w: Seq<int>)
    requires
        is_optimal_route(ws, start, end, jump, opts, w),
    ensures
        w.no_duplicates(),
{
    assert forall|a: int, b: int| 0 <= a < w.len() && 0 <= b < w.len() && a != b implies w[a] != w[b] by {
        if w[a] == w[b] {
            let (lo, hi) = if a < b { (a, b) } else { (b, a) };
            lemma_cut_loop(ws, start, end, jump, opts, w, lo, hi, 1);
            let q = w.take(lo) + w.subrange(hi, w.len() as int);
            assert(is_route(ws, start, end, jump, opts, q));
        }
    }
}

/// With a jump weighing `jump_unit`, a cheapest route has the fewest jumps,
/// and among those the fewest parsecs.
proof fn lemma_cheapest_is_optimal(ws: Seq<RouteWorld>, start: int, end: int, jump: int, opts: RouteOptions, w: Seq<int>)
    requires
        is_cheapest_route(ws, start, end, jump, opts, w, jump_unit(ws, jump)),
        jump >= 1,
    ensures
        is_optimal_route(ws, start, end, jump, opts, w),
{
    let unit = jump_unit(ws, jump);
    let n = ws.len() as int;
    assert(unit >= 1) by (nonlinear_arith) requires unit == n * jump + 1, n >= 0, jump >= 1;
    lemma_cheapest_route_is_simple(ws, start, end, jump, opts, w, unit);
    lemma_simple_route_len(ws, w);
    lemma_parsecs_nonneg(ws, w);
    lemma_cost_decomp(ws, w, unit);
    assert forall|q: Seq<int>| #[trigger] is_route(ws, start, end, jump, opts, q) implies
        route_jumps(w) < route_jumps(q)
        || (route_jumps(w) == route_jumps(q) && route_parsecs(ws, w) <= route_parsecs(ws, q)) by {
        lemma_cost_decomp(ws, q, unit);
        lemma_parsecs_per_leg(ws, start, jump, opts, q);
        lemma_parsecs_nonneg(ws, q);
        let jw = route_jumps(w);
        let jq = route_jumps(q);
        let pw = route_parsecs(ws, w);
        let pq = route_parsecs(ws, q);
        assert(unit * jw + pw <= unit * jq + pq);
        if jq < jw {
            assert(pq <= jump * jq);
            assert(jq <= n - 2);
            assert(false) by (nonlinear_arith)
                requires unit * jw + pw <= unit * jq + pq, pq <= jump * jq, jq <= n - 2, jq < jw, pw >= 0,
                    unit == n * jump + 1, jump >= 1, jq >= 0;
        } else if jq == jw {
            assert(unit * jw == unit * jq);
        }
    }
}

/// A route of distinct worlds among `ws` has at most `ws.len()` stops.
proof fn lemma_simple_route_len(ws: Seq<RouteWorld>, w: Seq<int>)
    requires
        w.no_duplicates(),
        forall|k: int| 0 <= k < w.len() ==> 0 <= #[trigger] w[k] < ws.len(),
    ensures
        w.len() <= ws.len(),
{
    w.unique_seq_to_set();
    vstd::set_lib::lemma_int_range(0, ws.len() as int);
    assert(w.to_set().subset_of(vstd::set_lib::set_int_range(0, ws.len() as int))) by {
        assert forall|x: int| w.to_set().contains(x) implies vstd::set_lib::set_int_range(0, ws.len() as int).contains(x) by {
            let k = choose|k: int| 0 <= k < w.len() && w[k] == x;
            assert(0 <= w[k] < ws.len());
        }
    }
    vstd::set_lib::lemma_len_subset(w.to_set(), vstd::set_lib::set_int_range(0, ws.len() as int));
}

/// Every leg of a walk is at most `jump` parsecs, so its length is at most
/// `jump` per leg.
proof fn lemma_parsecs_per_leg(ws: Seq<RouteWorld>, start: int, jump: int, opts: RouteOptions, w: Seq<int>)
    requires
        is_walk(ws, start, jump, opts, w),
    ensures
        route_parsecs(ws, w) <= jump * (w.len() - 1),
    decreases w.len(),
{
    if w.len() >= 2 {
        lemma_walk_prefix(ws, start, jump, opts, w, w.len() - 1);
        assert(w.take(w.len() - 1) =~= w.drop_last());
        lemma_parsecs_per_leg(ws, start, jump, opts, w.drop_last());
        assert(walk_leg(ws, jump, w, w.len() - 2));
        let m = w.len() - 1;
        assert(dist(ws, w[m - 1], w[m]) <= jump);
        assert(route_parsecs(ws, w) == route_parsecs(ws, w.drop_last()) + dist(ws, w[m - 1], w[m]));
        assert(w.drop_last().len() - 1 == m - 1);
        assert(jump * m == jump * (m - 1) + jump) by (nonlinear_arith);
    } else {
        assert(jump * (w.len() - 1) == 0) by (nonlinear_arith) requires w.len() == 1;
    }
}

/// An optimal route among `ws` is at most `jump` parsecs per world of `ws`.
pub proof fn lemma_optimal_route_parsecs(ws: Seq<RouteWorld>, start: int, end: int, jump: int, opts: RouteOptions, w: Seq<int>)
    requires
        is_optimal_route(ws, start, end, jump, opts, w),
        jump >= 1,
    ensures
        w.len() <= ws.len(),
        0 <= route_parsecs(ws, w) <= jump * (ws.len() - 1),
{
    law_optimal_route_is_simple(ws, start, end, jump, opts, w);
    lemma_simple_route_len(ws, w);
    lemma_parsecs_per_leg(ws, start, jump, opts, w);
    lemma_parsecs_nonneg(ws, w);
    assert(jump * (w.len() - 1) <= jump * (ws.len() - 1)) by (nonlinear_arith)
        requires jump >= 1, w.len() <= ws.len();
}

proof fn lemma_parsecs_nonneg(ws: Seq<RouteWorld>, w: Seq<int>)
    ensures
        route_parsecs(ws, w) >= 0,
    decreases w.len(),
{
    if w.len() >= 2 {
        lemma_parsecs_nonneg(ws, w.drop_last());
        crate::astrometrics::lemma_hex_distance_nonneg(ws[w[w.len() - 2]].coord, ws[w[w.len() - 1]].coord);
    }
}

/// A walk's parsecs, counted from its first leg.
proof fn lemma_parsecs_front(ws: Seq<RouteWorld>, w: Seq<int>)
    requires
        w.len() >= 2,
    ensures
        route_parsecs(ws, w) == dist(ws, w[0], w[1]) + route_parsecs(ws, w.drop_first()),
    decreases w.len(),
{
    if w.len() == 2 {
        assert(route_parsecs(ws, w.drop_last()) == 0);
        assert(route_parsecs(ws, w.drop_first()) == 0);
        assert(w[w.len() - 2] == w[0] && w[w.len() - 1] == w[1]);
    } else {
        let p = w.drop_last();
        lemma_parsecs_front(ws, p);
        assert(p[0] == w[0] && p[1] == w[1]);
        assert(p.drop_first() =~= w.drop_first().drop_last());
        let d = w.drop_first();
        assert(d[d.len() - 2] == w[w.len() - 2] && d[d.len() - 1] == w[w.len() - 1]);
        assert(route_parsecs(ws, d) == route_parsecs(ws, d.drop_last()) + dist(ws, d[d.len() - 2], d[d.len() - 1]));
    }
}

/// Travelling a route backwards covers the same parsecs.
pub proof fn law_reverse_parsecs(ws: Seq<RouteWorld>, w: Seq<int>)
    ensures
        route_parsecs(ws, w.reverse()) == route_parsecs(ws, w),
    decreases w.len(),
{
    if w.len() >= 2 {
        let r = w.reverse();
        law_reverse_parsecs(ws, w.drop_first());
        assert(r.drop_last() =~= w.drop_first().reverse());
        assert(r[r.len() - 2] == w[1] && r[r.len() - 1] == w[0]);
        crate::astrometrics::law_hex_distance_symmetric(ws[w[1]].coord, ws[w[0]].coord);
        lemma_parsecs_front(ws, w);
    }
}

/// The parsecs of a path (what [`path_parsecs`] returns): none for a path
/// of at most one stop; otherwise its legs' hex distances added up, counted
/// from either end; never negative, and the same for the path reversed.
pub proof fn law_path_parsecs(ws: Seq<RouteWorld>, w: Seq<int>)
    ensures
        w.len() <= 1 ==> route_parsecs(ws, w) == 0,
        w.len() >= 2 ==> route_parsecs(ws, w) == route_parsecs(ws, w.drop_last()) + dist(ws, w[w.len() - 2], w[w.len() - 1]),
        w.len() >= 2 ==> route_parsecs(ws, w) == dist(ws, w[0], w[1]) + route_parsecs(ws, w.drop_first()),
        route_parsecs(ws, w) >= 0,
        route_parsecs(ws, w.reverse()) == route_parsecs(ws, w),
{
    if w.len() >= 2 {
        lemma_parsecs_front(ws, w);
    }
    lemma_parsecs_nonneg(ws, w);
    law_reverse_parsecs(ws, w);
}

/// A world a ship may stop at on the way under `opts`, on its own flags:
/// not an anomaly unless anomalies are allowed, not red when red zones are
/// avoided, able to refuel in the wilderness when refuelling is required,
/// and Imperial when only Imperial worlds may be used.
pub open spec fn stop_flags_ok(w: RouteWorld, opts: RouteOptions) -> bool {
    &&& (opts.require_refuel ==> w.refuel)
    &&& (opts.avoid_red ==> !w.red)
    &&& (opts.imperial_only ==> w.imperial)
    &&& (!opts.allow_anomalies ==> !w.anomaly)
}

/// A route spelled out on the worlds themselves: it starts at `start` and
/// ends at `end`, every stop is a world, every jump goes to a different world
/// at most `jump` parsecs away, and every stop between the endpoints
/// satisfies [`stop_flags_ok`].
pub open spec fn route_by_flags(ws: Seq<RouteWorld>, start: int, end: int, jump: int, opts: RouteOptions, q: Seq<int>) -> bool {
    &&& q.len() >= 1 && q[0] == start && q.last() == end
    &&& forall|k: int| 0 <= k < q.len() ==> 0 <= #[trigger] q[k] < ws.len()
    &&& forall|k: int| 0 <= k < q.len() - 1 ==> #[trigger] hop_ok(ws, jump, q, k)
    &&& forall|k: int| 0 < k < q.len() - 1 ==> stop_flags_ok(#[trigger] ws[q[k]], opts)
}

/// The `k`-th jump of `q` goes to a different world at most `jump` parsecs
/// away.
pub open spec fn hop_ok(ws: Seq<RouteWorld>, jump: int, q: Seq<int>, k: int) -> bool {
    q[k] != q[k + 1] && spec_hex_distance(ws[q[k]].coord, ws[q[k + 1]].coord) <= jump
}

proof fn lemma_route_to_flags(ws: Seq<RouteWorld>, start: int, end: int, jump: int, opts: RouteOptions, q: Seq<int>)
    requires
        is_route(ws, start, end, jump, opts, q),
    ensures
        route_by_flags(ws, start, end, jump, opts, q),
{
    assert forall|k: int| 0 <= k < q.len() - 1 implies #[trigger] hop_ok(ws, jump, q, k) by {
        assert(walk_leg(ws, jump, q, k));
    }
    assert forall|k: int| 0 < k < q.len() - 1 implies stop_flags_ok(#[trigger] ws[q[k]], opts) by {
        assert(walk_stop(ws, opts, q, k));
    }
}

proof fn lemma_flags_to_route(ws: Seq<RouteWorld>, start: int, end: int, jump: int, opts: RouteOptions, q: Seq<int>)
    requires
        route_by_flags(ws, start, end, jump, opts, q),
    ensures
        is_route(ws, start, end, jump, opts, q),
{
    assert forall|k: int| 0 <= k < q.len() - 1 implies #[trigger] walk_leg(ws, jump, q, k) by {
        assert(0 <= q[k] < ws.len() && 0 <= q[k + 1] < ws.len());
        assert(hop_ok(ws, jump, q, k));
    }
    assert forall|k: int| 0 < k < q.len() - 1 implies #[trigger] walk_stop(ws, opts, q, k) by {
        assert(stop_flags_ok(ws[q[k]], opts));
    }
}

/// The routes [`find_route`] chooses among are exactly the routes spelled
/// out on the worlds' own flags ([`route_by_flags`]).
pub proof fn law_route_stops(ws: Seq<RouteWorld>, start: int, end: int, jump: int, opts: RouteOptions, q: Seq<int>)
    ensures
        is_route(ws, start, end, jump, opts, q) <==> route_by_flags(ws, start, end, jump, opts, q),
{
    if is_route(ws, start, end, jump, opts, q) {
        lemma_route_to_flags(ws, start, end, jump, opts, q);
    }
    if route_by_flags(ws, start, end, jump, opts, q) {
        lemma_flags_to_route(ws, start, end, jump, opts, q);
    }
}

/// What [`find_route`] returns obeys the options at every stop between the
/// endpoints: with refuelling required every such stop can refuel, with red
/// zones avoided none is red, with only Imperial worlds allowed each is
/// Imperial, and without anomalies allowed none is an anomaly.
pub proof fn law_best_route_stops(ws: Seq<RouteWorld>, start: int, end: int, jump: int, opts: RouteOptions, w: Seq<int>)
    requires
        is_optimal_route(ws, start, end, jump, opts, w),
    ensures
        forall|k: int| 0 < k < w.len() - 1 ==> (opts.require_refuel ==> (#[trigger] ws[w[k]]).refuel)
            && (opts.avoid_red ==> !ws[w[k]].red)
            && (opts.imperial_only ==> ws[w[k]].imperial)
            && (!opts.allow_anomalies ==> !ws[w[k]].anomaly),
{
    law_route_stops(ws, start, end, jump, opts, w);
    assert forall|k: int| 0 < k < w.len() - 1 implies (opts.require_refuel ==> (#[trigger] ws[w[k]]).refuel)
        && (opts.avoid_red ==> !ws[w[k]].red)
        && (opts.imperial_only ==> ws[w[k]].imperial)
        && (!opts.allow_anomalies ==> !ws[w[k]].anomaly) by {
        assert(stop_flags_ok(ws[w[k]], opts));
    }
}

} // verus!
