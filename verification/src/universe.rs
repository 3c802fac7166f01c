//! Which sectors make up a milieu, and in what order: the sectors the milieu
//! list's metafiles name (the first at each grid position), then loose sector
//! files for positions and names not yet taken, sorted by name.
use vstd::prelude::*;

use crate::dto::SectorIndexEntry;
use crate::text::{chars_of, string_from_chars, str_eq, trim, trim_chars, split_on, split_chars, lemma_split_on_len};
use crate::requests::{eq_ignore_case, eq_ignore_ascii_case};
use crate::searchlang::{spec_lowercase, to_lowercase};
use crate::code_tables::{key_order, by_code, order_ints, sorted_by_key, law_key_order, sorted_rearrangement,
    lemma_by_code};

verus! {

// ── Metafile tags ───────────────────────────────────────────────────────────

/// The first non-blank comma-separated tag, trimmed.
pub open spec fn first_tag(pieces: Seq<Seq<char>>) -> Option<Seq<char>>
    decreases pieces.len(),
{
    if pieces.len() == 0 {
        None
    } else if trim(pieces[0]).len() > 0 {
        Some(trim(pieces[0]))
    } else {
        first_tag(pieces.drop_first())
    }
}

/// The tag a milieu-list entry gives its sectors: the first non-blank of its
/// comma-separated tags, trimmed.
pub fn metafile_tag(tags: &str) -> (r: Option<String>)
    ensures
        crate::parse::opt_string_view(r) == first_tag(split_on(tags@, ',')),
{
    let pieces = split_chars(chars_of(tags).as_slice(), ',');
    let ghost pv = pieces@.map_values(|v: Vec<char>| v@);
    let mut i: usize = 0;
    assert(pv.subrange(0, pv.len() as int) =~= pv);
    assert(pv == split_on(tags@, ','));
    while i < pieces.len()
        invariant
            i <= pieces@.len(),
            pv == pieces@.map_values(|v: Vec<char>| v@),
            pv == split_on(tags@, ','),
            first_tag(pv) == first_tag(pv.subrange(i as int, pv.len() as int)),
        decreases pieces@.len() - i,
    {
        let ghost rest = pv.subrange(i as int, pv.len() as int);
        assert(rest[0] == pieces@[i as int]@);
        assert(rest.drop_first() =~= pv.subrange(i + 1, pv.len() as int));
        let t = trim_chars(&pieces[i]);
        if t.len() > 0 {
            return Some(string_from_chars(&t));
        }
        i += 1;
    }
    None
}

/// Some comma-separated tag is `meta`.
pub open spec fn tagged_meta(tags: Seq<char>) -> bool {
    exists|i: int| 0 <= i < split_on(tags, ',').len() && trim(#[trigger] split_on(tags, ',')[i]) == "meta"@
}

/// Is a milieu-list entry a `meta` metafile (a legend, not sectors)?
pub fn is_meta_metafile(tags: &str) -> (b: bool)
    ensures
        b == tagged_meta(tags@),
{
    let pieces = split_chars(chars_of(tags).as_slice(), ',');
    let ghost pv = pieces@.map_values(|v: Vec<char>| v@);
    assert(pv == split_on(tags@, ','));
    let mut i: usize = 0;
    while i < pieces.len()
        invariant
            i <= pieces@.len(),
            pv == pieces@.map_values(|v: Vec<char>| v@),
            pv == split_on(tags@, ','),
            forall|j: int| 0 <= j < i ==> trim(#[trigger] pv[j]) != "meta"@,
        decreases pieces@.len() - i,
    {
        let t = string_from_chars(&trim_chars(&pieces[i]));
        if str_eq(t.as_str(), "meta") {
            assert(trim(pv[i as int]) == "meta"@);
            return true;
        }
        i += 1;
    }
    false
}

/// The milieu a sector belongs to: the one it names, else `M1105`.
pub open spec fn canonical_milieu(e: SectorIndexEntry) -> Seq<char> {
    match e.milieu {
        Some(m) => m@,
        None => "M1105"@,
    }
}

/// Does the sector belong to `milieu` (ASCII case ignored)?
pub fn in_milieu(e: &SectorIndexEntry, milieu: &str) -> (b: bool)
    ensures
        b == eq_ignore_case(canonical_milieu(*e), milieu@),
{
    match &e.milieu {
        Some(m) => eq_ignore_ascii_case(m.as_str(), milieu),
        None => eq_ignore_ascii_case("M1105", milieu),
    }
}

// ── The sector list ─────────────────────────────────────────────────────────

pub open spec fn same_position(a: SectorIndexEntry, b: SectorIndexEntry) -> bool {
    a.location.x == b.location.x && a.location.y == b.location.y
}

/// Some sector of `es` sits where `e` does.
pub open spec fn position_taken(es: Seq<SectorIndexEntry>, e: SectorIndexEntry) -> bool {
    exists|i: int| 0 <= i < es.len() && same_position(#[trigger] es[i], e)
}

/// The first listed sector at each grid position, in order.
pub open spec fn first_per_position(es: Seq<SectorIndexEntry>) -> Seq<SectorIndexEntry>
    decreases es.len(),
{
    if es.len() == 0 {
        Seq::empty()
    } else {
        let m = first_per_position(es.drop_last());
        if position_taken(m, es.last()) { m } else { m.push(es.last()) }
    }
}

/// The lower-cased names of sectors.
pub open spec fn lower_names(es: Seq<SectorIndexEntry>) -> Seq<Seq<char>> {
    es.map_values(|e: SectorIndexEntry| spec_lowercase(e.name@))
}

/// `kept`, then each loose sector whose lower-cased name is not among
/// `names` and whose position is free.
pub open spec fn with_loose(kept: Seq<SectorIndexEntry>, loose: Seq<SectorIndexEntry>, names: Seq<Seq<char>>)
    -> Seq<SectorIndexEntry>
    decreases loose.len(),
{
    if loose.len() == 0 {
        kept
    } else {
        let m = with_loose(kept, loose.drop_last(), names);
        let e = loose.last();
        if names.contains(spec_lowercase(e.name@)) || position_taken(m, e) { m } else { m.push(e) }
    }
}

pub open spec fn name_keys(es: Seq<SectorIndexEntry>) -> Seq<Seq<char>> {
    es.map_values(|e: SectorIndexEntry| e.name@)
}

/// The milieu's sectors: the listed ones (first per position), then the
/// loose ones not yet loaded by name or position, sorted by name (ties keep
/// their order).
pub open spec fn universe_order(listed: Seq<SectorIndexEntry>, loose: Seq<SectorIndexEntry>) -> Seq<SectorIndexEntry> {
    let kept = first_per_position(listed);
    let all = with_loose(kept, loose, lower_names(kept));
    by_code(all, name_keys(all))
}

/// Which entry a plan step takes: `(from the loose files, position)`.
pub open spec fn planned(listed: Seq<SectorIndexEntry>, loose: Seq<SectorIndexEntry>, p: (bool, usize)) -> SectorIndexEntry {
    if p.0 { loose[p.1 as int] } else { listed[p.1 as int] }
}

pub open spec fn plan_view(listed: Seq<SectorIndexEntry>, loose: Seq<SectorIndexEntry>, plan: Seq<(bool, usize)>)
    -> Seq<SectorIndexEntry>
{
    Seq::new(plan.len(), |k: int| planned(listed, loose, plan[k]))
}

pub open spec fn plan_in_range(listed: Seq<SectorIndexEntry>, loose: Seq<SectorIndexEntry>, plan: Seq<(bool, usize)>) -> bool {
    forall|k: int| 0 <= k < plan.len() ==> (#[trigger] plan[k]).1 < (if plan[k].0 { loose.len() } else { listed.len() })
}

fn entry_of<'a>(listed: &'a Vec<SectorIndexEntry>, loose: &'a Vec<SectorIndexEntry>, p: (bool, usize)) -> (e: &'a SectorIndexEntry)
    requires
        p.1 < (if p.0 { loose@.len() } else { listed@.len() }),
    ensures
        *e == planned(listed@, loose@, p),
{
    if p.0 { &loose[p.1] } else { &listed[p.1] }
}

fn position_taken_exec(listed: &Vec<SectorIndexEntry>, loose: &Vec<SectorIndexEntry>, plan: &Vec<(bool, usize)>,
    e: &SectorIndexEntry) -> (b: bool)
    requires
        plan_in_range(listed@, loose@, plan@),
    ensures
        b == position_taken(plan_view(listed@, loose@, plan@), *e),
{
    let ghost pv = plan_view(listed@, loose@, plan@);
    let mut i: usize = 0;
    while i < plan.len()
        invariant
            i <= plan@.len(),
            pv == plan_view(listed@, loose@, plan@),
            plan_in_range(listed@, loose@, plan@),
            forall|j: int| 0 <= j < i ==> !same_position(#[trigger] pv[j], *e),
        decreases plan@.len() - i,
    {
        let c = entry_of(listed, loose, plan[i]);
        if c.location.x == e.location.x && c.location.y == e.location.y {
            assert(same_position(pv[i as int], *e));
            return true;
        }
        i += 1;
    }
    false
}

/// The order in which the milieu's sectors are kept: each step names an
/// entry of `listed` (the metafiles' sectors of this milieu, in milieu-list
/// order) or of `loose` (the milieu directory's own sector files): the first
/// listed sector at each position, then loose sectors whose lower-cased name
/// no kept listed sector has and whose position is free, all sorted by name.
pub fn universe_plan(listed: &Vec<SectorIndexEntry>, loose: &Vec<SectorIndexEntry>) -> (plan: Vec<(bool, usize)>)
    ensures
        plan_in_range(listed@, loose@, plan@),
        plan_view(listed@, loose@, plan@) == universe_order(listed@, loose@),
{
    let mut chosen: Vec<(bool, usize)> = Vec::new();
    let mut i: usize = 0;
    while i < listed.len()
        invariant
            i <= listed@.len(),
            plan_in_range(listed@, loose@, chosen@),
            forall|k: int| 0 <= k < chosen@.len() ==> !(#[trigger] chosen@[k]).0,
            plan_view(listed@, loose@, chosen@) == first_per_position(listed@.take(i as int)),
        decreases listed@.len() - i,
    {
        assert(listed@.take(i + 1).drop_last() =~= listed@.take(i as int));
        let ghost before = plan_view(listed@, loose@, chosen@);
        if !position_taken_exec(listed, loose, &chosen, &listed[i]) {
            chosen.push((false, i));
            assert(plan_view(listed@, loose@, chosen@) =~= before.push(listed@[i as int]));
        }
        i += 1;
    }
    assert(listed@.take(listed@.len() as int) =~= listed@);
    let ghost kept = plan_view(listed@, loose@, chosen@);
    // The lower-cased names of the kept listed sectors.
    let mut names: Vec<String> = Vec::new();
    let mut k: usize = 0;
    while k < chosen.len()
        invariant
            k <= chosen@.len(),
            plan_in_range(listed@, loose@, chosen@),
            kept == plan_view(listed@, loose@, chosen@),
            names@.map_values(|s: String| s@) == lower_names(kept.take(k as int)),
        decreases chosen@.len() - k,
    {
        let e = entry_of(listed, loose, chosen[k]);
        let ghost before = names@.map_values(|s: String| s@);
        names.push(to_lowercase(e.name.as_str()));
        assert(names@.map_values(|s: String| s@) =~= before.push(spec_lowercase(kept[k as int].name@)));
        assert(lower_names(kept.take(k + 1)) =~= lower_names(kept.take(k as int)).push(spec_lowercase(kept[k as int].name@)));
        k += 1;
    }
    assert(kept.take(kept.len() as int) =~= kept);
    let ghost lowered = lower_names(kept);
    let mut j: usize = 0;
    while j < loose.len()
        invariant
            j <= loose@.len(),
            plan_in_range(listed@, loose@, chosen@),
            names@.map_values(|s: String| s@) == lowered,
            plan_view(listed@, loose@, chosen@) == with_loose(kept, loose@.take(j as int), lowered),
        decreases loose@.len() - j,
    {
        assert(loose@.take(j + 1).drop_last() =~= loose@.take(j as int));
        let e = &loose[j];
        let low = to_lowercase(e.name.as_str());
        let mut known = false;
        let mut x: usize = 0;
        while x < names.len()
            invariant
                x <= names@.len(),
                names@.map_values(|s: String| s@) == lowered,
                low@ == spec_lowercase(e.name@),
                !known ==> forall|y: int| 0 <= y < x ==> lowered[y] != low@,
                known ==> lowered.contains(low@),
            decreases names@.len() - x,
        {
            if str_eq(names[x].as_str(), low.as_str()) {
                known = true;
                assert(lowered[x as int] == low@);
            }
            x += 1;
        }
        let ghost before = plan_view(listed@, loose@, chosen@);
        if !known && !position_taken_exec(listed, loose, &chosen, e) {
            chosen.push((true, j));
            assert(plan_view(listed@, loose@, chosen@) =~= before.push(loose@[j as int]));
        }
        j += 1;
    }
    assert(loose@.take(loose@.len() as int) =~= loose@);
    let ghost all = plan_view(listed@, loose@, chosen@);
    // Sorted by name.
    let mut keys: Vec<String> = Vec::new();
    let mut k: usize = 0;
    while k < chosen.len()
        invariant
            k <= chosen@.len(),
            plan_in_range(listed@, loose@, chosen@),
            all == plan_view(listed@, loose@, chosen@),
            keys@.map_values(|s: String| s@) == name_keys(all.take(k as int)),
        decreases chosen@.len() - k,
    {
        let e = entry_of(listed, loose, chosen[k]);
        let ghost before = keys@.map_values(|s: String| s@);
        keys.push(e.name.clone());
        assert(keys@.map_values(|s: String| s@) =~= before.push(all[k as int].name@));
        assert(name_keys(all.take(k + 1)) =~= name_keys(all.take(k as int)).push(all[k as int].name@));
        k += 1;
    }
    assert(all.take(all.len() as int) =~= all);
    let order = sorted_by_key(&keys);
    let mut plan: Vec<(bool, usize)> = Vec::new();
    let mut k: usize = 0;
    while k < order.len()
        invariant
            k <= order@.len(),
            plan_in_range(listed@, loose@, chosen@),
            plan_in_range(listed@, loose@, plan@),
            all == plan_view(listed@, loose@, chosen@),
            keys@.len() == chosen@.len(),
            forall|y: int| 0 <= y < order@.len() ==> #[trigger] order@[y] < keys@.len(),
            plan_view(listed@, loose@, plan@) == Seq::new(k as nat, |y: int| all[order@[y] as int]),
        decreases order@.len() - k,
    {
        let ghost before = plan_view(listed@, loose@, plan@);
        plan.push(chosen[order[k]]);
        assert(plan_view(listed@, loose@, plan@) =~= before.push(all[order@[k as int] as int]));
        k += 1;
        assert(plan_view(listed@, loose@, plan@) =~= Seq::new(k as nat, |y: int| all[order@[y] as int]));
    }
    proof {
        assert(keys@.map_values(|s: String| s@) == name_keys(all));
        assert(plan_view(listed@, loose@, plan@) =~= by_code(all, name_keys(all)));
        assert(kept == first_per_position(listed@));
    }
    plan
}

// ── What the sector list promises ───────────────────────────────────────────

/// No two of the sectors sit at the same grid position.
pub open spec fn positions_distinct(es: Seq<SectorIndexEntry>) -> bool {
    forall|a: int, b: int| 0 <= a < b < es.len() ==> !same_position(#[trigger] es[a], #[trigger] es[b])
}

proof fn lemma_first_per_position_distinct(es: Seq<SectorIndexEntry>)
    ensures
        positions_distinct(first_per_position(es)),
    decreases es.len(),
{
    if es.len() > 0 {
        let m = first_per_position(es.drop_last());
        lemma_first_per_position_distinct(es.drop_last());
        if !position_taken(m, es.last()) {
            let r = m.push(es.last());
            assert forall|a: int, b: int| 0 <= a < b < r.len() implies !same_position(#[trigger] r[a], #[trigger] r[b]) by {
                assert(r[a] == m[a]);
                if b < m.len() {
                    assert(r[b] == m[b]);
                }
            }
        }
    }
}

proof fn lemma_with_loose_distinct(kept: Seq<SectorIndexEntry>, loose: Seq<SectorIndexEntry>, names: Seq<Seq<char>>)
    requires
        positions_distinct(kept),
    ensures
        positions_distinct(with_loose(kept, loose, names)),
    decreases loose.len(),
{
    if loose.len() > 0 {
        let m = with_loose(kept, loose.drop_last(), names);
        lemma_with_loose_distinct(kept, loose.drop_last(), names);
        let e = loose.last();
        if !(names.contains(spec_lowercase(e.name@)) || position_taken(m, e)) {
            let r = m.push(e);
            assert forall|a: int, b: int| 0 <= a < b < r.len() implies !same_position(#[trigger] r[a], #[trigger] r[b]) by {
                assert(r[a] == m[a]);
                if b < m.len() {
                    assert(r[b] == m[b]);
                }
            }
        }
    }
}

/// A milieu's sector list holds the sectors of the metafiles (the first at
/// each grid position) and the loose sector files whose name and position
/// are not yet taken, each once, sorted by name, and no two of them at the
/// same grid position.
pub proof fn law_universe_sorted_and_distinct(listed: Seq<SectorIndexEntry>, loose: Seq<SectorIndexEntry>)
    ensures
        sorted_rearrangement(
            universe_order(listed, loose),
            with_loose(first_per_position(listed), loose, lower_names(first_per_position(listed))),
            |e: SectorIndexEntry| e.name@,
        ),
        positions_distinct(universe_order(listed, loose)),
{
    let kept = first_per_position(listed);
    let all = with_loose(kept, loose, lower_names(kept));
    let key = |e: SectorIndexEntry| e.name@;
    lemma_first_per_position_distinct(listed);
    lemma_with_loose_distinct(kept, loose, lower_names(kept));
    assert(all.map_values(key) =~= name_keys(all));
    lemma_by_code(all, key);
    let keys = name_keys(all);
    let o = key_order(keys, all.len() as int);
    let out = universe_order(listed, loose);
    law_key_order(keys, all.len() as int);
    assert forall|k: int| 0 <= k < o.len() implies 0 <= #[trigger] o[k] < all.len() by {
        assert(o.contains(o[k]));
    }
    assert forall|a: int, b: int| 0 <= a < b < out.len() implies !same_position(#[trigger] out[a], #[trigger] out[b]) by {
        assert(out[a] == all[o[a]] && out[b] == all[o[b]]);
        assert(o[a] != o[b]);
        if o[a] < o[b] {
            assert(!same_position(all[o[a]], all[o[b]]));
        } else {
            assert(!same_position(all[o[b]], all[o[a]]));
        }
    }
}

} // verus!
