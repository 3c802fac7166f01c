//! The public code listings: the allegiance and sophont code tables sorted
//! by code, and the canonical milieu codes.
use vstd::prelude::*;

use crate::text::{chars_of, string_from_chars, trim, trim_chars, split_on, split_chars, lemma_split_on_len, text_lines, lines_of,
    str_eq};
use crate::requests::after_header;
use crate::sec_header::str_lt;

verus! {

/// One row of the allegiance listing.
#[derive(Debug, Clone, PartialEq, Eq)]
pub struct AllegianceListing {
    pub code: String,
    pub legacy_code: String,
    pub name: String,
    /// Empty when the table gives none.
    pub location: String,
}

/// One row of the sophont listing.
#[derive(Debug, Clone, PartialEq, Eq)]
pub struct SophontListing {
    pub code: String,
    pub name: String,
    pub location: String,
}

/// Field `i` of a split line, trimmed; empty when the line has fewer fields.
pub open spec fn field(f: Seq<Seq<char>>, i: int) -> Seq<char> {
    if i < f.len() { trim(f[i]) } else { Seq::empty() }
}

/// `(code, legacy, name, location)` of each allegiance-table line (columns
/// `Code Legacy BaseCode Name Location`) with a code.
pub open spec fn allegiance_rows(lines: Seq<Seq<char>>) -> Seq<(Seq<char>, Seq<char>, Seq<char>, Seq<char>)>
    decreases lines.len(),
{
    if lines.len() == 0 {
        Seq::empty()
    } else {
        let f = split_on(lines.last(), '\t');
        allegiance_rows(lines.drop_last()) + if field(f, 0).len() > 0 {
            seq![(field(f, 0), field(f, 1), field(f, 3), field(f, 4))]
        } else {
            Seq::empty()
        }
    }
}

/// The allegiances listed beside the table: splinter states and cultural
/// regions, none of which the table holds.
pub open spec fn stock_allegiances() -> Seq<(Seq<char>, Seq<char>, Seq<char>, Seq<char>)> {
    seq![
        ("FdAr"@, "Fa"@, "Federation of Arden"@, ""@),
        ("BoWo"@, "Bw"@, "Border Worlds"@, ""@),
        ("LuIm"@, "Li"@, "Lucan's Imperium"@, ""@),
        ("MaSt"@, "Ma"@, "Maragaret's Domain"@, ""@),
        ("BaCl"@, "Bc"@, "Backman Cluster"@, ""@),
        ("FdDa"@, "Fd"@, "Federation of Daibei"@, ""@),
        ("FdIl"@, "Fi"@, "Federation of Ilelish"@, ""@),
        ("AvCn"@, "Ac"@, "Avalar Consulate"@, ""@),
        ("CoAl"@, "Ca"@, "Corsair Alliance"@, ""@),
        ("StIm"@, "St"@, "Strephon's Worlds"@, ""@),
        ("ZiSi"@, "Rv"@, "Restored Vilani Imperium"@, ""@),
        ("VA16"@, "V6"@, "Assemblage of 1116"@, ""@),
        ("CRVi"@, "CV"@, "Vilani Cultural Region"@, ""@),
        ("CRGe"@, "CG"@, "Geonee Cultural Region"@, ""@),
        ("CRSu"@, "CS"@, "Suerrat Cultural Region"@, ""@),
        ("CRAk"@, "CA"@, "Anakudnu Cultural Region"@, ""@)
    ]
}

/// Insert index `i` after every index whose key is not above `keys[i]`
/// (counted from the back): one step of a stable insertion sort.
pub open spec fn insert_by_key(order: Seq<int>, keys: Seq<Seq<char>>, i: int) -> Seq<int>
    decreases order.len(),
{
    if order.len() == 0 {
        seq![i]
    } else if !str_lt(keys[i], keys[order.last()]) {
        order.push(i)
    } else {
        insert_by_key(order.drop_last(), keys, i).push(order.last())
    }
}

/// The indices `0..n` stably sorted by key.
pub open spec fn key_order(keys: Seq<Seq<char>>, n: int) -> Seq<int>
    decreases n,
{
    if n <= 0 { Seq::empty() } else { insert_by_key(key_order(keys, n - 1), keys, n - 1) }
}

/// The rows sorted by code (equal codes keep their order).
pub open spec fn by_code<R>(rows: Seq<R>, keys: Seq<Seq<char>>) -> Seq<R> {
    let o = key_order(keys, rows.len() as int);
    Seq::new(o.len(), |k: int| rows[o[k]])
}

pub open spec fn allegiance_keys(rows: Seq<(Seq<char>, Seq<char>, Seq<char>, Seq<char>)>) -> Seq<Seq<char>> {
    rows.map_values(|r: (Seq<char>, Seq<char>, Seq<char>, Seq<char>)| r.0)
}

/// The allegiance listing of a table text (header line first): its rows and
/// the stock allegiances, sorted by code.
pub open spec fn allegiance_listing_of(table: Seq<char>) -> Seq<(Seq<char>, Seq<char>, Seq<char>, Seq<char>)> {
    let rows = allegiance_rows(after_header(text_lines(table))) + stock_allegiances();
    by_code(rows, allegiance_keys(rows))
}

pub open spec fn listing_view(v: Seq<AllegianceListing>) -> Seq<(Seq<char>, Seq<char>, Seq<char>, Seq<char>)> {
    v.map_values(|a: AllegianceListing| (a.code@, a.legacy_code@, a.name@, a.location@))
}

pub(crate) fn insert_by_key_exec(order: &Vec<usize>, keys: &Vec<String>, i: usize) -> (r: Vec<usize>)
    requires
        i < keys@.len(),
        forall|k: int| 0 <= k < order@.len() ==> #[trigger] order@[k] < keys@.len(),
    ensures
        order_ints(r@) == insert_by_key(order_ints(order@), keys@.map_values(|s: String| s@), i as int),
        forall|k: int| 0 <= k < r@.len() ==> #[trigger] r@[k] < keys@.len(),
{
    let ghost ov = order_ints(order@);
    let ghost kv = keys@.map_values(|s: String| s@);
    let mut p: usize = order.len();
    assert(ov.subrange(0, ov.len() as int) =~= ov);
    assert(ov.subrange(ov.len() as int, ov.len() as int) =~= Seq::<int>::empty());
    while p > 0 && crate::sec_header::less_than(keys[i].as_str(), keys[order[p - 1]].as_str())
        invariant
            p <= order@.len(),
            i < keys@.len(),
            forall|k: int| 0 <= k < order@.len() ==> #[trigger] order@[k] < keys@.len(),
            ov == order_ints(order@),
            kv == keys@.map_values(|s: String| s@),
            insert_by_key(ov, kv, i as int) == insert_by_key(ov.subrange(0, p as int), kv, i as int) + ov.subrange(p as int, ov.len() as int),
        decreases p,
    {
        let ghost pre = ov.subrange(0, p as int);
        assert(pre.drop_last() =~= ov.subrange(0, p - 1));
        assert(pre.last() == order@[p - 1] as int);
        assert(ov.subrange(p - 1, ov.len() as int) =~= seq![pre.last()] + ov.subrange(p as int, ov.len() as int));
        p -= 1;
    }
    let mut r: Vec<usize> = Vec::new();
    let mut k: usize = 0;
    while k < p
        invariant
            k <= p <= order@.len(),
            ov == order_ints(order@),
            forall|m: int| 0 <= m < order@.len() ==> #[trigger] order@[m] < keys@.len(),
            forall|m: int| 0 <= m < r@.len() ==> #[trigger] r@[m] < keys@.len(),
            order_ints(r@) == ov.subrange(0, k as int),
        decreases p - k,
    {
        let x = order[k];
        let ghost before = order_ints(r@);
        r.push(x);
        assert(order_ints(r@) =~= before.push(x as int));
        k += 1;
        assert(order_ints(r@) =~= ov.subrange(0, k as int));
    }
    r.push(i);
    let ghost mid = order_ints(r@);
    assert(mid =~= ov.subrange(0, p as int).push(i as int));
    let mut k: usize = p;
    while k < order.len()
        invariant
            p <= k <= order@.len(),
            ov == order_ints(order@),
            forall|m: int| 0 <= m < order@.len() ==> #[trigger] order@[m] < keys@.len(),
            forall|m: int| 0 <= m < r@.len() ==> #[trigger] r@[m] < keys@.len(),
            order_ints(r@) == mid + ov.subrange(p as int, k as int),
        decreases order@.len() - k,
    {
        let x = order[k];
        let ghost before = order_ints(r@);
        r.push(x);
        assert(order_ints(r@) =~= before.push(x as int));
        k += 1;
        assert(order_ints(r@) =~= mid + ov.subrange(p as int, k as int));
    }
    proof {
        let pre = ov.subrange(0, p as int);
        if pre.len() > 0 {
            assert(pre.last() == order@[p - 1] as int);
        }
        assert(insert_by_key(pre, kv, i as int) == pre.push(i as int));
    }
    r
}

pub open spec fn order_ints(o: Seq<usize>) -> Seq<int> {
    o.map_values(|i: usize| i as int)
}

/// The positions of `keys` stably sorted by key.
pub(crate) fn sorted_by_key(keys: &Vec<String>) -> (r: Vec<usize>)
    ensures
        order_ints(r@) == key_order(keys@.map_values(|s: String| s@), keys@.len() as int),
        forall|k: int| 0 <= k < r@.len() ==> #[trigger] r@[k] < keys@.len(),
{
    let mut order: Vec<usize> = Vec::new();
    let mut n: usize = 0;
    assert(order_ints(order@) =~= Seq::<int>::empty());
    while n < keys.len()
        invariant
            n <= keys@.len(),
            order_ints(order@) == key_order(keys@.map_values(|s: String| s@), n as int),
            forall|k: int| 0 <= k < order@.len() ==> #[trigger] order@[k] < keys@.len(),
        decreases keys@.len() - n,
    {
        order = insert_by_key_exec(&order, keys, n);
        n += 1;
    }
    order
}

fn field_at(f: &Vec<Vec<char>>, i: usize) -> (r: String)
    ensures
        r@ == field(f@.map_values(|v: Vec<char>| v@), i as int),
{
    if i < f.len() { string_from_chars(&trim_chars(&f[i])) } else { String::new() }
}

fn push_stock(out: &mut Vec<AllegianceListing>, code: &str, legacy: &str, name: &str)
    ensures
        listing_view(final(out)@) == listing_view(old(out)@).push((code@, legacy@, name@, ""@)),
{
    let location = String::new();
    proof {
        reveal_strlit("");
        assert(location@ =~= ""@);
    }
    let row = AllegianceListing {
        code: string_from_chars(&chars_of(code)),
        legacy_code: string_from_chars(&chars_of(legacy)),
        name: string_from_chars(&chars_of(name)),
        location,
    };
    let ghost before = listing_view(out@);
    out.push(row);
    assert(listing_view(out@) =~= before.push((code@, legacy@, name@, ""@)));
}

fn allegiance_table_rows(table: &str) -> (rows: Vec<AllegianceListing>)
    ensures
        listing_view(rows@) == allegiance_rows(after_header(text_lines(table@))),
{
    let lines = lines_of(table);
    let ghost lv = lines@.map_values(|v: Vec<char>| v@);
    let mut rows: Vec<AllegianceListing> = Vec::new();
    if lines.len() == 0 {
        assert(after_header(lv) =~= Seq::<Seq<char>>::empty());
        return rows;
    }
    let mut i: usize = 1;
    assert(lv.subrange(1, 1) =~= Seq::<Seq<char>>::empty());
    while i < lines.len()
        invariant
            1 <= i <= lines@.len(),
            lv == lines@.map_values(|v: Vec<char>| v@),
            listing_view(rows@) == allegiance_rows(lv.subrange(1, i as int)),
        decreases lines@.len() - i,
    {
        let ghost before = listing_view(rows@);
        assert(lv.subrange(1, i + 1).drop_last() =~= lv.subrange(1, i as int));
        assert(lv.subrange(1, i + 1).last() == lines@[i as int]@);
        let f = split_chars(&lines[i], '\t');
        proof { lemma_split_on_len(lines@[i as int]@, '\t'); }
        let code = field_at(&f, 0);
        if !code.as_str().is_empty() {
            let row = AllegianceListing { code, legacy_code: field_at(&f, 1), name: field_at(&f, 3), location: field_at(&f, 4) };
            rows.push(row);
            assert(listing_view(rows@) =~= before + seq![(rows@.last().code@, rows@.last().legacy_code@, rows@.last().name@, rows@.last().location@)]);
        } else {
            assert(before + Seq::<(Seq<char>, Seq<char>, Seq<char>, Seq<char>)>::empty() =~= before);
        }
        i += 1;
    }
    assert(lv.subrange(1, lv.len() as int) =~= after_header(lv));
    rows
}

fn push_stock_allegiances(rows: &mut Vec<AllegianceListing>)
    ensures
        listing_view(final(rows)@) == listing_view(old(rows)@) + stock_allegiances(),
{
    push_stock(rows, "FdAr", "Fa", "Federation of Arden");
    push_stock(rows, "BoWo", "Bw", "Border Worlds");
    push_stock(rows, "LuIm", "Li", "Lucan's Imperium");
    push_stock(rows, "MaSt", "Ma", "Maragaret's Domain");
    push_stock(rows, "BaCl", "Bc", "Backman Cluster");
    push_stock(rows, "FdDa", "Fd", "Federation of Daibei");
    push_stock(rows, "FdIl", "Fi", "Federation of Ilelish");
    push_stock(rows, "AvCn", "Ac", "Avalar Consulate");
    push_stock(rows, "CoAl", "Ca", "Corsair Alliance");
    push_stock(rows, "StIm", "St", "Strephon's Worlds");
    push_stock(rows, "ZiSi", "Rv", "Restored Vilani Imperium");
    push_stock(rows, "VA16", "V6", "Assemblage of 1116");
    push_stock(rows, "CRVi", "CV", "Vilani Cultural Region");
    push_stock(rows, "CRGe", "CG", "Geonee Cultural Region");
    push_stock(rows, "CRSu", "CS", "Suerrat Cultural Region");
    push_stock(rows, "CRAk", "CA", "Anakudnu Cultural Region");
    assert(listing_view(rows@) =~= listing_view(old(rows)@) + stock_allegiances());
}

fn listing_by_code(rows: &Vec<AllegianceListing>) -> (out: Vec<AllegianceListing>)
    ensures
        listing_view(out@) == by_code(listing_view(rows@), allegiance_keys(listing_view(rows@))),
{
    let ghost all = listing_view(rows@);
    let mut keys: Vec<String> = Vec::new();
    let mut k: usize = 0;
    while k < rows.len()
        invariant
            k <= rows@.len(),
            all == listing_view(rows@),
            keys@.map_values(|s: String| s@) == allegiance_keys(all.take(k as int)),
        decreases rows@.len() - k,
    {
        let ghost before = keys@.map_values(|s: String| s@);
        keys.push(rows[k].code.clone());
        assert(keys@.map_values(|s: String| s@) =~= before.push(all[k as int].0));
        assert(allegiance_keys(all.take(k + 1)) =~= allegiance_keys(all.take(k as int)).push(all[k as int].0));
        k += 1;
    }
    assert(all.take(all.len() as int) =~= all);
    let order = sorted_by_key(&keys);
    let mut out: Vec<AllegianceListing> = Vec::new();
    let mut k: usize = 0;
    while k < order.len()
        invariant
            k <= order@.len(),
            all == listing_view(rows@),
            keys@.len() == rows@.len(),
            forall|j: int| 0 <= j < order@.len() ==> #[trigger] order@[j] < keys@.len(),
            listing_view(out@) == Seq::new(k as nat, |j: int| all[order@[j] as int]),
        decreases order@.len() - k,
    {
        let ghost before = listing_view(out@);
        let r = &rows[order[k]];
        out.push(AllegianceListing {
            code: r.code.clone(),
            legacy_code: r.legacy_code.clone(),
            name: r.name.clone(),
            location: r.location.clone(),
        });
        assert(listing_view(out@) =~= before.push(all[order@[k as int] as int]));
        k += 1;
        assert(listing_view(out@) =~= Seq::new(k as nat, |j: int| all[order@[j] as int]));
    }
    proof {
        assert(keys@.map_values(|s: String| s@) == allegiance_keys(all));
        assert(listing_view(out@) =~= by_code(all, allegiance_keys(all)));
    }
    out
}

/// The allegiance code listing: each row of the allegiance table (text of
/// `allegiance_codes.tab`, header line first) that has a code, then the stock
/// splinter states and cultural regions, all sorted by code.
pub fn allegiance_listing(table: &str) -> (r: Vec<AllegianceListing>)
    ensures
        listing_view(r@) == allegiance_listing_of(table@),
{
    let mut rows = allegiance_table_rows(table);
    push_stock_allegiances(&mut rows);
    listing_by_code(&rows)
}

// ── The order of a listing ─────────────────────────────────────────────────

proof fn lemma_str_lt_irreflexive(a: Seq<char>)
    ensures
        !str_lt(a, a),
    decreases a.len(),
{
    if a.len() > 0 {
        lemma_str_lt_irreflexive(a.drop_first());
    }
}

proof fn lemma_str_lt_transitive(a: Seq<char>, b: Seq<char>, c: Seq<char>)
    requires
        str_lt(a, b),
        str_lt(b, c),
    ensures
        str_lt(a, c),
    decreases a.len(),
{
    if a.len() > 0 && a[0] == b[0] && b[0] == c[0] {
        lemma_str_lt_transitive(a.drop_first(), b.drop_first(), c.drop_first());
    }
}

proof fn lemma_str_lt_total(a: Seq<char>, b: Seq<char>)
    requires
        a != b,
    ensures
        str_lt(a, b) || str_lt(b, a),
    decreases a.len(),
{
    if a.len() == 0 && b.len() == 0 {
        assert(a =~= b);
    } else if a.len() > 0 && b.len() > 0 && a[0] == b[0] {
        if a.drop_first() == b.drop_first() {
            assert(a =~= seq![a[0]] + a.drop_first());
            assert(b =~= seq![b[0]] + b.drop_first());
        }
        lemma_str_lt_total(a.drop_first(), b.drop_first());
    }
}

/// "Not after": `b` does not sort before `a`.
proof fn lemma_not_after_transitive(a: Seq<char>, b: Seq<char>, c: Seq<char>)
    requires
        !str_lt(b, a),
        !str_lt(c, b),
    ensures
        !str_lt(c, a),
{
    if str_lt(c, a) {
        if b == c {
        } else {
            lemma_str_lt_total(b, c);
            lemma_str_lt_transitive(b, c, a);
        }
    }
}

proof fn lemma_str_lt_asymmetric(a: Seq<char>, b: Seq<char>)
    requires
        str_lt(a, b),
    ensures
        !str_lt(b, a),
{
    if str_lt(b, a) {
        lemma_str_lt_transitive(a, b, a);
        lemma_str_lt_irreflexive(a);
    }
}

/// `o` lists indices sorted by key, indices with equal keys in increasing
/// order.
pub open spec fn in_code_order(o: Seq<int>, keys: Seq<Seq<char>>) -> bool {
    &&& forall|a: int, b: int| 0 <= a < b < o.len() ==> !str_lt(keys[#[trigger] o[b]], keys[#[trigger] o[a]])
    &&& forall|a: int, b: int| 0 <= a < b < o.len() && !str_lt(keys[o[a]], keys[o[b]]) ==> #[trigger] o[a] < #[trigger] o[b]
}

proof fn lemma_insert_by_key_members(order: Seq<int>, keys: Seq<Seq<char>>, i: int)
    ensures
        insert_by_key(order, keys, i).len() == order.len() + 1,
        forall|x: int| #[trigger] insert_by_key(order, keys, i).contains(x) <==> (order.contains(x) || x == i),
        order.no_duplicates() && !order.contains(i) ==> insert_by_key(order, keys, i).no_duplicates(),
    decreases order.len(),
{
    let r = insert_by_key(order, keys, i);
    if order.len() == 0 {
        assert forall|x: int| #[trigger] r.contains(x) <==> (order.contains(x) || x == i) by {
            if r.contains(x) {
                let k = choose|k: int| 0 <= k < r.len() && r[k] == x;
                assert(k == 0);
            }
            if x == i {
                assert(r[0] == i);
            }
        }
    } else if !str_lt(keys[i], keys[order.last()]) {
        assert forall|x: int| #[trigger] r.contains(x) <==> (order.contains(x) || x == i) by {
            if r.contains(x) {
                let k = choose|k: int| 0 <= k < r.len() && r[k] == x;
                if k < order.len() {
                    assert(order[k] == x);
                }
            }
            if order.contains(x) {
                let k = choose|k: int| 0 <= k < order.len() && order[k] == x;
                assert(r[k] == x);
            }
            if x == i {
                assert(r[order.len() as int] == i);
            }
        }
        if order.no_duplicates() && !order.contains(i) {
            assert forall|a: int, b: int| 0 <= a < b < r.len() implies r[a] != r[b] by {
                assert(r[a] == order[a]);
                if b < order.len() {
                    assert(r[b] == order[b]);
                }
            }
        }
    } else {
        let d = order.drop_last();
        lemma_insert_by_key_members(d, keys, i);
        let q = insert_by_key(d, keys, i);
        assert forall|x: int| #[trigger] r.contains(x) <==> (order.contains(x) || x == i) by {
            if r.contains(x) {
                let k = choose|k: int| 0 <= k < r.len() && r[k] == x;
                if k < q.len() {
                    assert(q[k] == x);
                    assert(q.contains(x));
                    if d.contains(x) {
                        let m = choose|m: int| 0 <= m < d.len() && d[m] == x;
                        assert(order[m] == x);
                    }
                } else {
                    assert(order[order.len() - 1] == x);
                }
            }
            if order.contains(x) {
                let k = choose|k: int| 0 <= k < order.len() && order[k] == x;
                if k < order.len() - 1 {
                    assert(d[k] == x);
                    assert(q.contains(x));
                    let m = choose|m: int| 0 <= m < q.len() && q[m] == x;
                    assert(r[m] == x);
                } else {
                    assert(r[q.len() as int] == x);
                }
            }
            if x == i {
                assert(q.contains(i));
                let m = choose|m: int| 0 <= m < q.len() && q[m] == i;
                assert(r[m] == i);
            }
        }
        if order.no_duplicates() && !order.contains(i) {
            let last = order.last();
            assert(!d.contains(i)) by {
                if d.contains(i) {
                    let m = choose|m: int| 0 <= m < d.len() && d[m] == i;
                    assert(order[m] == i);
                }
            }
            assert(d.no_duplicates()) by {
                assert forall|a: int, b: int| 0 <= a < b < d.len() implies d[a] != d[b] by {
                    assert(d[a] == order[a] && d[b] == order[b]);
                }
            }
            assert(!q.contains(last)) by {
                if d.contains(last) {
                    let m = choose|m: int| 0 <= m < d.len() && d[m] == last;
                    assert(order[m] == order[order.len() - 1]);
                }
                assert(order[order.len() - 1] == last);
            }
            assert forall|a: int, b: int| 0 <= a < b < r.len() implies r[a] != r[b] by {
                assert(r[a] == q[a]);
                if b < q.len() {
                    assert(r[b] == q[b]);
                } else {
                    assert(q.contains(q[a]));
                }
            }
        }
    }
}

proof fn lemma_insert_by_key_in_order(order: Seq<int>, keys: Seq<Seq<char>>, i: int)
    requires
        in_code_order(order, keys),
        forall|k: int| 0 <= k < order.len() ==> #[trigger] order[k] < i,
    ensures
        in_code_order(insert_by_key(order, keys, i), keys),
    decreases order.len(),
{
    let r = insert_by_key(order, keys, i);
    lemma_insert_by_key_members(order, keys, i);
    if order.len() == 0 {
    } else if !str_lt(keys[i], keys[order.last()]) {
        let last = order.last();
        assert forall|a: int, b: int| 0 <= a < b < r.len() implies !str_lt(keys[#[trigger] r[b]], keys[#[trigger] r[a]]) by {
            if b == order.len() {
                assert(r[b] == i);
                if a < order.len() - 1 {
                    assert(!str_lt(keys[order[order.len() - 1]], keys[order[a]]));
                    lemma_not_after_transitive(keys[order[a]], keys[last], keys[i]);
                }
            }
        }
    } else {
        let d = order.drop_last();
        let last = order.last();
        assert(in_code_order(d, keys)) by {
            assert forall|a: int, b: int| 0 <= a < b < d.len() implies !str_lt(keys[#[trigger] d[b]], keys[#[trigger] d[a]]) by {
                assert(d[a] == order[a] && d[b] == order[b]);
            }
            assert forall|a: int, b: int| 0 <= a < b < d.len() && !str_lt(keys[d[a]], keys[d[b]]) implies #[trigger] d[a] < #[trigger] d[b] by {
                assert(d[a] == order[a] && d[b] == order[b]);
            }
        }
        assert forall|k: int| 0 <= k < d.len() implies #[trigger] d[k] < i by {
            assert(d[k] == order[k]);
        }
        lemma_insert_by_key_in_order(d, keys, i);
        let q = insert_by_key(d, keys, i);
        lemma_insert_by_key_members(d, keys, i);
        lemma_str_lt_asymmetric(keys[i], keys[last]);
        assert forall|a: int| 0 <= a < q.len() implies !str_lt(keys[last], keys[#[trigger] q[a]])
            && (!str_lt(keys[q[a]], keys[last]) ==> q[a] < last) by {
            assert(q.contains(q[a]));
            if q[a] != i {
                assert(d.contains(q[a]));
                let m = choose|m: int| 0 <= m < d.len() && d[m] == q[a];
                assert(order[m] == q[a]);
                assert(!str_lt(keys[order[order.len() - 1]], keys[order[m]]));
            }
        }
        assert forall|a: int, b: int| 0 <= a < b < r.len() implies !str_lt(keys[#[trigger] r[b]], keys[#[trigger] r[a]]) by {
            assert(r[a] == q[a]);
            if b < q.len() {
                assert(r[b] == q[b]);
            }
        }
        assert forall|a: int, b: int| 0 <= a < b < r.len() && !str_lt(keys[r[a]], keys[r[b]]) implies #[trigger] r[a] < #[trigger] r[b] by {
            assert(r[a] == q[a]);
            if b < q.len() {
                assert(r[b] == q[b]);
            }
        }
    }
}

/// Sorting by key lists each of the indices `0..n` exactly once, in key
/// order, indices with equal keys keeping their order.
pub proof fn law_key_order(keys: Seq<Seq<char>>, n: int)
    requires
        n >= 0,
    ensures
        key_order(keys, n).len() == n,
        forall|x: int| #[trigger] key_order(keys, n).contains(x) <==> 0 <= x < n,
        key_order(keys, n).no_duplicates(),
        in_code_order(key_order(keys, n), keys),
    decreases n,
{
    if n > 0 {
        let prev = key_order(keys, n - 1);
        law_key_order(keys, n - 1);
        lemma_insert_by_key_members(prev, keys, n - 1);
        assert forall|k: int| 0 <= k < prev.len() implies #[trigger] prev[k] < n - 1 by {
            assert(prev.contains(prev[k]));
        }
        lemma_insert_by_key_in_order(prev, keys, n - 1);
    }
}

/// `out` holds the rows of `rows`, each as often as it occurs there, sorted
/// by `key`.
pub open spec fn sorted_rearrangement<R>(out: Seq<R>, rows: Seq<R>, key: spec_fn(R) -> Seq<char>) -> bool {
    &&& out.len() == rows.len()
    &&& forall|a: int, b: int| 0 <= a < b < out.len() ==> !str_lt(key(#[trigger] out[b]), key(#[trigger] out[a]))
    &&& forall|i: int| 0 <= i < rows.len() ==> out.contains(#[trigger] rows[i])
    &&& forall|k: int| 0 <= k < out.len() ==> rows.contains(#[trigger] out[k])
    &&& exists|o: Seq<int>| is_permutation(o, rows.len() as int) && forall|k: int| 0 <= k < out.len() ==> #[trigger] out[k] == rows[o[k]]
}

/// `o` lists each of `0..n` exactly once.
pub open spec fn is_permutation(o: Seq<int>, n: int) -> bool {
    &&& o.len() == n
    &&& o.no_duplicates()
    &&& forall|k: int| 0 <= k < o.len() ==> 0 <= #[trigger] o[k] < n
}

/// Sorting rows by a key of each is a rearrangement of them in key order.
pub proof fn lemma_by_code<R>(rows: Seq<R>, key: spec_fn(R) -> Seq<char>)
    ensures
        sorted_rearrangement(by_code(rows, rows.map_values(key)), rows, key),
{
    let keys = rows.map_values(key);
    let n = rows.len() as int;
    let o = key_order(keys, n);
    let out = by_code(rows, keys);
    law_key_order(keys, n);
    assert forall|k: int| 0 <= k < o.len() implies 0 <= #[trigger] o[k] < n by {
        assert(o.contains(o[k]));
    }
    assert forall|a: int, b: int| 0 <= a < b < out.len() implies !str_lt(key(#[trigger] out[b]), key(#[trigger] out[a])) by {
        assert(out[a] == rows[o[a]] && out[b] == rows[o[b]]);
        assert(keys[o[a]] == key(rows[o[a]]) && keys[o[b]] == key(rows[o[b]]));
    }
    assert forall|i: int| 0 <= i < rows.len() implies out.contains(#[trigger] rows[i]) by {
        assert(o.contains(i));
        let k = choose|k: int| 0 <= k < o.len() && o[k] == i;
        assert(out[k] == rows[i]);
    }
    assert forall|k: int| 0 <= k < out.len() implies rows.contains(#[trigger] out[k]) by {
        assert(out[k] == rows[o[k]]);
    }
    assert(is_permutation(o, n));
    assert(forall|k: int| 0 <= k < out.len() ==> #[trigger] out[k] == rows[o[k]]);
}

pub open spec fn allegiance_code(r: (Seq<char>, Seq<char>, Seq<char>, Seq<char>)) -> Seq<char> {
    r.0
}

/// The allegiance listing holds every coded row of the table and every stock
/// allegiance, each as often as it occurs, sorted by code.
pub proof fn law_allegiance_listing_sorted(table: Seq<char>)
    ensures
        sorted_rearrangement(
            allegiance_listing_of(table),
            allegiance_rows(after_header(text_lines(table))) + stock_allegiances(),
            |r: (Seq<char>, Seq<char>, Seq<char>, Seq<char>)| allegiance_code(r),
        ),
{
    let rows = allegiance_rows(after_header(text_lines(table))) + stock_allegiances();
    let key = |r: (Seq<char>, Seq<char>, Seq<char>, Seq<char>)| allegiance_code(r);
    lemma_by_code(rows, key);
    assert(rows.map_values(key) =~= allegiance_keys(rows));
}

// ── Sophonts ───────────────────────────────────────────────────────────────

/// `(code, name, location)` of each sophont-table line (columns `Code Name
/// Location`) with a code.
pub open spec fn sophont_rows(lines: Seq<Seq<char>>) -> Seq<(Seq<char>, Seq<char>, Seq<char>)>
    decreases lines.len(),
{
    if lines.len() == 0 {
        Seq::empty()
    } else {
        let f = split_on(lines.last(), '\t');
        sophont_rows(lines.drop_last()) + if field(f, 0).len() > 0 {
            seq![(field(f, 0), field(f, 1), field(f, 2))]
        } else {
            Seq::empty()
        }
    }
}

pub open spec fn sophont_keys(rows: Seq<(Seq<char>, Seq<char>, Seq<char>)>) -> Seq<Seq<char>> {
    rows.map_values(|r: (Seq<char>, Seq<char>, Seq<char>)| r.0)
}

/// The sophont listing of a table text (header line first), sorted by code.
pub open spec fn sophont_listing_of(table: Seq<char>) -> Seq<(Seq<char>, Seq<char>, Seq<char>)> {
    let rows = sophont_rows(after_header(text_lines(table)));
    by_code(rows, sophont_keys(rows))
}

pub open spec fn sophonts_view(v: Seq<SophontListing>) -> Seq<(Seq<char>, Seq<char>, Seq<char>)> {
    v.map_values(|a: SophontListing| (a.code@, a.name@, a.location@))
}

fn sophont_table_rows(table: &str) -> (rows: Vec<SophontListing>)
    ensures
        sophonts_view(rows@) == sophont_rows(after_header(text_lines(table@))),
{
    let lines = lines_of(table);
    let ghost lv = lines@.map_values(|v: Vec<char>| v@);
    let mut rows: Vec<SophontListing> = Vec::new();
    if lines.len() == 0 {
        assert(after_header(lv) =~= Seq::<Seq<char>>::empty());
        return rows;
    }
    let mut i: usize = 1;
    assert(lv.subrange(1, 1) =~= Seq::<Seq<char>>::empty());
    while i < lines.len()
        invariant
            1 <= i <= lines@.len(),
            lv == lines@.map_values(|v: Vec<char>| v@),
            sophonts_view(rows@) == sophont_rows(lv.subrange(1, i as int)),
        decreases lines@.len() - i,
    {
        let ghost before = sophonts_view(rows@);
        assert(lv.subrange(1, i + 1).drop_last() =~= lv.subrange(1, i as int));
        assert(lv.subrange(1, i + 1).last() == lines@[i as int]@);
        let f = split_chars(&lines[i], '\t');
        proof { lemma_split_on_len(lines@[i as int]@, '\t'); }
        let code = field_at(&f, 0);
        if !code.as_str().is_empty() {
            let row = SophontListing { code, name: field_at(&f, 1), location: field_at(&f, 2) };
            rows.push(row);
            assert(sophonts_view(rows@) =~= before + seq![(rows@.last().code@, rows@.last().name@, rows@.last().location@)]);
        } else {
            assert(before + Seq::<(Seq<char>, Seq<char>, Seq<char>)>::empty() =~= before);
        }
        i += 1;
    }
    assert(lv.subrange(1, lv.len() as int) =~= after_header(lv));
    rows
}

/// The sophont code listing: each row of the sophont table (text of
/// `sophont_codes.tab`, header line first) that has a code, sorted by code.
pub fn sophont_listing(table: &str) -> (out: Vec<SophontListing>)
    ensures
        sophonts_view(out@) == sophont_listing_of(table@),
{
    let rows = sophont_table_rows(table);
    let ghost all = sophonts_view(rows@);
    let mut keys: Vec<String> = Vec::new();
    let mut k: usize = 0;
    while k < rows.len()
        invariant
            k <= rows@.len(),
            all == sophonts_view(rows@),
            keys@.map_values(|s: String| s@) == sophont_keys(all.take(k as int)),
        decreases rows@.len() - k,
    {
        let ghost before = keys@.map_values(|s: String| s@);
        keys.push(rows[k].code.clone());
        assert(keys@.map_values(|s: String| s@) =~= before.push(all[k as int].0));
        assert(sophont_keys(all.take(k + 1)) =~= sophont_keys(all.take(k as int)).push(all[k as int].0));
        k += 1;
    }
    assert(all.take(all.len() as int) =~= all);
    let order = sorted_by_key(&keys);
    let mut out: Vec<SophontListing> = Vec::new();
    let mut k: usize = 0;
    while k < order.len()
        invariant
            k <= order@.len(),
            all == sophonts_view(rows@),
            keys@.len() == rows@.len(),
            forall|j: int| 0 <= j < order@.len() ==> #[trigger] order@[j] < keys@.len(),
            sophonts_view(out@) == Seq::new(k as nat, |j: int| all[order@[j] as int]),
        decreases order@.len() - k,
    {
        let ghost before = sophonts_view(out@);
        let r = &rows[order[k]];
        out.push(SophontListing { code: r.code.clone(), name: r.name.clone(), location: r.location.clone() });
        assert(sophonts_view(out@) =~= before.push(all[order@[k as int] as int]));
        k += 1;
        assert(sophonts_view(out@) =~= Seq::new(k as nat, |j: int| all[order@[j] as int]));
    }
    proof {
        assert(keys@.map_values(|s: String| s@) == sophont_keys(all));
        assert(sophonts_view(out@) =~= by_code(all, sophont_keys(all)));
    }
    out
}

/// The sophont listing holds every coded row of the table, each as often as
/// it occurs, sorted by code.
pub proof fn law_sophont_listing_sorted(table: Seq<char>)
    ensures
        sorted_rearrangement(
            sophont_listing_of(table),
            sophont_rows(after_header(text_lines(table))),
            |r: (Seq<char>, Seq<char>, Seq<char>)| r.0,
        ),
{
    let rows = sophont_rows(after_header(text_lines(table)));
    let key = |r: (Seq<char>, Seq<char>, Seq<char>)| r.0;
    lemma_by_code(rows, key);
    assert(rows.map_values(key) =~= sophont_keys(rows));
}

// ── Milieux ────────────────────────────────────────────────────────────────

/// A canonical milieu code: `IW`, or `M` and one or more ASCII digits.
pub open spec fn is_milieu_code(d: Seq<char>) -> bool {
    d == "IW"@ || (d.len() > 1 && d[0] == 'M' && forall|i: int| 1 <= i < d.len() ==> '0' <= #[trigger] d[i] <= '9')
}

/// The directory a milieu-list line names: the first `/` piece of its first
/// tab field.
pub open spec fn line_dir(line: Seq<char>) -> Seq<char> {
    split_on(split_on(line, '\t')[0], '/')[0]
}

/// The canonical milieu codes of the list's lines, each once, in order.
pub open spec fn milieux_of(lines: Seq<Seq<char>>) -> Seq<Seq<char>>
    decreases lines.len(),
{
    if lines.len() == 0 {
        Seq::empty()
    } else {
        let prev = milieux_of(lines.drop_last());
        let d = line_dir(lines.last());
        if is_milieu_code(d) && !prev.contains(d) { prev.push(d) } else { prev }
    }
}

fn is_milieu_code_exec(d: &Vec<char>) -> (b: bool)
    ensures
        b == is_milieu_code(d@),
{
    proof { reveal_strlit("IW"); }
    if d.len() == 2 && d[0] == 'I' && d[1] == 'W' {
        assert(d@ =~= "IW"@);
        return true;
    }
    assert(d@ != "IW"@) by {
        if d@ == "IW"@ {
            assert(d@.len() == 2 && d@[0] == 'I' && d@[1] == 'W');
        }
    }
    if d.len() <= 1 || d[0] != 'M' {
        return false;
    }
    let mut i: usize = 1;
    while i < d.len()
        invariant
            1 <= i <= d@.len(),
            d@ != "IW"@,
            d@.len() > 1 && d@[0] == 'M',
            forall|j: int| 1 <= j < i ==> '0' <= #[trigger] d@[j] <= '9',
        decreases d@.len() - i,
    {
        if !('0' <= d[i] && d[i] <= '9') {
            assert(!('0' <= d@[i as int] <= '9'));
            return false;
        }
        i += 1;
    }
    true
}

/// The canonical milieu codes (`M<digits>` or `IW`) of the milieu list
/// (`milieu.tab` text, header line first), in list order, each once.
pub fn canonical_milieux(milieu_tab: &str) -> (r: Vec<String>)
    ensures
        r@.map_values(|s: String| s@) == milieux_of(after_header(text_lines(milieu_tab@))),
{
    let lines = lines_of(milieu_tab);
    let ghost lv = lines@.map_values(|v: Vec<char>| v@);
    let mut out: Vec<String> = Vec::new();
    if lines.len() == 0 {
        assert(after_header(lv) =~= Seq::<Seq<char>>::empty());
        return out;
    }
    let mut i: usize = 1;
    assert(lv.subrange(1, 1) =~= Seq::<Seq<char>>::empty());
    while i < lines.len()
        invariant
            1 <= i <= lines@.len(),
            lv == lines@.map_values(|v: Vec<char>| v@),
            out@.map_values(|s: String| s@) == milieux_of(lv.subrange(1, i as int)),
        decreases lines@.len() - i,
    {
        let ghost before = out@.map_values(|s: String| s@);
        assert(lv.subrange(1, i + 1).drop_last() =~= lv.subrange(1, i as int));
        assert(lv.subrange(1, i + 1).last() == lines@[i as int]@);
        let f = split_chars(&lines[i], '\t');
        proof { lemma_split_on_len(lines@[i as int]@, '\t'); }
        let parts = split_chars(&f[0], '/');
        proof { lemma_split_on_len(f@[0]@, '/'); }
        let d = &parts[0];
        assert(d@ == line_dir(lines@[i as int]@));
        if is_milieu_code_exec(d) {
            let ds = string_from_chars(d);
            let mut seen = false;
            let mut j: usize = 0;
            while j < out.len()
                invariant
                    j <= out@.len(),
                    before == out@.map_values(|s: String| s@),
                    !seen ==> forall|x: int| 0 <= x < j ==> before[x] != ds@,
                    seen ==> before.contains(ds@),
                decreases out@.len() - j,
            {
                if str_eq(out[j].as_str(), ds.as_str()) {
                    seen = true;
                    assert(before[j as int] == ds@);
                }
                j += 1;
            }
            if !seen {
                out.push(ds);
                assert(out@.map_values(|s: String| s@) =~= before.push(d@));
            }
        }
        i += 1;
    }
    assert(lv.subrange(1, lv.len() as int) =~= after_header(lv));
    out
}

} // verus!
