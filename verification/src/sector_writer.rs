//! Writers for a sector's world table: the tab-delimited form and the aligned
//! Second Survey columns. Lines end in CRLF.
use vstd::prelude::*;

use crate::astrometrics::{parse_hex, spec_parse_hex, spec_subsector_index, spec_subsector_hex, subsector_hex,
    subsector_index, subsector_letter};
use crate::dto::World;
use crate::text::{chars_of, string_from_chars, slice_to_vec, trim, trim_chars, nat_digits, int_decimal, push_digits,
    push_int, push_str_chars, split_on};

verus! {

/// Options shared by the writers.
#[derive(Debug, Clone, Copy, Default)]
pub struct WriteOptions {
    /// Write hexes relative to their subsector instead of the sector.
    pub sscoords: bool,
    /// Write the column header (and, for Second Survey, its dash row).
    pub include_header: bool,
}

// ── Row order ───────────────────────────────────────────────────────────────

/// A world's place in the table: subsector, then column, then row (a hex that
/// does not parse counts as column 0, row 0).
pub open spec fn world_key(hex: Seq<char>) -> (int, int, int) {
    let (c, r) = match spec_parse_hex(hex) {
        Some(p) => p,
        None => (0, 0),
    };
    (spec_subsector_index(hex), c, r)
}

pub open spec fn key_le(a: (int, int, int), b: (int, int, int)) -> bool {
    a.0 < b.0 || (a.0 == b.0 && (a.1 < b.1 || (a.1 == b.1 && a.2 <= b.2)))
}

/// Insert index `i` after every entry (from the back) whose key is not above
/// `i`'s: one step of a stable insertion sort.
pub open spec fn insert_stable(order: Seq<int>, keys: Seq<(int, int, int)>, i: int) -> Seq<int>
    decreases order.len(),
{
    if order.len() == 0 {
        seq![i]
    } else if key_le(keys[order.last()], keys[i]) {
        order.push(i)
    } else {
        insert_stable(order.drop_last(), keys, i).push(order.last())
    }
}

/// The indices `0..n` stably sorted by key.
pub open spec fn stable_order(keys: Seq<(int, int, int)>, n: int) -> Seq<int>
    decreases n,
{
    if n <= 0 { Seq::empty() } else { insert_stable(stable_order(keys, n - 1), keys, n - 1) }
}

pub open spec fn world_keys(ws: Seq<World>) -> Seq<(int, int, int)> {
    ws.map_values(|w: World| world_key(w.hex@))
}

/// The worlds' indices in table order.
pub open spec fn table_order(ws: Seq<World>) -> Seq<int> {
    stable_order(world_keys(ws), ws.len() as int)
}

fn key_of(w: &World) -> (k: (usize, i32, i32))
    ensures
        (k.0 as int, k.1 as int, k.2 as int) == world_key(w.hex@),
{
    let (c, r) = match parse_hex(w.hex.as_str()) {
        Some(p) => p,
        None => (0, 0),
    };
    (subsector_index(w.hex.as_str()), c, r)
}

pub open spec fn keys_view(keys: Seq<(usize, i32, i32)>) -> Seq<(int, int, int)> {
    keys.map_values(|k: (usize, i32, i32)| (k.0 as int, k.1 as int, k.2 as int))
}

pub open spec fn order_view(o: Seq<usize>) -> Seq<int> {
    o.map_values(|i: usize| i as int)
}

fn key_le_exec(a: (usize, i32, i32), b: (usize, i32, i32)) -> (r: bool)
    ensures
        r == key_le((a.0 as int, a.1 as int, a.2 as int), (b.0 as int, b.1 as int, b.2 as int)),
{
    a.0 < b.0 || (a.0 == b.0 && (a.1 < b.1 || (a.1 == b.1 && a.2 <= b.2)))
}

pub(crate) fn insert_stable_exec(order: &Vec<usize>, keys: &Vec<(usize, i32, i32)>, i: usize) -> (r: Vec<usize>)
    requires
        i < keys@.len(),
        forall|k: int| 0 <= k < order@.len() ==> #[trigger] order@[k] < keys@.len(),
    ensures
        order_view(r@) == insert_stable(order_view(order@), keys_view(keys@), i as int),
        forall|k: int| 0 <= k < r@.len() ==> #[trigger] r@[k] < keys@.len(),
{
    let ghost ov = order_view(order@);
    let ghost kv = keys_view(keys@);
    let mut p: usize = order.len();
    assert(ov.subrange(0, ov.len() as int) =~= ov);
    assert(ov.subrange(ov.len() as int, ov.len() as int) =~= Seq::<int>::empty());
    while p > 0 && !key_le_exec(keys[order[p - 1]], keys[i])
        invariant
            p <= order@.len(),
            i < keys@.len(),
            forall|k: int| 0 <= k < order@.len() ==> #[trigger] order@[k] < keys@.len(),
            ov == order_view(order@),
            kv == keys_view(keys@),
            insert_stable(ov, kv, i as int) == insert_stable(ov.subrange(0, p as int), kv, i as int) + ov.subrange(p as int, ov.len() as int),
        decreases p,
    {
        let ghost pre = ov.subrange(0, p as int);
        assert(pre.drop_last() =~= ov.subrange(0, p - 1));
        assert(pre.last() == order@[p - 1] as int);
        assert(ov.subrange(p - 1, ov.len() as int) =~= seq![pre.last()] + ov.subrange(p as int, ov.len() as int));
        p -= 1;
    }
    let mut r: Vec<usize> = Vec::new();
    let mut k: usize = 0;
    while k < p
        invariant
            k <= p <= order@.len(),
            ov == order_view(order@),
            forall|m: int| 0 <= m < order@.len() ==> #[trigger] order@[m] < keys@.len(),
            forall|m: int| 0 <= m < r@.len() ==> #[trigger] r@[m] < keys@.len(),
            order_view(r@) == ov.subrange(0, k as int),
        decreases p - k,
    {
        let x = order[k];
        assert(ov[k as int] == x as int);
        let ghost before = order_view(r@);
        r.push(x);
        assert(order_view(r@) =~= before.push(x as int));
        k += 1;
        assert(order_view(r@) =~= ov.subrange(0, k as int));
    }
    r.push(i);
    let ghost mid = order_view(r@);
    assert(mid =~= ov.subrange(0, p as int).push(i as int));
    let mut k: usize = p;
    while k < order.len()
        invariant
            p <= k <= order@.len(),
            ov == order_view(order@),
            forall|m: int| 0 <= m < order@.len() ==> #[trigger] order@[m] < keys@.len(),
            forall|m: int| 0 <= m < r@.len() ==> #[trigger] r@[m] < keys@.len(),
            order_view(r@) == mid + ov.subrange(p as int, k as int),
        decreases order@.len() - k,
    {
        let x = order[k];
        assert(ov[k as int] == x as int);
        let ghost before = order_view(r@);
        r.push(x);
        assert(order_view(r@) =~= before.push(x as int));
        k += 1;
        assert(order_view(r@) =~= mid + ov.subrange(p as int, k as int));
    }
    proof {
        let pre = ov.subrange(0, p as int);
        if pre.len() > 0 {
            assert(pre.last() == order@[p - 1] as int);
        }
        assert(insert_stable(pre, kv, i as int) == pre.push(i as int));
    }
    r
}

/// The indices of the worlds in table order (a stable sort by key).
fn table_order_exec(worlds: &[World]) -> (r: Vec<usize>)
    ensures
        order_view(r@) == table_order(worlds@),
        forall|k: int| 0 <= k < r@.len() ==> #[trigger] r@[k] < worlds@.len(),
{
    let mut keys: Vec<(usize, i32, i32)> = Vec::new();
    let mut i: usize = 0;
    while i < worlds.len()
        invariant
            i <= worlds@.len(),
            keys_view(keys@) == world_keys(worlds@.subrange(0, i as int)),
        decreases worlds@.len() - i,
    {
        let k = key_of(&worlds[i]);
        let ghost before = keys_view(keys@);
        keys.push(k);
        i += 1;
        assert(keys_view(keys@) =~= before.push(world_key(worlds@[i - 1].hex@)));
        assert(world_keys(worlds@.subrange(0, i as int)) =~= world_keys(worlds@.subrange(0, i - 1)).push(world_key(worlds@[i - 1].hex@)));
    }
    assert(worlds@.subrange(0, worlds@.len() as int) =~= worlds@);
    let mut order: Vec<usize> = Vec::new();
    let mut n: usize = 0;
    assert(order_view(order@) =~= Seq::<int>::empty());
    while n < worlds.len()
        invariant
            n <= worlds@.len(),
            keys@.len() == worlds@.len(),
            keys_view(keys@) == world_keys(worlds@),
            order_view(order@) == stable_order(world_keys(worlds@), n as int),
            forall|k: int| 0 <= k < order@.len() ==> #[trigger] order@[k] < keys@.len(),
        decreases worlds@.len() - n,
    {
        order = insert_stable_exec(&order, &keys, n);
        n += 1;
    }
    order
}

// ── Tab-delimited ───────────────────────────────────────────────────────────

pub open spec fn opt_text(o: Option<String>) -> Seq<char> {
    match o {
        Some(s) => s@,
        None => Seq::empty(),
    }
}

/// The `W` column: the world count when positive.
pub open spec fn w_text(w: Option<u8>) -> Seq<char> {
    match w {
        Some(n) => if n > 0 { nat_digits(n as nat) } else { Seq::empty() },
        None => Seq::empty(),
    }
}

pub open spec fn ru_text(r: Option<i32>) -> Seq<char> {
    match r {
        Some(n) => int_decimal(n as int),
        None => Seq::empty(),
    }
}

pub open spec fn hex_text(w: World, sscoords: bool) -> Seq<char> {
    if sscoords { spec_subsector_hex(w.hex@) } else { w.hex@ }
}

pub open spec fn subsector_letter_of(hex: Seq<char>) -> char {
    ('A' as int + spec_subsector_index(hex)) as char
}

/// The fields of a world's tab-delimited row.
pub open spec fn tab_fields(w: World, abbr: Seq<char>, sscoords: bool) -> Seq<Seq<char>> {
    seq![
        abbr, seq![subsector_letter_of(w.hex@)], hex_text(w, sscoords), w.name@, w.uwp@, w.bases@, w.remarks@,
        w.zone@, w.pbg@, w.allegiance@, w.stellar@, opt_text(w.importance), opt_text(w.economic),
        opt_text(w.cultural), opt_text(w.nobility), w_text(w.worlds), ru_text(w.resource_units)
    ]
}

/// A world's tab-delimited row has 17 fields, the sector abbreviation first
/// and the subsector letter second; when no field holds a tab, splitting the
/// row at its tabs gives the fields back.
pub proof fn law_tab_row_fields(w: World, abbr: Seq<char>, sscoords: bool)
    ensures
        tab_fields(w, abbr, sscoords).len() == 17,
        tab_fields(w, abbr, sscoords)[0] == abbr,
        tab_fields(w, abbr, sscoords)[1] == seq![subsector_letter_of(w.hex@)],
        (forall|i: int| 0 <= i < 17 ==> !(#[trigger] tab_fields(w, abbr, sscoords)[i]).contains('\t'))
            ==> crate::text::split_on(join_with(tab_fields(w, abbr, sscoords), '\t'), '\t') == tab_fields(w, abbr, sscoords),
{
    let f = tab_fields(w, abbr, sscoords);
    if forall|i: int| 0 <= i < 17 ==> !(#[trigger] f[i]).contains('\t') {
        crate::text::lemma_split_join(f, '\t');
    }
}

/// How many line feeds `s` holds.
pub open spec fn line_feeds(s: Seq<char>) -> int
    decreases s.len(),
{
    if s.len() == 0 { 0 } else { line_feeds(s.drop_last()) + if s.last() == '\n' { 1int } else { 0int } }
}

proof fn lemma_line_feeds_add(a: Seq<char>, b: Seq<char>)
    ensures
        line_feeds(a + b) == line_feeds(a) + line_feeds(b),
    decreases b.len(),
{
    if b.len() == 0 {
        assert(a + b =~= a);
    } else {
        lemma_line_feeds_add(a, b.drop_last());
        assert((a + b).drop_last() =~= a + b.drop_last());
    }
}

proof fn lemma_line_feeds_none(s: Seq<char>)
    requires
        !s.contains('\n'),
    ensures
        line_feeds(s) == 0,
    decreases s.len(),
{
    if s.len() > 0 {
        assert(!s.drop_last().contains('\n')) by {
            if s.drop_last().contains('\n') {
                let k = choose|k: int| 0 <= k < s.drop_last().len() && s.drop_last()[k] == '\n';
                assert(s[k] == '\n');
            }
        }
        lemma_line_feeds_none(s.drop_last());
        assert(s[s.len() - 1] == s.last());
    }
}

proof fn lemma_join_line_feeds(parts: Seq<Seq<char>>)
    requires
        forall|i: int| 0 <= i < parts.len() ==> !(#[trigger] parts[i]).contains('\n'),
    ensures
        line_feeds(join_with(parts, '\t')) == 0,
    decreases parts.len(),
{
    if parts.len() == 1 {
        lemma_line_feeds_none(parts[0]);
    } else if parts.len() > 1 {
        lemma_join_line_feeds(parts.drop_last());
        lemma_line_feeds_add(join_with(parts.drop_last(), '\t'), seq!['\t']);
        lemma_line_feeds_add(join_with(parts.drop_last(), '\t') + seq!['\t'], parts.last());
        assert(line_feeds(seq!['\t']) == 0) by {
            assert(seq!['\t'].drop_last() =~= Seq::<char>::empty());
            assert(line_feeds(Seq::<char>::empty()) == 0);
            assert(seq!['\t'].last() == '\t');
        }
        lemma_line_feeds_none(parts.last());
    }
}

proof fn lemma_tab_rows_line_feeds(ws: Seq<World>, order: Seq<int>, abbr: Seq<char>, sscoords: bool)
    requires
        forall|k: int, j: int| 0 <= k < order.len() && 0 <= j < 17
            ==> !(#[trigger] tab_fields(ws[#[trigger] order[k]], abbr, sscoords)[j]).contains('\n'),
    ensures
        line_feeds(tab_rows(ws, order, abbr, sscoords)) == order.len(),
    decreases order.len(),
{
    if order.len() > 0 {
        let d = order.drop_last();
        assert forall|k: int, j: int| 0 <= k < d.len() && 0 <= j < 17
            implies !(#[trigger] tab_fields(ws[#[trigger] d[k]], abbr, sscoords)[j]).contains('\n') by {
            assert(d[k] == order[k]);
        }
        lemma_tab_rows_line_feeds(ws, d, abbr, sscoords);
        let f = tab_fields(ws[order.last()], abbr, sscoords);
        assert forall|j: int| 0 <= j < f.len() implies !(#[trigger] f[j]).contains('\n') by {
            assert(order[order.len() - 1] == order.last());
        }
        lemma_join_line_feeds(f);
        let prev = tab_rows(ws, d, abbr, sscoords);
        lemma_line_feeds_add(prev, join_with(f, '\t'));
        lemma_line_feeds_add(prev + join_with(f, '\t'), crlf());
        assert(line_feeds(crlf()) == 1) by {
            assert(crlf().drop_last() =~= seq!['\r']);
            assert(seq!['\r'].drop_last() =~= Seq::<char>::empty());
            assert(line_feeds(Seq::<char>::empty()) == 0);
            assert(seq!['\r'].last() == '\r');
            assert(line_feeds(seq!['\r']) == 0);
            assert(crlf().last() == '\n');
        }
    }
}

/// When no field of any world holds a line feed, the tab-delimited table has
/// one line per world, plus one for the header when it is written.
pub proof fn law_tab_line_count(ws: Seq<World>, abbr: Seq<char>, opts: WriteOptions)
    requires
        forall|i: int, j: int| 0 <= i < ws.len() && 0 <= j < 17
            ==> !(#[trigger] tab_fields(#[trigger] ws[i], abbr, opts.sscoords)[j]).contains('\n'),
    ensures
        line_feeds(tab_text(ws, abbr, opts)) == ws.len() + (if opts.include_header { 1int } else { 0int }),
{
    law_table_order(ws);
    let order = table_order(ws);
    assert forall|k: int, j: int| 0 <= k < order.len() && 0 <= j < 17
        implies !(#[trigger] tab_fields(ws[#[trigger] order[k]], abbr, opts.sscoords)[j]).contains('\n') by {
        assert(order.contains(order[k]));
    }
    lemma_tab_rows_line_feeds(ws, order, abbr, opts.sscoords);
    let head: Seq<char> = if opts.include_header { tab_header() + crlf() } else { Seq::empty() };
    lemma_line_feeds_add(head, tab_rows(ws, order, abbr, opts.sscoords));
    if opts.include_header {
        lemma_line_feeds_add(tab_header(), crlf());
        assert(!tab_header().contains('\n')) by {
            reveal_strlit("Sector\tSS\tHex\tName\tUWP\tBases\tRemarks\tZone\tPBG\tAllegiance\tStars\t{Ix}\t(Ex)\t[Cx]\tNobility\tW\tRU");
        }
        lemma_line_feeds_none(tab_header());
        assert(line_feeds(crlf()) == 1) by {
            assert(crlf().drop_last() =~= seq!['\r']);
            assert(seq!['\r'].drop_last() =~= Seq::<char>::empty());
            assert(line_feeds(Seq::<char>::empty()) == 0);
            assert(seq!['\r'].last() == '\r');
            assert(line_feeds(seq!['\r']) == 0);
            assert(crlf().last() == '\n');
        }
    } else {
        assert(line_feeds(head) == 0);
    }
}

/// `parts` joined by `sep`.
pub open spec fn join_with(parts: Seq<Seq<char>>, sep: char) -> Seq<char>
    decreases parts.len(),
{
    if parts.len() == 0 {
        Seq::empty()
    } else if parts.len() == 1 {
        parts[0]
    } else {
        join_with(parts.drop_last(), sep) + seq![sep] + parts.last()
    }
}

pub open spec fn crlf() -> Seq<char> {
    seq!['\r', '\n']
}

pub open spec fn tab_header() -> Seq<char> {
    "Sector\tSS\tHex\tName\tUWP\tBases\tRemarks\tZone\tPBG\tAllegiance\tStars\t{Ix}\t(Ex)\t[Cx]\tNobility\tW\tRU"@
}

/// The rows of the worlds at `order`, in that order.
pub open spec fn tab_rows(ws: Seq<World>, order: Seq<int>, abbr: Seq<char>, sscoords: bool) -> Seq<char>
    decreases order.len(),
{
    if order.len() == 0 {
        Seq::empty()
    } else {
        tab_rows(ws, order.drop_last(), abbr, sscoords) + join_with(tab_fields(ws[order.last()], abbr, sscoords), '\t') + crlf()
    }
}

/// The whole tab-delimited table.
pub open spec fn tab_text(ws: Seq<World>, abbr: Seq<char>, opts: WriteOptions) -> Seq<char> {
    (if opts.include_header { tab_header() + crlf() } else { Seq::empty() })
        + tab_rows(ws, table_order(ws), abbr, opts.sscoords)
}

fn push_chars(out: &mut Vec<char>, s: &Vec<char>)
    ensures
        final(out)@ == old(out)@ + s@,
{
    let mut i: usize = 0;
    while i < s.len()
        invariant
            i <= s@.len(),
            out@ == old(out)@ + s@.subrange(0, i as int),
        decreases s@.len() - i,
    {
        out.push(s[i]);
        i += 1;
        assert(out@ =~= old(out)@ + s@.subrange(0, i as int));
    }
    assert(s@.subrange(0, s@.len() as int) =~= s@);
}

/// Append `parts` joined by `sep`.
pub(crate) fn push_joined_chars(out: &mut Vec<char>, parts: &Vec<Vec<char>>, sep: char)
    ensures
        final(out)@ == old(out)@ + join_with(parts@.map_values(|p: Vec<char>| p@), sep),
{
    let ghost pv = parts@.map_values(|p: Vec<char>| p@);
    let mut i: usize = 0;
    assert(join_with(pv.subrange(0, 0), sep) =~= Seq::<char>::empty());
    assert(out@ =~= old(out)@ + join_with(pv.subrange(0, 0), sep));
    while i < parts.len()
        invariant
            i <= parts@.len(),
            pv == parts@.map_values(|p: Vec<char>| p@),
            out@ == old(out)@ + join_with(pv.subrange(0, i as int), sep),
        decreases parts@.len() - i,
    {
        let ghost before = out@;
        if i > 0 {
            out.push(sep);
        }
        push_chars(out, &parts[i]);
        i += 1;
        let ghost sub = pv.subrange(0, i as int);
        assert(sub.drop_last() =~= pv.subrange(0, i - 1));
        assert(sub.last() == parts@[i - 1]@);
        if i == 1 {
            assert(sub.len() == 1);
            assert(out@ =~= old(out)@ + join_with(sub, sep));
        } else {
            assert(out@ =~= old(out)@ + join_with(sub, sep));
        }
    }
    assert(pv.subrange(0, pv.len() as int) =~= pv);
}

fn opt_chars(o: &Option<String>) -> (r: Vec<char>)
    ensures
        r@ == opt_text(*o),
{
    match o {
        Some(s) => chars_of(s.as_str()),
        None => Vec::new(),
    }
}

fn w_chars(w: Option<u8>) -> (r: Vec<char>)
    ensures
        r@ == w_text(w),
{
    let mut v: Vec<char> = Vec::new();
    match w {
        Some(n) => {
            if n > 0 {
                push_digits(&mut v, n as u128);
                assert(v@ =~= nat_digits(n as nat));
            }
        },
        None => {},
    }
    v
}

fn ru_chars(r: Option<i32>) -> (v: Vec<char>)
    ensures
        v@ == ru_text(r),
{
    let mut v: Vec<char> = Vec::new();
    match r {
        Some(n) => {
            push_int(&mut v, n as i64);
            assert(v@ =~= int_decimal(n as int));
        },
        None => {},
    }
    v
}

fn hex_chars(w: &World, opts: &WriteOptions) -> (r: Vec<char>)
    ensures
        r@ == hex_text(*w, opts.sscoords),
{
    if opts.sscoords {
        let s = subsector_hex(w.hex.as_str());
        chars_of(s.as_str())
    } else {
        chars_of(w.hex.as_str())
    }
}

/// The tab-delimited table (`Sector SS Hex Name UWP Bases Remarks Zone PBG
/// Allegiance Stars {Ix} (Ex) [Cx] Nobility W RU`), worlds ordered by
/// subsector, then column, then row (ties in input order), every row tagged
/// with the sector abbreviation and subsector letter.
pub fn write_tab(worlds: &[World], sector_abbreviation: &str, opts: &WriteOptions) -> (s: String)
    ensures
        s@ == tab_text(worlds@, sector_abbreviation@, *opts),
{
    let mut out: Vec<char> = Vec::new();
    if opts.include_header {
        push_str_chars(&mut out, "Sector\tSS\tHex\tName\tUWP\tBases\tRemarks\tZone\tPBG\tAllegiance\tStars\t{Ix}\t(Ex)\t[Cx]\tNobility\tW\tRU");
        out.push('\r');
        out.push('\n');
    }
    let ghost head = out@;
    assert(head =~= (if opts.include_header { tab_header() + crlf() } else { Seq::<char>::empty() }));
    let order = table_order_exec(worlds);
    let ghost ov = order_view(order@);
    let abbr = chars_of(sector_abbreviation);
    let mut k: usize = 0;
    assert(ov.subrange(0, 0) =~= Seq::<int>::empty());
    assert(out@ =~= head + tab_rows(worlds@, ov.subrange(0, 0), sector_abbreviation@, opts.sscoords));
    while k < order.len()
        invariant
            k <= order@.len(),
            ov == order_view(order@),
            abbr@ == sector_abbreviation@,
            forall|m: int| 0 <= m < order@.len() ==> #[trigger] order@[m] < worlds@.len(),
            out@ == head + tab_rows(worlds@, ov.subrange(0, k as int), sector_abbreviation@, opts.sscoords),
        decreases order@.len() - k,
    {
        let w = &worlds[order[k]];
        let ss = subsector_letter(w.hex.as_str());
        let mut ssv: Vec<char> = Vec::new();
        ssv.push(ss);
        let mut fields: Vec<Vec<char>> = Vec::new();
        fields.push(slice_to_vec(&abbr, 0, abbr.len()));
        fields.push(ssv);
        fields.push(hex_chars(w, opts));
        fields.push(chars_of(w.name.as_str()));
        fields.push(chars_of(w.uwp.as_str()));
        fields.push(chars_of(w.bases.as_str()));
        fields.push(chars_of(w.remarks.as_str()));
        fields.push(chars_of(w.zone.as_str()));
        fields.push(chars_of(w.pbg.as_str()));
        fields.push(chars_of(w.allegiance.as_str()));
        fields.push(chars_of(w.stellar.as_str()));
        fields.push(opt_chars(&w.importance));
        fields.push(opt_chars(&w.economic));
        fields.push(opt_chars(&w.cultural));
        fields.push(opt_chars(&w.nobility));
        fields.push(w_chars(w.worlds));
        fields.push(ru_chars(w.resource_units));
        assert(abbr@.subrange(0, abbr@.len() as int) =~= abbr@);
        assert(fields@.map_values(|p: Vec<char>| p@) =~= tab_fields(*w, sector_abbreviation@, opts.sscoords));
        let ghost before = out@;
        push_joined_chars(&mut out, &fields, '\t');
        out.push('\r');
        out.push('\n');
        k += 1;
        let ghost sub = ov.subrange(0, k as int);
        assert(sub.drop_last() =~= ov.subrange(0, k - 1));
        assert(sub.last() == order@[k - 1] as int);
        assert(out@ =~= head + tab_rows(worlds@, sub, sector_abbreviation@, opts.sscoords));
    }
    assert(ov.subrange(0, ov.len() as int) =~= ov);
    string_from_chars(&out)
}

} // verus!

verus! {

// ── Aligned columns ─────────────────────────────────────────────────────────

/// How many bytes `c` takes in UTF-8.
pub open spec fn utf8_width(c: char) -> nat {
    if '\u{80}' > c {
        1
    } else if '\u{800}' > c {
        2
    } else if '\u{10000}' > c {
        3
    } else {
        4
    }
}

/// The UTF-8 length of `s` in bytes (what `str::len` gives).
pub open spec fn byte_len(s: Seq<char>) -> nat
    decreases s.len(),
{
    if s.len() == 0 { 0 } else { byte_len(s.drop_last()) + utf8_width(s.last()) }
}

proof fn lemma_byte_len_bound(s: Seq<char>)
    ensures
        byte_len(s) <= 4 * s.len(),
    decreases s.len(),
{
    if s.len() > 0 {
        lemma_byte_len_bound(s.drop_last());
    }
}

fn byte_len_of(s: &Vec<char>) -> (n: u128)
    ensures
        n as int == byte_len(s@),
        n <= 4 * usize::MAX,
{
    let len = s.len();
    let mut n: u128 = 0;
    let mut i: usize = 0;
    while i < len
        invariant
            i <= len,
            len == s@.len(),
            n as int == byte_len(s@.subrange(0, i as int)),
            n <= 4 * i,
        decreases len - i,
    {
        proof {
            assert(s@.subrange(0, i + 1).drop_last() =~= s@.subrange(0, i as int));
        }
        let c = s[i];
        let w: u128 = if '\u{80}' > c { 1 } else if '\u{800}' > c { 2 } else if '\u{10000}' > c { 3 } else { 4 };
        n = n + w;
        i += 1;
    }
    assert(s@.subrange(0, s@.len() as int) =~= s@);
    n
}

pub open spec fn max_int(a: int, b: int) -> int {
    if a >= b { a } else { b }
}

/// The widest cell of column `i` over `rows`, in bytes.
pub open spec fn widest(rows: Seq<Seq<Seq<char>>>, i: int) -> int
    decreases rows.len(),
{
    if rows.len() == 0 { 0 } else { max_int(widest(rows.drop_last(), i), byte_len(rows.last()[i]) as int) }
}

/// Column widths: the widest cell of each column, at least its minimum.
pub open spec fn column_widths(rows: Seq<Seq<Seq<char>>>, mins: Seq<int>) -> Seq<int> {
    Seq::new(mins.len(), |i: int| max_int(widest(rows, i), mins[i]))
}

pub open spec fn repeat_char(c: char, n: int) -> Seq<char> {
    Seq::new(if n < 0 { 0 } else { n as nat }, |_i: int| c)
}

/// A cell padded with spaces to the column width.
pub open spec fn padded(cell: Seq<char>, width: int) -> Seq<char> {
    cell + repeat_char(' ', width - byte_len(cell))
}

/// The first `k` cells of a row, padded and separated by spaces.
pub open spec fn render_cells(row: Seq<Seq<char>>, widths: Seq<int>, k: int) -> Seq<char>
    decreases k,
{
    if k <= 0 {
        Seq::empty()
    } else if k == 1 {
        padded(row[0], widths[0])
    } else {
        render_cells(row, widths, k - 1) + seq![' '] + padded(row[k - 1], widths[k - 1])
    }
}

/// The dash runs under the first `k` column headers.
pub open spec fn dash_cells(widths: Seq<int>, k: int) -> Seq<char>
    decreases k,
{
    if k <= 0 {
        Seq::empty()
    } else if k == 1 {
        repeat_char('-', widths[0])
    } else {
        dash_cells(widths, k - 1) + seq![' '] + repeat_char('-', widths[k - 1])
    }
}

/// Rows `1..n` of the table, each padded and ended with CRLF.
pub open spec fn body_text(rows: Seq<Seq<Seq<char>>>, widths: Seq<int>, n: int) -> Seq<char>
    decreases n,
{
    if n <= 1 {
        Seq::empty()
    } else {
        body_text(rows, widths, n - 1) + render_cells(rows[n - 1], widths, rows[n - 1].len() as int) + crlf()
    }
}

/// The aligned table: the header row and its dash row (when wanted), then the
/// data rows.
pub open spec fn table_text(rows: Seq<Seq<Seq<char>>>, widths: Seq<int>, include_header: bool) -> Seq<char> {
    (if include_header {
        render_cells(rows[0], widths, rows[0].len() as int) + crlf() + dash_cells(widths, widths.len() as int) + crlf()
    } else {
        Seq::empty()
    }) + body_text(rows, widths, rows.len() as int)
}

proof fn lemma_widest_covers(rows: Seq<Seq<Seq<char>>>, i: int, r: int)
    requires
        0 <= r < rows.len(),
    ensures
        widest(rows, i) >= byte_len(rows[r][i]),
    decreases rows.len(),
{
    if r < rows.len() - 1 {
        lemma_widest_covers(rows.drop_last(), i, r);
        assert(rows.drop_last()[r] == rows[r]);
    }
}

proof fn lemma_render_width(row: Seq<Seq<char>>, widths: Seq<int>, k: int)
    requires
        0 <= k <= row.len(),
        k <= widths.len(),
        forall|i: int| 0 <= i < k ==> byte_len(#[trigger] row[i]) == row[i].len() && row[i].len() <= widths[i],
    ensures
        render_cells(row, widths, k).len() == dash_cells(widths, k).len(),
    decreases k,
{
    if k > 0 {
        lemma_render_width(row, widths, k - 1);
        assert(byte_len(row[k - 1]) == row[k - 1].len() && row[k - 1].len() <= widths[k - 1]);
        assert(padded(row[k - 1], widths[k - 1]).len() == widths[k - 1]);
        if k == 1 {
            assert(padded(row[0], widths[0]).len() == widths[0]);
        }
    }
}

/// The aligned table's columns are each at least their minimum and as wide
/// as every cell in them; a row of one-byte characters therefore renders to
/// exactly the width of the dash row, so such rows all line up.
pub proof fn law_aligned_rows(rows: Seq<Seq<Seq<char>>>, mins: Seq<int>, r: int)
    requires
        0 <= r < rows.len(),
        rows[r].len() == mins.len(),
        forall|i: int| 0 <= i < mins.len() ==> byte_len(#[trigger] rows[r][i]) == rows[r][i].len(),
    ensures
        forall|i: int| 0 <= i < mins.len() ==> #[trigger] column_widths(rows, mins)[i] >= mins[i]
            && column_widths(rows, mins)[i] >= byte_len(rows[r][i]),
        render_cells(rows[r], column_widths(rows, mins), mins.len() as int).len()
            == dash_cells(column_widths(rows, mins), mins.len() as int).len(),
{
    let widths = column_widths(rows, mins);
    assert forall|i: int| 0 <= i < mins.len() implies #[trigger] widths[i] >= mins[i] && widths[i] >= byte_len(rows[r][i]) by {
        lemma_widest_covers(rows, i, r);
    }
    lemma_render_width(rows[r], widths, mins.len() as int);
}

/// Fixed-width, space-separated columns with a dash row under the header.
/// Cells are trimmed; each column is padded to its widest cell (in bytes),
/// and at least to its minimum.
struct ColumnSerializer {
    rows: Vec<Vec<Vec<char>>>,
    minimums: Vec<u128>,
    names: Vec<Vec<char>>,
}

pub open spec fn table_view(rows: Seq<Vec<Vec<char>>>) -> Seq<Seq<Seq<char>>> {
    rows.map_values(|r: Vec<Vec<char>>| r@.map_values(|c: Vec<char>| c@))
}

impl ColumnSerializer {
    /// Every row has one cell per column, and the header is the first row.
    spec fn well_formed(&self) -> bool {
        &&& self.rows@.len() >= 1
        &&& self.minimums@.len() == self.names@.len()
        &&& forall|k: int| 0 <= k < self.rows@.len() ==> (#[trigger] self.rows@[k])@.len() == self.names@.len()
        &&& table_view(self.rows@)[0] == self.names@.map_values(|c: Vec<char>| c@)
        &&& forall|k: int| 0 <= k < self.minimums@.len() ==> #[trigger] self.minimums@[k] <= 0xffff_ffff
    }

    spec fn mins_view(&self) -> Seq<int> {
        self.minimums@.map_values(|m: u128| m as int)
    }

    fn new(header: &Vec<Vec<char>>) -> (t: ColumnSerializer)
        ensures
            t.well_formed(),
            t.names@.map_values(|c: Vec<char>| c@) == header@.map_values(|c: Vec<char>| trim(c@)),
            table_view(t.rows@) == seq![header@.map_values(|c: Vec<char>| trim(c@))],
            t.mins_view() == Seq::new(header@.len(), |_i: int| 0int),
    {
        let mut names: Vec<Vec<char>> = Vec::new();
        let mut first: Vec<Vec<char>> = Vec::new();
        let mut minimums: Vec<u128> = Vec::new();
        let mut i: usize = 0;
        while i < header.len()
            invariant
                i <= header@.len(),
                names@.len() == i,
                minimums@.len() == i,
                names@.map_values(|c: Vec<char>| c@) == header@.subrange(0, i as int).map_values(|c: Vec<char>| trim(c@)),
                first@.map_values(|c: Vec<char>| c@) == header@.subrange(0, i as int).map_values(|c: Vec<char>| trim(c@)),
                forall|k: int| 0 <= k < i ==> #[trigger] minimums@[k] == 0,
            decreases header@.len() - i,
        {
            let t = trim_chars(&header[i]);
            let t2 = trim_chars(&header[i]);
            let ghost nb = names@.map_values(|c: Vec<char>| c@);
            let ghost fb = first@.map_values(|c: Vec<char>| c@);
            names.push(t);
            first.push(t2);
            minimums.push(0);
            i += 1;
            assert(names@.map_values(|c: Vec<char>| c@) =~= nb.push(trim(header@[i - 1]@)));
            assert(first@.map_values(|c: Vec<char>| c@) =~= fb.push(trim(header@[i - 1]@)));
            assert(header@.subrange(0, i as int).map_values(|c: Vec<char>| trim(c@))
                =~= header@.subrange(0, i - 1).map_values(|c: Vec<char>| trim(c@)).push(trim(header@[i - 1]@)));
        }
        assert(header@.subrange(0, header@.len() as int) =~= header@);
        let mut rows: Vec<Vec<Vec<char>>> = Vec::new();
        rows.push(first);
        let t = ColumnSerializer { rows, minimums, names };
        assert(table_view(t.rows@) =~= seq![header@.map_values(|c: Vec<char>| trim(c@))]);
        assert(t.mins_view() =~= Seq::new(header@.len(), |_i: int| 0int));
        t
    }

    /// Set the minimum width of the first column named `col`.
    fn set_minimum_width(&mut self, col: &Vec<char>, width: u128)
        requires
            old(self).well_formed(),
            width <= 0xffff_ffff,
        ensures
            final(self).well_formed(),
            final(self).rows@ == old(self).rows@,
            final(self).names@ == old(self).names@,
            final(self).mins_view() == (match first_index(old(self).names@.map_values(|c: Vec<char>| c@), col@) {
                Some(i) => old(self).mins_view().update(i, width as int),
                None => old(self).mins_view(),
            }),
    {
        let ghost nv = self.names@.map_values(|c: Vec<char>| c@);
        let mut i: usize = 0;
        while i < self.names.len()
            invariant
                i <= self.names@.len(),
                self.names@ == old(self).names@,
                self.rows@ == old(self).rows@,
                self.minimums@ == old(self).minimums@,
                self.well_formed(),
                width <= 0xffff_ffff,
                nv == self.names@.map_values(|c: Vec<char>| c@),
                first_index(nv, col@) == first_index_from(nv, col@, i as int),
            decreases self.names@.len() - i,
        {
            if crate::searchlang::chars_eq(&self.names[i], col) {
                assert(nv[i as int] == col@);
                self.minimums.set(i, width);
                assert(self.mins_view() =~= old(self).mins_view().update(i as int, width as int));
                return;
            }
            i += 1;
        }
    }

    /// Add a data row (one cell per column), trimming each cell.
    fn add_row(&mut self, data: &Vec<Vec<char>>)
        requires
            old(self).well_formed(),
            data@.len() == old(self).names@.len(),
        ensures
            final(self).well_formed(),
            table_view(final(self).rows@) == table_view(old(self).rows@).push(data@.map_values(|c: Vec<char>| trim(c@))),
            final(self).names@ == old(self).names@,
            final(self).mins_view() == old(self).mins_view(),
    {
        let mut row: Vec<Vec<char>> = Vec::new();
        let mut i: usize = 0;
        while i < data.len()
            invariant
                i <= data@.len(),
                row@.len() == i,
                row@.map_values(|c: Vec<char>| c@) == data@.subrange(0, i as int).map_values(|c: Vec<char>| trim(c@)),
            decreases data@.len() - i,
        {
            let ghost rb = row@.map_values(|c: Vec<char>| c@);
            row.push(trim_chars(&data[i]));
            i += 1;
            assert(row@.map_values(|c: Vec<char>| c@) =~= rb.push(trim(data@[i - 1]@)));
            assert(data@.subrange(0, i as int).map_values(|c: Vec<char>| trim(c@))
                =~= data@.subrange(0, i - 1).map_values(|c: Vec<char>| trim(c@)).push(trim(data@[i - 1]@)));
        }
        assert(data@.subrange(0, data@.len() as int) =~= data@);
        let ghost before = table_view(self.rows@);
        self.rows.push(row);
        assert(table_view(self.rows@) =~= before.push(data@.map_values(|c: Vec<char>| trim(c@))));
        assert(table_view(self.rows@)[0] == before[0]);
    }

    /// Each column's width (see [`column_widths`]).
    fn widths(&self) -> (w: Vec<u128>)
        requires
            self.well_formed(),
        ensures
            w@.map_values(|x: u128| x as int) == column_widths(table_view(self.rows@), self.mins_view()),
    {
        let ghost tv = table_view(self.rows@);
        let n = self.names.len();
        let mut w: Vec<u128> = Vec::new();
        let mut i: usize = 0;
        while i < n
            invariant
                i <= n,
                n == self.names@.len(),
                self.well_formed(),
                tv == table_view(self.rows@),
                w@.map_values(|x: u128| x as int) == column_widths(tv, self.mins_view()).subrange(0, i as int),
            decreases n - i,
        {
            let mut m: u128 = 0;
            let mut k: usize = 0;
            while k < self.rows.len()
                invariant
                    k <= self.rows@.len(),
                    i < n,
                    n == self.names@.len(),
                    self.well_formed(),
                    tv == table_view(self.rows@),
                    m as int == widest(tv.subrange(0, k as int), i as int),
                    m <= 4 * usize::MAX,
                decreases self.rows@.len() - k,
            {
                assert(tv.subrange(0, k + 1).drop_last() =~= tv.subrange(0, k as int));
                assert(self.rows@[k as int]@.len() == n);
                assert(tv[k as int][i as int] == self.rows@[k as int]@[i as int]@);
                let b = byte_len_of(&self.rows[k][i]);
                proof { lemma_byte_len_bound(self.rows@[k as int]@[i as int]@); }
                if b > m {
                    m = b;
                }
                k += 1;
            }
            assert(tv.subrange(0, tv.len() as int) =~= tv);
            let mn = self.minimums[i];
            let width = if mn > m { mn } else { m };
            let ghost wb = w@.map_values(|x: u128| x as int);
            w.push(width);
            i += 1;
            assert(w@.map_values(|x: u128| x as int) =~= wb.push(width as int));
            assert(column_widths(tv, self.mins_view()).subrange(0, i as int)
                =~= column_widths(tv, self.mins_view()).subrange(0, i - 1).push(width as int));
        }
        assert(column_widths(tv, self.mins_view()).subrange(0, n as int) =~= column_widths(tv, self.mins_view()));
        w
    }

    /// Append one row: cells padded to the widths and separated by spaces.
    fn render(&self, out: &mut Vec<char>, k: usize, widths: &Vec<u128>)
        requires
            self.well_formed(),
            k < self.rows@.len(),
            widths@.len() == self.names@.len(),
        ensures
            final(out)@ == old(out)@ + render_cells(table_view(self.rows@)[k as int], widths@.map_values(|x: u128| x as int),
                self.names@.len() as int) + crlf(),
    {
        let ghost tv = table_view(self.rows@);
        let ghost wv = widths@.map_values(|x: u128| x as int);
        let row = &self.rows[k];
        let n = row.len();
        assert(tv[k as int].len() == n);
        let mut i: usize = 0;
        assert(out@ =~= old(out)@ + render_cells(tv[k as int], wv, 0));
        while i < n
            invariant
                i <= n,
                n == row@.len(),
                n == widths@.len(),
                row == self.rows@[k as int],
                tv == table_view(self.rows@),
                k < self.rows@.len(),
                wv == widths@.map_values(|x: u128| x as int),
                out@ == old(out)@ + render_cells(tv[k as int], wv, i as int),
            decreases n - i,
        {
            let ghost before = out@;
            if i > 0 {
                out.push(' ');
            }
            let cell = &row[i];
            assert(tv[k as int][i as int] == cell@);
            push_chars(out, cell);
            let b = byte_len_of(cell);
            let w = widths[i];
            let pad: u128 = if w > b { w - b } else { 0 };
            let ghost mid = out@;
            let mut j: u128 = 0;
            while j < pad
                invariant
                    j <= pad,
                    out@ == mid + repeat_char(' ', j as int),
                decreases pad - j,
            {
                out.push(' ');
                j += 1;
                assert(out@ =~= mid + repeat_char(' ', j as int));
            }
            assert(repeat_char(' ', pad as int) =~= repeat_char(' ', wv[i as int] - byte_len(cell@)));
            i += 1;
            if i == 1 {
                assert(out@ =~= old(out)@ + render_cells(tv[k as int], wv, i as int));
            } else {
                assert(out@ =~= old(out)@ + render_cells(tv[k as int], wv, i as int));
            }
        }
        out.push('\r');
        out.push('\n');
    }

    /// The table text (see [`table_text`]).
    fn serialize(&self, include_header: bool) -> (s: String)
        requires
            self.well_formed(),
        ensures
            s@ == table_text(table_view(self.rows@), column_widths(table_view(self.rows@), self.mins_view()), include_header),
    {
        let ghost tv = table_view(self.rows@);
        let widths = self.widths();
        let ghost wv = widths@.map_values(|x: u128| x as int);
        assert(wv.len() == self.names@.len());
        let mut out: Vec<char> = Vec::new();
        if include_header {
            self.render(&mut out, 0, &widths);
            let ghost mid = out@;
            let mut i: usize = 0;
            assert(out@ =~= mid + dash_cells(wv, 0));
            while i < widths.len()
                invariant
                    i <= widths@.len(),
                    wv == widths@.map_values(|x: u128| x as int),
                    out@ == mid + dash_cells(wv, i as int),
                decreases widths@.len() - i,
            {
                let ghost before = out@;
                if i > 0 {
                    out.push(' ');
                }
                let w = widths[i];
                let ghost mid2 = out@;
                let mut j: u128 = 0;
                while j < w
                    invariant
                        j <= w,
                        out@ == mid2 + repeat_char('-', j as int),
                    decreases w - j,
                {
                    out.push('-');
                    j += 1;
                    assert(out@ =~= mid2 + repeat_char('-', j as int));
                }
                i += 1;
                assert(wv[i - 1] == w as int);
                assert(out@ =~= mid + dash_cells(wv, i as int));
            }
            out.push('\r');
            out.push('\n');
        }
        let ghost head = out@;
        assert(head =~= (if include_header {
            render_cells(tv[0], wv, tv[0].len() as int) + crlf() + dash_cells(wv, wv.len() as int) + crlf()
        } else {
            Seq::<char>::empty()
        }));
        let mut k: usize = 1;
        assert(out@ =~= head + body_text(tv, wv, 1));
        while k < self.rows.len()
            invariant
                1 <= k <= self.rows@.len(),
                self.well_formed(),
                tv == table_view(self.rows@),
                widths@.len() == self.names@.len(),
                wv == widths@.map_values(|x: u128| x as int),
                out@ == head + body_text(tv, wv, k as int),
            decreases self.rows@.len() - k,
        {
            self.render(&mut out, k, &widths);
            assert(tv[k as int].len() == self.names@.len());
            k += 1;
            assert(out@ =~= head + body_text(tv, wv, k as int));
        }
        string_from_chars(&out)
    }

}

/// Index of the first entry equal to `x`, from `i` on.
pub open spec fn first_index_from(s: Seq<Seq<char>>, x: Seq<char>, i: int) -> Option<int>
    decreases s.len() - i,
{
    if i < 0 || i >= s.len() { None } else if s[i] == x { Some(i) } else { first_index_from(s, x, i + 1) }
}

pub open spec fn first_index(s: Seq<Seq<char>>, x: Seq<char>) -> Option<int> {
    first_index_from(s, x, 0)
}

} // verus!

verus! {

/// The Second Survey column names.
pub open spec fn survey_header() -> Seq<Seq<char>> {
    seq!["Hex"@, "Name"@, "UWP"@, "Remarks"@, "{Ix}"@, "(Ex)"@, "[Cx]"@, "N"@, "B"@, "Z"@, "PBG"@, "W"@, "A"@, "Stellar"@]
}

/// `-` for a blank value.
pub open spec fn dash_if_blank(s: Seq<char>) -> Seq<char> {
    if trim(s).len() == 0 { "-"@ } else { s }
}

/// A world's Second Survey cells, before trimming.
pub open spec fn survey_cells(w: World, sscoords: bool) -> Seq<Seq<char>> {
    seq![
        hex_text(w, sscoords), w.name@, w.uwp@, w.remarks@, opt_text(w.importance), opt_text(w.economic),
        opt_text(w.cultural), dash_if_blank(opt_text(w.nobility)), dash_if_blank(w.bases@), dash_if_blank(w.zone@),
        w.pbg@, w_text(w.worlds), w.allegiance@, w.stellar@
    ]
}

pub open spec fn trim_all(cells: Seq<Seq<char>>) -> Seq<Seq<char>> {
    cells.map_values(|c: Seq<char>| trim(c))
}

/// The header row, then each world's row in table order, all cells trimmed.
pub open spec fn survey_rows(ws: Seq<World>, order: Seq<int>, sscoords: bool) -> Seq<Seq<Seq<char>>>
    decreases order.len(),
{
    if order.len() == 0 {
        seq![trim_all(survey_header())]
    } else {
        survey_rows(ws, order.drop_last(), sscoords).push(trim_all(survey_cells(ws[order.last()], sscoords)))
    }
}

/// The minimum widths: the first column named `col` gets `width`.
pub open spec fn with_minimum(mins: Seq<int>, names: Seq<Seq<char>>, col: Seq<char>, width: int) -> Seq<int> {
    match first_index(names, col) {
        Some(i) => mins.update(i, width),
        None => mins,
    }
}

/// `Name` and `Remarks` are at least 20 wide.
pub open spec fn survey_minimums() -> Seq<int> {
    let names = trim_all(survey_header());
    with_minimum(with_minimum(Seq::new(14, |_i: int| 0int), names, "Name"@, 20), names, "Remarks"@, 20)
}

/// The whole Second Survey table.
pub open spec fn survey_text(ws: Seq<World>, opts: WriteOptions) -> Seq<char> {
    let rows = survey_rows(ws, table_order(ws), opts.sscoords);
    table_text(rows, column_widths(rows, survey_minimums()), opts.include_header)
}

fn dash_if_blank_chars(s: Vec<char>) -> (r: Vec<char>)
    ensures
        r@ == dash_if_blank(s@),
{
    let t = trim_chars(&s);
    if t.len() == 0 {
        let mut d: Vec<char> = Vec::new();
        d.push('-');
        proof { reveal_strlit("-"); }
        assert(d@ =~= "-"@);
        d
    } else {
        s
    }
}

fn lit(s: &str) -> (r: Vec<char>)
    ensures
        r@ == s@,
{
    chars_of(s)
}

/// The Second Survey table: aligned, space-separated columns `Hex Name UWP
/// Remarks {Ix} (Ex) [Cx] N B Z PBG W A Stellar` (blank nobility, bases and
/// zone shown as `-`), each as wide as its widest cell and `Name` and
/// `Remarks` at least 20 wide, worlds in table order.
pub fn write_second_survey(worlds: &[World], opts: &WriteOptions) -> (s: String)
    ensures
        s@ == survey_text(worlds@, *opts),
{
    let mut header: Vec<Vec<char>> = Vec::new();
    header.push(lit("Hex"));
    header.push(lit("Name"));
    header.push(lit("UWP"));
    header.push(lit("Remarks"));
    header.push(lit("{Ix}"));
    header.push(lit("(Ex)"));
    header.push(lit("[Cx]"));
    header.push(lit("N"));
    header.push(lit("B"));
    header.push(lit("Z"));
    header.push(lit("PBG"));
    header.push(lit("W"));
    header.push(lit("A"));
    header.push(lit("Stellar"));
    assert(header@.map_values(|c: Vec<char>| c@) =~= survey_header());
    let mut table = ColumnSerializer::new(&header);
    assert(header@.map_values(|c: Vec<char>| trim(c@)) =~= trim_all(survey_header()));
    assert(table.mins_view() =~= Seq::new(14, |_i: int| 0int));
    let name_col = lit("Name");
    table.set_minimum_width(&name_col, 20);
    let remarks_col = lit("Remarks");
    table.set_minimum_width(&remarks_col, 20);
    assert(table.mins_view() == survey_minimums());

    let order = table_order_exec(worlds);
    let ghost ov = order_view(order@);
    let mut k: usize = 0;
    assert(ov.subrange(0, 0) =~= Seq::<int>::empty());
    while k < order.len()
        invariant
            k <= order@.len(),
            ov == order_view(order@),
            forall|m: int| 0 <= m < order@.len() ==> #[trigger] order@[m] < worlds@.len(),
            table.well_formed(),
            table.names@.len() == 14,
            table.mins_view() == survey_minimums(),
            table_view(table.rows@) == survey_rows(worlds@, ov.subrange(0, k as int), opts.sscoords),
        decreases order@.len() - k,
    {
        let w = &worlds[order[k]];
        let mut cells: Vec<Vec<char>> = Vec::new();
        cells.push(hex_chars(w, opts));
        cells.push(chars_of(w.name.as_str()));
        cells.push(chars_of(w.uwp.as_str()));
        cells.push(chars_of(w.remarks.as_str()));
        cells.push(opt_chars(&w.importance));
        cells.push(opt_chars(&w.economic));
        cells.push(opt_chars(&w.cultural));
        cells.push(dash_if_blank_chars(opt_chars(&w.nobility)));
        cells.push(dash_if_blank_chars(chars_of(w.bases.as_str())));
        cells.push(dash_if_blank_chars(chars_of(w.zone.as_str())));
        cells.push(chars_of(w.pbg.as_str()));
        cells.push(w_chars(w.worlds));
        cells.push(chars_of(w.allegiance.as_str()));
        cells.push(chars_of(w.stellar.as_str()));
        assert(cells@.map_values(|c: Vec<char>| c@) =~= survey_cells(*w, opts.sscoords));
        table.add_row(&cells);
        assert(cells@.map_values(|c: Vec<char>| trim(c@)) =~= trim_all(survey_cells(*w, opts.sscoords)));
        k += 1;
        let ghost sub = ov.subrange(0, k as int);
        assert(sub.drop_last() =~= ov.subrange(0, k - 1));
        assert(sub.last() == order@[k - 1] as int);
    }
    assert(ov.subrange(0, ov.len() as int) =~= ov);
    table.serialize(opts.include_header)
}

} // verus!

verus! {

// ── The order of the written worlds ────────────────────────────────────────

/// `o` lists indices in key order, equal keys in increasing index order.
pub open spec fn in_key_order(o: Seq<int>, keys: Seq<(int, int, int)>) -> bool {
    &&& forall|a: int, b: int| 0 <= a < b < o.len() ==> key_le(keys[#[trigger] o[a]], keys[#[trigger] o[b]])
    &&& forall|a: int, b: int| 0 <= a < b < o.len() && key_le(keys[o[b]], keys[o[a]]) ==> #[trigger] o[a] < #[trigger] o[b]
}

proof fn lemma_insert_members(order: Seq<int>, keys: Seq<(int, int, int)>, i: int)
    ensures
        insert_stable(order, keys, i).len() == order.len() + 1,
        forall|x: int| #[trigger] insert_stable(order, keys, i).contains(x) <==> (order.contains(x) || x == i),
    decreases order.len(),
{
    let r = insert_stable(order, keys, i);
    if order.len() == 0 {
        assert forall|x: int| #[trigger] r.contains(x) <==> (order.contains(x) || x == i) by {
            if r.contains(x) {
                let k = choose|k: int| 0 <= k < r.len() && r[k] == x;
                assert(k == 0);
            }
            if x == i {
                assert(r[0] == i);
            }
        }
    } else if key_le(keys[order.last()], keys[i]) {
        assert forall|x: int| #[trigger] r.contains(x) <==> (order.contains(x) || x == i) by {
            if r.contains(x) {
                let k = choose|k: int| 0 <= k < r.len() && r[k] == x;
                if k < order.len() {
                    assert(order[k] == x);
                }
            }
            if order.contains(x) {
                let k = choose|k: int| 0 <= k < order.len() && order[k] == x;
                assert(r[k] == x);
            }
            if x == i {
                assert(r[order.len() as int] == i);
            }
        }
    } else {
        let d = order.drop_last();
        lemma_insert_members(d, keys, i);
        let q = insert_stable(d, keys, i);
        assert forall|x: int| #[trigger] r.contains(x) <==> (order.contains(x) || x == i) by {
            if r.contains(x) {
                let k = choose|k: int| 0 <= k < r.len() && r[k] == x;
                if k < q.len() {
                    assert(q[k] == x);
                    assert(q.contains(x));
                    if d.contains(x) {
                        let m = choose|m: int| 0 <= m < d.len() && d[m] == x;
                        assert(order[m] == x);
                    }
                } else {
                    assert(x == order.last());
                    assert(order[order.len() - 1] == x);
                }
            }
            if order.contains(x) {
                let k = choose|k: int| 0 <= k < order.len() && order[k] == x;
                if k < order.len() - 1 {
                    assert(d[k] == x);
                    assert(q.contains(x));
                    let m = choose|m: int| 0 <= m < q.len() && q[m] == x;
                    assert(r[m] == x);
                } else {
                    assert(r[q.len() as int] == x);
                }
            }
            if x == i {
                assert(q.contains(i));
                let m = choose|m: int| 0 <= m < q.len() && q[m] == i;
                assert(r[m] == i);
            }
        }
    }
}

proof fn lemma_insert_in_order(order: Seq<int>, keys: Seq<(int, int, int)>, i: int)
    requires
        in_key_order(order, keys),
        forall|k: int| 0 <= k < order.len() ==> #[trigger] order[k] < i,
    ensures
        in_key_order(insert_stable(order, keys, i), keys),
    decreases order.len(),
{
    let r = insert_stable(order, keys, i);
    lemma_insert_members(order, keys, i);
    if order.len() == 0 {
    } else if key_le(keys[order.last()], keys[i]) {
        assert forall|a: int, b: int| 0 <= a < b < r.len() implies key_le(keys[#[trigger] r[a]], keys[#[trigger] r[b]]) by {
            if b == order.len() {
                assert(r[b] == i);
                if a < order.len() - 1 {
                    assert(key_le(keys[order[a]], keys[order[order.len() - 1]]));
                }
            }
        }
    } else {
        let d = order.drop_last();
        let last = order.last();
        assert(in_key_order(d, keys)) by {
            assert forall|a: int, b: int| 0 <= a < b < d.len() implies key_le(keys[#[trigger] d[a]], keys[#[trigger] d[b]]) by {
                assert(d[a] == order[a] && d[b] == order[b]);
            }
            assert forall|a: int, b: int| 0 <= a < b < d.len() && key_le(keys[d[b]], keys[d[a]]) implies #[trigger] d[a] < #[trigger] d[b] by {
                assert(d[a] == order[a] && d[b] == order[b]);
            }
        }
        assert forall|k: int| 0 <= k < d.len() implies #[trigger] d[k] < i by {
            assert(d[k] == order[k]);
        }
        lemma_insert_in_order(d, keys, i);
        let q = insert_stable(d, keys, i);
        lemma_insert_members(d, keys, i);
        assert forall|a: int| 0 <= a < q.len() implies key_le(keys[#[trigger] q[a]], keys[last])
            && (key_le(keys[last], keys[q[a]]) ==> q[a] < last) by {
            assert(q.contains(q[a]));
            if q[a] == i {
            } else {
                assert(d.contains(q[a]));
                let m = choose|m: int| 0 <= m < d.len() && d[m] == q[a];
                assert(order[m] == q[a]);
                assert(key_le(keys[order[m]], keys[order[order.len() - 1]]));
            }
        }
        assert forall|a: int, b: int| 0 <= a < b < r.len() implies key_le(keys[#[trigger] r[a]], keys[#[trigger] r[b]]) by {
            if b == q.len() {
                assert(r[b] == last);
                assert(r[a] == q[a]);
            } else {
                assert(r[a] == q[a] && r[b] == q[b]);
            }
        }
        assert forall|a: int, b: int| 0 <= a < b < r.len() && key_le(keys[r[b]], keys[r[a]]) implies #[trigger] r[a] < #[trigger] r[b] by {
            if b == q.len() {
                assert(r[b] == last);
                assert(r[a] == q[a]);
            } else {
                assert(r[a] == q[a] && r[b] == q[b]);
            }
        }
    }
}

proof fn lemma_stable_order(keys: Seq<(int, int, int)>, n: int)
    requires
        n >= 0,
    ensures
        stable_order(keys, n).len() == n,
        forall|x: int| #[trigger] stable_order(keys, n).contains(x) <==> 0 <= x < n,
        in_key_order(stable_order(keys, n), keys),
    decreases n,
{
    if n > 0 {
        let prev = stable_order(keys, n - 1);
        lemma_stable_order(keys, n - 1);
        lemma_insert_members(prev, keys, n - 1);
        assert forall|k: int| 0 <= k < prev.len() implies #[trigger] prev[k] < n - 1 by {
            assert(prev.contains(prev[k]));
        }
        lemma_insert_in_order(prev, keys, n - 1);
    }
}

/// The tab-delimited and Second Survey writers list every world exactly once,
/// by subsector, then column, then row, worlds at the same place keeping
/// their input order.
pub proof fn law_table_order(ws: Seq<World>)
    ensures
        table_order(ws).len() == ws.len(),
        forall|i: int| #[trigger] table_order(ws).contains(i) <==> 0 <= i < ws.len(),
        in_key_order(table_order(ws), world_keys(ws)),
{
    lemma_stable_order(world_keys(ws), ws.len() as int);
}

/// Where a hex puts a world: its column and row, `(0, 0)` when it does not
/// parse.
pub open spec fn hex_place(hex: Seq<char>) -> (int, int) {
    match spec_parse_hex(hex) {
        Some(p) => p,
        None => (0, 0),
    }
}

/// The tables list worlds column by column: a world of an earlier subsector
/// comes first, and within a subsector the one in the lower column comes
/// first whatever their rows, then the one in the lower row.
pub proof fn law_table_column_major(ws: Seq<World>)
    ensures
        forall|a: int, b: int| 0 <= a < b < ws.len() ==> {
            let i = #[trigger] table_order(ws)[a];
            let j = #[trigger] table_order(ws)[b];
            &&& spec_subsector_index(ws[i].hex@) <= spec_subsector_index(ws[j].hex@)
            &&& spec_subsector_index(ws[i].hex@) == spec_subsector_index(ws[j].hex@) ==>
                hex_place(ws[i].hex@).0 < hex_place(ws[j].hex@).0
                || (hex_place(ws[i].hex@).0 == hex_place(ws[j].hex@).0 && hex_place(ws[i].hex@).1 <= hex_place(ws[j].hex@).1)
        },
{
    law_table_order(ws);
    let o = table_order(ws);
    let keys = world_keys(ws);
    assert forall|a: int, b: int| 0 <= a < b < ws.len() implies {
        let i = #[trigger] table_order(ws)[a];
        let j = #[trigger] table_order(ws)[b];
        &&& spec_subsector_index(ws[i].hex@) <= spec_subsector_index(ws[j].hex@)
        &&& spec_subsector_index(ws[i].hex@) == spec_subsector_index(ws[j].hex@) ==>
            hex_place(ws[i].hex@).0 < hex_place(ws[j].hex@).0
            || (hex_place(ws[i].hex@).0 == hex_place(ws[j].hex@).0 && hex_place(ws[i].hex@).1 <= hex_place(ws[j].hex@).1)
    } by {
        let i = o[a];
        let j = o[b];
        assert(key_le(keys[o[a]], keys[o[b]]));
        assert(o.contains(i) && o.contains(j));
        assert(0 <= i < ws.len() && 0 <= j < ws.len());
        assert(keys[i] == world_key(ws[i].hex@));
        assert(keys[j] == world_key(ws[j].hex@));
    }
}

} // verus!

verus! {

// ── The tab-delimited table as a whole ──────────────────────────────────────

/// `s` holds no tab, carriage return or line feed.
pub open spec fn plain_cell(s: Seq<char>) -> bool {
    !s.contains('\t') && !s.contains('\r') && !s.contains('\n')
}

/// Every text field of `w` is plain.
pub open spec fn plain_world(w: World) -> bool {
    &&& plain_cell(w.hex@) && plain_cell(w.name@) && plain_cell(w.uwp@) && plain_cell(w.bases@)
    &&& plain_cell(w.remarks@) && plain_cell(w.zone@) && plain_cell(w.pbg@) && plain_cell(w.allegiance@)
    &&& plain_cell(w.stellar@) && plain_cell(opt_text(w.importance)) && plain_cell(opt_text(w.economic))
    &&& plain_cell(opt_text(w.cultural)) && plain_cell(opt_text(w.nobility))
}

/// Every character is at least a space.
pub open spec fn no_controls(s: Seq<char>) -> bool {
    forall|i: int| 0 <= i < s.len() ==> (#[trigger] s[i]) as int >= 32
}

proof fn lemma_no_controls_plain(s: Seq<char>)
    requires
        no_controls(s),
    ensures
        plain_cell(s),
{
    assert forall|c: char| #[trigger] s.contains(c) implies c as int >= 32 by {
        let k = choose|k: int| 0 <= k < s.len() && s[k] == c;
        assert(s[k] as int >= 32);
    }
}

proof fn lemma_nat_digits_no_controls(n: nat)
    ensures
        no_controls(nat_digits(n)),
    decreases n,
{
    if n >= 10 {
        lemma_nat_digits_no_controls(n / 10);
        let d = nat_digits(n / 10);
        let c = crate::text::digit_of((n % 10) as int);
        assert(c as int == (n % 10) + 48);
        assert forall|i: int| 0 <= i < d.push(c).len() implies (#[trigger] d.push(c)[i]) as int >= 32 by {
            if i < d.len() { assert(d.push(c)[i] == d[i]); }
        }
    } else {
        assert(crate::text::digit_of(n as int) as int == n + 48);
    }
}

proof fn lemma_int_decimal_no_controls(i: int)
    ensures
        no_controls(int_decimal(i)),
{
    if i < 0 {
        lemma_nat_digits_no_controls((-i) as nat);
        let d = nat_digits((-i) as nat);
        assert forall|k: int| 0 <= k < (seq!['-'] + d).len() implies (#[trigger] (seq!['-'] + d)[k]) as int >= 32 by {
            if k > 0 { assert((seq!['-'] + d)[k] == d[k - 1]); }
        }
    } else {
        lemma_nat_digits_no_controls(i as nat);
    }
}

proof fn lemma_subsector_hex_no_controls(hex: Seq<char>)
    ensures
        no_controls(crate::astrometrics::spec_subsector_hex(hex)),
{
    crate::astrometrics::lemma_parse_hex_range(hex);
    let (c, r) = crate::astrometrics::hex_or_origin(hex);
    let a = (c - 1) % 8 + 1;
    let b = (r - 1) % 10 + 1;
    assert(1 <= a <= 8 && 1 <= b <= 10);
    let s = crate::astrometrics::spec_subsector_hex(hex);
    assert(s == crate::astrometrics::two_digits(a) + crate::astrometrics::two_digits(b));
    assert forall|k: int| 0 <= k < s.len() implies (#[trigger] s[k]) as int >= 32 by {
        assert(0 <= a / 10 <= 1 && 0 <= a % 10 <= 9 && 0 <= b / 10 <= 1 && 0 <= b % 10 <= 9);
        if k == 0 { assert(s[0] as int == a / 10 + 48); }
        if k == 1 { assert(s[1] as int == a % 10 + 48); }
        if k == 2 { assert(s[2] as int == b / 10 + 48); }
        if k == 3 { assert(s[3] as int == b % 10 + 48); }
    }
}

/// A plain world's tab-delimited fields are plain.
proof fn lemma_tab_fields_plain(w: World, abbr: Seq<char>, sscoords: bool)
    requires
        plain_world(w),
        plain_cell(abbr),
    ensures
        forall|j: int| 0 <= j < 17 ==> plain_cell(#[trigger] tab_fields(w, abbr, sscoords)[j]),
{
    let f = tab_fields(w, abbr, sscoords);
    let idx = crate::astrometrics::spec_subsector_index(w.hex@);
    crate::astrometrics::lemma_parse_hex_range(w.hex@);
    assert(0 <= idx < 16);
    lemma_no_controls_plain(seq![subsector_letter_of(w.hex@)]);
    if sscoords {
        lemma_subsector_hex_no_controls(w.hex@);
        lemma_no_controls_plain(hex_text(w, sscoords));
    }
    match w.worlds {
        Some(n) => if n > 0 { lemma_nat_digits_no_controls(n as nat); lemma_no_controls_plain(w_text(w.worlds)); },
        None => {},
    }
    match w.resource_units {
        Some(n) => { lemma_int_decimal_no_controls(n as int); lemma_no_controls_plain(ru_text(w.resource_units)); },
        None => {},
    }
    assert(plain_cell(w_text(w.worlds)));
    assert(plain_cell(ru_text(w.resource_units)));
    assert forall|j: int| 0 <= j < 17 implies plain_cell(#[trigger] f[j]) by {}
}

proof fn lemma_join_without(parts: Seq<Seq<char>>, sep: char, c: char)
    requires
        c != sep,
        forall|i: int| 0 <= i < parts.len() ==> !(#[trigger] parts[i]).contains(c),
    ensures
        !join_with(parts, sep).contains(c),
    decreases parts.len(),
{
    if parts.len() > 1 {
        lemma_join_without(parts.drop_last(), sep, c);
        let a = join_with(parts.drop_last(), sep);
        let r = a + seq![sep] + parts.last();
        assert(!parts[parts.len() - 1].contains(c));
        if r.contains(c) {
            let k = choose|k: int| 0 <= k < r.len() && r[k] == c;
            if k < a.len() {
                assert(a[k] == c);
            } else if k == a.len() {
            } else {
                assert(parts.last()[k - a.len() - 1] == c);
            }
        }
    }
}

/// The tab-delimited table's lines without their line feeds: the header
/// (when written), then one row per world in table order, each ending in a
/// carriage return.
pub open spec fn tab_lines(ws: Seq<World>, abbr: Seq<char>, opts: WriteOptions) -> Seq<Seq<char>> {
    let order = table_order(ws);
    (if opts.include_header { seq![tab_header().push('\r')] } else { Seq::empty() })
        + Seq::new(order.len(), |k: int| join_with(tab_fields(ws[order[k]], abbr, opts.sscoords), '\t').push('\r'))
}

proof fn lemma_split_line(prefix: Seq<char>, lines: Seq<Seq<char>>, line: Seq<char>)
    requires
        split_on(prefix, '\n') == lines.push(Seq::<char>::empty()),
        !line.contains('\n'),
    ensures
        split_on(prefix + line + seq!['\n'], '\n') == lines.push(line).push(Seq::<char>::empty()),
{
    crate::text::lemma_split_append_plain(prefix, line, '\n');
    let x = prefix + line;
    assert((x + seq!['\n']).drop_last() =~= x);
    assert((x + seq!['\n']).last() == '\n');
    let p = lines.push(Seq::<char>::empty());
    assert(Seq::<char>::empty() + line =~= line);
    assert(p.update(p.len() - 1, p.last() + line) =~= lines.push(line));
}

proof fn lemma_tab_rows_lines(ws: Seq<World>, order: Seq<int>, abbr: Seq<char>, sscoords: bool,
    prefix: Seq<char>, lines: Seq<Seq<char>>)
    requires
        split_on(prefix, '\n') == lines.push(Seq::<char>::empty()),
        plain_cell(abbr),
        forall|k: int| 0 <= k < order.len() ==> 0 <= #[trigger] order[k] < ws.len(),
        forall|i: int| 0 <= i < ws.len() ==> plain_world(#[trigger] ws[i]),
    ensures
        split_on(prefix + tab_rows(ws, order, abbr, sscoords), '\n') == (lines + Seq::new(order.len(),
            |k: int| join_with(tab_fields(ws[order[k]], abbr, sscoords), '\t').push('\r'))).push(Seq::<char>::empty()),
    decreases order.len(),
{
    let rows = |o: Seq<int>| Seq::new(o.len(), |k: int| join_with(tab_fields(ws[o[k]], abbr, sscoords), '\t').push('\r'));
    if order.len() == 0 {
        assert(prefix + tab_rows(ws, order, abbr, sscoords) =~= prefix);
        assert(lines + rows(order) =~= lines);
    } else {
        let d = order.drop_last();
        assert forall|k: int| 0 <= k < d.len() implies 0 <= #[trigger] d[k] < ws.len() by {
            assert(d[k] == order[k]);
        }
        lemma_tab_rows_lines(ws, d, abbr, sscoords, prefix, lines);
        let w = ws[order.last()];
        assert(order[order.len() - 1] == order.last());
        lemma_tab_fields_plain(w, abbr, sscoords);
        let f = tab_fields(w, abbr, sscoords);
        lemma_join_without(f, '\t', '\n');
        let row = join_with(f, '\t');
        let line = row.push('\r');
        assert(!line.contains('\n')) by {
            if line.contains('\n') {
                let k = choose|k: int| 0 <= k < line.len() && line[k] == '\n';
                assert(row[k] == '\n');
            }
        }
        let before = prefix + tab_rows(ws, d, abbr, sscoords);
        lemma_split_line(before, lines + rows(d), line);
        assert(prefix + tab_rows(ws, order, abbr, sscoords) =~= before + line + seq!['\n']);
        assert((lines + rows(d)).push(line) =~= lines + rows(order));
    }
}

/// The tab-delimited table, whole: when no text field of any world and not
/// the abbreviation holds a tab, carriage return or line feed, it is the
/// header line (when written) and one line per world, every line ending in
/// `\r\n`; the rows list each world exactly once, by subsector, column and
/// row, worlds at the same place in input order; each row is 17
/// tab-separated fields, the abbreviation first and the world's subsector
/// letter second.
pub proof fn law_write_tab(ws: Seq<World>, abbr: Seq<char>, opts: WriteOptions)
    requires
        plain_cell(abbr),
        forall|i: int| 0 <= i < ws.len() ==> plain_world(#[trigger] ws[i]),
    ensures
        split_on(tab_text(ws, abbr, opts), '\n') == tab_lines(ws, abbr, opts).push(Seq::<char>::empty()),
        tab_lines(ws, abbr, opts).len() == ws.len() + (if opts.include_header { 1int } else { 0int }),
        forall|k: int| 0 <= k < tab_lines(ws, abbr, opts).len() ==> (#[trigger] tab_lines(ws, abbr, opts)[k]).last() == '\r',
        table_order(ws).len() == ws.len(),
        forall|i: int| #[trigger] table_order(ws).contains(i) <==> 0 <= i < ws.len(),
        in_key_order(table_order(ws), world_keys(ws)),
        forall|k: int| 0 <= k < ws.len() ==> (#[trigger] tab_fields(ws[table_order(ws)[k]], abbr, opts.sscoords)).len() == 17
            && tab_fields(ws[table_order(ws)[k]], abbr, opts.sscoords)[0] == abbr
            && tab_fields(ws[table_order(ws)[k]], abbr, opts.sscoords)[1] == seq![subsector_letter_of(ws[table_order(ws)[k]].hex@)]
            && split_on(join_with(tab_fields(ws[table_order(ws)[k]], abbr, opts.sscoords), '\t'), '\t')
                == tab_fields(ws[table_order(ws)[k]], abbr, opts.sscoords),
{
    law_table_order(ws);
    let order = table_order(ws);
    assert forall|k: int| 0 <= k < order.len() implies 0 <= #[trigger] order[k] < ws.len() by {
        assert(order.contains(order[k]));
    }
    let head_lines: Seq<Seq<char>> = if opts.include_header { seq![tab_header().push('\r')] } else { Seq::empty() };
    let head: Seq<char> = if opts.include_header { tab_header() + crlf() } else { Seq::empty() };
    assert(split_on(Seq::<char>::empty(), '\n') == seq![Seq::<char>::empty()]);
    assert(Seq::<Seq<char>>::empty().push(Seq::<char>::empty()) =~= seq![Seq::<char>::empty()]);
    if opts.include_header {
        assert(!tab_header().contains('\n')) by {
            reveal_strlit("Sector\tSS\tHex\tName\tUWP\tBases\tRemarks\tZone\tPBG\tAllegiance\tStars\t{Ix}\t(Ex)\t[Cx]\tNobility\tW\tRU");
        }
        let hl = tab_header().push('\r');
        assert(!hl.contains('\n')) by {
            if hl.contains('\n') {
                let k = choose|k: int| 0 <= k < hl.len() && hl[k] == '\n';
                assert(tab_header()[k] == '\n');
            }
        }
        lemma_split_line(Seq::<char>::empty(), Seq::<Seq<char>>::empty(), hl);
        assert(Seq::<char>::empty() + hl + seq!['\n'] =~= head);
        assert(Seq::<Seq<char>>::empty().push(hl) =~= head_lines);
    }
    assert(split_on(head, '\n') == head_lines.push(Seq::<char>::empty()));
    lemma_tab_rows_lines(ws, order, abbr, opts.sscoords, head, head_lines);
    let tl = tab_lines(ws, abbr, opts);
    assert forall|k: int| 0 <= k < tl.len() implies (#[trigger] tl[k]).last() == '\r' by {
        if k < head_lines.len() {
            assert(tl[k] == head_lines[k]);
        } else {
            assert(tl[k] == join_with(tab_fields(ws[order[k - head_lines.len()]], abbr, opts.sscoords), '\t').push('\r'));
        }
    }
    assert forall|k: int| 0 <= k < ws.len() implies (#[trigger] tab_fields(ws[order[k]], abbr, opts.sscoords)).len() == 17
        && tab_fields(ws[order[k]], abbr, opts.sscoords)[0] == abbr
        && tab_fields(ws[order[k]], abbr, opts.sscoords)[1] == seq![subsector_letter_of(ws[order[k]].hex@)]
        && split_on(join_with(tab_fields(ws[order[k]], abbr, opts.sscoords), '\t'), '\t')
            == tab_fields(ws[order[k]], abbr, opts.sscoords) by {
        let w = ws[order[k]];
        lemma_tab_fields_plain(w, abbr, opts.sscoords);
        law_tab_row_fields(w, abbr, opts.sscoords);
    }
}

} // verus!

verus! {

// ── The Second Survey table as a whole ──────────────────────────────────────

/// Every character is printable ASCII (space to `~`).
pub open spec fn printable(s: Seq<char>) -> bool {
    forall|i: int| 0 <= i < s.len() ==> 32 <= (#[trigger] s[i]) as int <= 126
}

/// Every text field of `w` is printable ASCII.
pub open spec fn printable_world(w: World) -> bool {
    &&& printable(w.hex@) && printable(w.name@) && printable(w.uwp@) && printable(w.bases@)
    &&& printable(w.remarks@) && printable(w.zone@) && printable(w.pbg@) && printable(w.allegiance@)
    &&& printable(w.stellar@) && printable(opt_text(w.importance)) && printable(opt_text(w.economic))
    &&& printable(opt_text(w.cultural)) && printable(opt_text(w.nobility))
}

proof fn lemma_printable_bytes(s: Seq<char>)
    requires
        printable(s),
    ensures
        byte_len(s) == s.len(),
        no_controls(s),
    decreases s.len(),
{
    if s.len() > 0 {
        assert(printable(s.drop_last())) by {
            assert forall|i: int| 0 <= i < s.drop_last().len() implies 32 <= (#[trigger] s.drop_last()[i]) as int <= 126 by {
                assert(s.drop_last()[i] == s[i]);
            }
        }
        lemma_printable_bytes(s.drop_last());
        assert(s.last() == s[s.len() - 1]);
    }
}

proof fn lemma_trim_printable(s: Seq<char>)
    requires
        printable(s),
    ensures
        printable(trim(s)),
{
    crate::text::lemma_trim_start_idx(s);
    crate::text::lemma_trim_end_idx(s);
    let b = crate::text::trim_start_idx(s);
    let e = crate::text::trim_end_idx(s);
    if b < e {
        assert forall|i: int| 0 <= i < trim(s).len() implies 32 <= (#[trigger] trim(s)[i]) as int <= 126 by {
            assert(trim(s)[i] == s[b + i]);
        }
    }
}

proof fn lemma_nat_digits_printable(n: nat)
    ensures
        printable(nat_digits(n)),
    decreases n,
{
    if n >= 10 {
        lemma_nat_digits_printable(n / 10);
        let d = nat_digits(n / 10);
        let c = crate::text::digit_of((n % 10) as int);
        assert(c as int == (n % 10) + 48);
        assert forall|i: int| 0 <= i < d.push(c).len() implies 32 <= (#[trigger] d.push(c)[i]) as int <= 126 by {
            if i < d.len() { assert(d.push(c)[i] == d[i]); }
        }
    } else {
        assert(crate::text::digit_of(n as int) as int == n + 48);
    }
}

proof fn lemma_dash_if_blank_printable(s: Seq<char>)
    requires
        printable(s),
    ensures
        printable(dash_if_blank(s)),
{
    reveal_strlit("-");
}

proof fn lemma_survey_cells_printable(w: World, sscoords: bool)
    requires
        printable_world(w),
    ensures
        trim_all(survey_cells(w, sscoords)).len() == 14,
        forall|j: int| 0 <= j < 14 ==> printable(#[trigger] trim_all(survey_cells(w, sscoords))[j]),
{
    let cells = survey_cells(w, sscoords);
    if sscoords {
        crate::astrometrics::lemma_parse_hex_range(w.hex@);
        let (c, r) = crate::astrometrics::hex_or_origin(w.hex@);
        let a = (c - 1) % 8 + 1;
        let b = (r - 1) % 10 + 1;
        let s = crate::astrometrics::spec_subsector_hex(w.hex@);
        assert(s == crate::astrometrics::two_digits(a) + crate::astrometrics::two_digits(b));
        assert(0 <= a / 10 <= 1 && 0 <= a % 10 <= 9 && 0 <= b / 10 <= 1 && 0 <= b % 10 <= 9);
        assert forall|k: int| 0 <= k < s.len() implies 32 <= (#[trigger] s[k]) as int <= 126 by {
            if k == 0 { assert(s[0] as int == a / 10 + 48); }
            if k == 1 { assert(s[1] as int == a % 10 + 48); }
            if k == 2 { assert(s[2] as int == b / 10 + 48); }
            if k == 3 { assert(s[3] as int == b % 10 + 48); }
        }
    }
    match w.worlds {
        Some(n) => if n > 0 { lemma_nat_digits_printable(n as nat); },
        None => {},
    }
    assert(printable(w_text(w.worlds)));
    lemma_dash_if_blank_printable(opt_text(w.nobility));
    lemma_dash_if_blank_printable(w.bases@);
    lemma_dash_if_blank_printable(w.zone@);
    assert forall|j: int| 0 <= j < 14 implies printable(#[trigger] trim_all(cells)[j]) by {
        assert(printable(cells[j]));
        lemma_trim_printable(cells[j]);
    }
}

proof fn lemma_header_printable()
    ensures
        trim_all(survey_header()).len() == 14,
        forall|j: int| 0 <= j < 14 ==> printable(#[trigger] trim_all(survey_header())[j]),
{
    reveal_strlit("Hex");
    reveal_strlit("Name");
    reveal_strlit("UWP");
    reveal_strlit("Remarks");
    reveal_strlit("{Ix}");
    reveal_strlit("(Ex)");
    reveal_strlit("[Cx]");
    reveal_strlit("N");
    reveal_strlit("B");
    reveal_strlit("Z");
    reveal_strlit("PBG");
    reveal_strlit("W");
    reveal_strlit("A");
    reveal_strlit("Stellar");
    let h = survey_header();
    assert forall|j: int| 0 <= j < 14 implies printable(#[trigger] trim_all(h)[j]) by {
        assert(printable(h[j]));
        lemma_trim_printable(h[j]);
    }
}

/// A sequence without leading or trailing whitespace trims to itself.
proof fn lemma_trim_noop(s: Seq<char>)
    requires
        s.len() > 0,
        !crate::text::is_ws(s[0]),
        !crate::text::is_ws(s[s.len() - 1]),
    ensures
        trim(s) == s,
{
    assert(s.drop_last().len() + 1 == s.len());
    assert(s.last() == s[s.len() - 1]);
    assert(s.subrange(0, s.len() as int) =~= s);
}

/// `Name` (column 1) and `Remarks` (column 3) get a minimum width of 20.
proof fn lemma_survey_minimums()
    ensures
        survey_minimums().len() == 14,
        survey_minimums()[1] == 20,
        survey_minimums()[3] == 20,
{
    reveal_strlit("Hex");
    reveal_strlit("Name");
    reveal_strlit("UWP");
    reveal_strlit("Remarks");
    let h = survey_header();
    let names = trim_all(h);
    lemma_trim_noop(h[0]);
    lemma_trim_noop(h[1]);
    lemma_trim_noop(h[2]);
    lemma_trim_noop(h[3]);
    assert(names[0] == "Hex"@ && names[1] == "Name"@ && names[2] == "UWP"@ && names[3] == "Remarks"@);
    assert(names[0] != "Name"@) by { assert(names[0].len() != "Name"@.len()); }
    assert(names.len() == 14);
    assert(first_index_from(names, "Name"@, 1) == Some(1int));
    assert(first_index_from(names, "Name"@, 0) == Some(1int));
    assert(first_index(names, "Name"@) == Some(1int));
    assert(names[0] != "Remarks"@) by { assert(names[0].len() != "Remarks"@.len()); }
    assert(names[1] != "Remarks"@) by { assert(names[1].len() != "Remarks"@.len()); }
    assert(names[2] != "Remarks"@) by { assert(names[2].len() != "Remarks"@.len()); }
    assert(first_index_from(names, "Remarks"@, 3) == Some(3int));
    assert(first_index_from(names, "Remarks"@, 2) == Some(3int));
    assert(first_index_from(names, "Remarks"@, 1) == Some(3int));
    assert(first_index_from(names, "Remarks"@, 0) == Some(3int));
    assert(first_index(names, "Remarks"@) == Some(3int));
}

proof fn lemma_survey_rows_shape(ws: Seq<World>, order: Seq<int>, sscoords: bool)
    ensures
        survey_rows(ws, order, sscoords).len() == order.len() + 1,
        survey_rows(ws, order, sscoords)[0] == trim_all(survey_header()),
        forall|k: int| 0 <= k < order.len() ==> #[trigger] survey_rows(ws, order, sscoords)[k + 1]
            == trim_all(survey_cells(ws[order[k]], sscoords)),
    decreases order.len(),
{
    if order.len() > 0 {
        let d = order.drop_last();
        lemma_survey_rows_shape(ws, d, sscoords);
        let r = survey_rows(ws, order, sscoords);
        let p = survey_rows(ws, d, sscoords);
        assert forall|k: int| 0 <= k < order.len() implies #[trigger] r[k + 1]
            == trim_all(survey_cells(ws[order[k]], sscoords)) by {
            if k < d.len() {
                assert(r[k + 1] == p[k + 1]);
                assert(d[k] == order[k]);
            } else {
                assert(order[k] == order.last());
            }
        }
    }
}

proof fn lemma_padded_no_controls(cell: Seq<char>, width: int)
    requires
        no_controls(cell),
    ensures
        no_controls(padded(cell, width)),
{
    let p = padded(cell, width);
    assert forall|i: int| 0 <= i < p.len() implies (#[trigger] p[i]) as int >= 32 by {
        if i < cell.len() { assert(p[i] == cell[i]); } else { assert(p[i] == ' '); }
    }
}

proof fn lemma_render_no_controls(row: Seq<Seq<char>>, widths: Seq<int>, k: int)
    requires
        0 <= k <= row.len(),
        forall|i: int| 0 <= i < row.len() ==> no_controls(#[trigger] row[i]),
    ensures
        no_controls(render_cells(row, widths, k)),
    decreases k,
{
    if k == 1 {
        lemma_padded_no_controls(row[0], widths[0]);
    } else if k > 1 {
        lemma_render_no_controls(row, widths, k - 1);
        lemma_padded_no_controls(row[k - 1], widths[k - 1]);
        let a = render_cells(row, widths, k - 1);
        let b = padded(row[k - 1], widths[k - 1]);
        let r = a + seq![' '] + b;
        assert forall|i: int| 0 <= i < r.len() implies (#[trigger] r[i]) as int >= 32 by {
            if i < a.len() { assert(r[i] == a[i]); } else if i == a.len() { } else { assert(r[i] == b[i - a.len() - 1]); }
        }
    }
}

proof fn lemma_dash_no_controls(widths: Seq<int>, k: int)
    ensures
        no_controls(dash_cells(widths, k)),
    decreases k,
{
    if k > 1 {
        lemma_dash_no_controls(widths, k - 1);
        let a = dash_cells(widths, k - 1);
        let b = repeat_char('-', widths[k - 1]);
        let r = a + seq![' '] + b;
        assert forall|i: int| 0 <= i < r.len() implies (#[trigger] r[i]) as int >= 32 by {
            if i < a.len() { assert(r[i] == a[i]); } else if i == a.len() { } else { assert(r[i] == b[i - a.len() - 1]); }
        }
    }
}

proof fn lemma_line_no_feed(s: Seq<char>)
    requires
        no_controls(s),
    ensures
        !s.push('\r').contains('\n'),
{
    if s.push('\r').contains('\n') {
        let k = choose|k: int| 0 <= k < s.push('\r').len() && s.push('\r')[k] == '\n';
        assert(s[k] == '\n');
    }
}

/// The data rows' lines of a rendered table.
pub open spec fn body_lines(rows: Seq<Seq<Seq<char>>>, widths: Seq<int>, m: int) -> Seq<Seq<char>> {
    Seq::new((if m <= 1 { 0 } else { m - 1 }) as nat, |k: int| render_cells(rows[k + 1], widths, rows[k + 1].len() as int).push('\r'))
}

proof fn lemma_body_lines(rows: Seq<Seq<Seq<char>>>, widths: Seq<int>, m: int, prefix: Seq<char>, lines: Seq<Seq<char>>)
    requires
        split_on(prefix, '\n') == lines.push(Seq::<char>::empty()),
        m <= rows.len(),
        forall|r: int, i: int| 1 <= r < rows.len() && 0 <= i < rows[r].len() ==> no_controls(#[trigger] rows[r][i]),
    ensures
        split_on(prefix + body_text(rows, widths, m), '\n') == (lines + body_lines(rows, widths, m)).push(Seq::<char>::empty()),
    decreases m,
{
    if m <= 1 {
        assert(prefix + body_text(rows, widths, m) =~= prefix);
        assert(lines + body_lines(rows, widths, m) =~= lines);
    } else {
        lemma_body_lines(rows, widths, m - 1, prefix, lines);
        let row = rows[m - 1];
        assert forall|i: int| 0 <= i < row.len() implies no_controls(#[trigger] row[i]) by {}
        lemma_render_no_controls(row, widths, row.len() as int);
        let r = render_cells(row, widths, row.len() as int);
        lemma_line_no_feed(r);
        let before = prefix + body_text(rows, widths, m - 1);
        lemma_split_line(before, lines + body_lines(rows, widths, m - 1), r.push('\r'));
        assert(prefix + body_text(rows, widths, m) =~= before + r.push('\r') + seq!['\n']);
        assert((lines + body_lines(rows, widths, m - 1)).push(r.push('\r')) =~= lines + body_lines(rows, widths, m));
    }
}

/// The rows of the Second Survey table: the header, then each world's
/// trimmed cells in table order.
pub open spec fn survey_table_rows(ws: Seq<World>, opts: WriteOptions) -> Seq<Seq<Seq<char>>> {
    survey_rows(ws, table_order(ws), opts.sscoords)
}

/// The column widths of the Second Survey table.
pub open spec fn survey_widths(ws: Seq<World>, opts: WriteOptions) -> Seq<int> {
    column_widths(survey_table_rows(ws, opts), survey_minimums())
}

/// The Second Survey table's lines without their line feeds: the header
/// row and its dash row (when written), then one row per world in table
/// order, each ending in a carriage return.
pub open spec fn survey_lines(ws: Seq<World>, opts: WriteOptions) -> Seq<Seq<char>> {
    let rows = survey_table_rows(ws, opts);
    let widths = survey_widths(ws, opts);
    (if opts.include_header {
        seq![render_cells(rows[0], widths, 14).push('\r'), dash_cells(widths, 14).push('\r')]
    } else {
        Seq::empty()
    }) + body_lines(rows, widths, rows.len() as int)
}

/// The Second Survey table, whole: when every text field of every world is
/// printable ASCII, it is the header and dash rows (when written) and one
/// line per world in table order, every line ending in `\r\n` and all of the
/// same length; each world's row is its cells, trimmed, each padded with
/// spaces to its column's width and separated by single spaces; a column is
/// as wide as its widest cell and, for `Name` and `Remarks`, at least 20.
pub proof fn law_write_second_survey(ws: Seq<World>, opts: WriteOptions)
    requires
        forall|i: int| 0 <= i < ws.len() ==> printable_world(#[trigger] ws[i]),
    ensures
        split_on(survey_text(ws, opts), '\n') == survey_lines(ws, opts).push(Seq::<char>::empty()),
        survey_lines(ws, opts).len() == ws.len() + (if opts.include_header { 2int } else { 0int }),
        forall|k: int| 0 <= k < survey_lines(ws, opts).len() ==> (#[trigger] survey_lines(ws, opts)[k]).last() == '\r'
            && survey_lines(ws, opts)[k].len() == dash_cells(survey_widths(ws, opts), 14).len() + 1,
        survey_table_rows(ws, opts).len() == ws.len() + 1,
        forall|k: int| 0 <= k < ws.len() ==> #[trigger] survey_table_rows(ws, opts)[k + 1]
            == trim_all(survey_cells(ws[table_order(ws)[k]], opts.sscoords)),
        table_order(ws).len() == ws.len(),
        forall|i: int| #[trigger] table_order(ws).contains(i) <==> 0 <= i < ws.len(),
        in_key_order(table_order(ws), world_keys(ws)),
        survey_widths(ws, opts).len() == 14,
        survey_widths(ws, opts)[1] >= 20 && survey_widths(ws, opts)[3] >= 20,
        forall|r: int, i: int| 0 <= r < survey_table_rows(ws, opts).len() && 0 <= i < 14
            ==> survey_widths(ws, opts)[i] >= (#[trigger] survey_table_rows(ws, opts)[r][i]).len(),
{
    law_table_order(ws);
    let order = table_order(ws);
    let rows = survey_table_rows(ws, opts);
    let widths = survey_widths(ws, opts);
    lemma_survey_rows_shape(ws, order, opts.sscoords);
    lemma_survey_minimums();
    lemma_header_printable();
    assert forall|k: int| 0 <= k < order.len() implies 0 <= #[trigger] order[k] < ws.len() by {
        assert(order.contains(order[k]));
    }
    // Every row has 14 printable cells.
    assert forall|r: int| 0 <= r < rows.len() implies (#[trigger] rows[r]).len() == 14
        && forall|i: int| 0 <= i < 14 ==> printable(#[trigger] rows[r][i]) by {
        if r > 0 {
            lemma_survey_cells_printable(ws[order[r - 1]], opts.sscoords);
            assert(rows[(r - 1) + 1] == trim_all(survey_cells(ws[order[r - 1]], opts.sscoords)));
        } else {
            assert(rows[0] == trim_all(survey_header()));
        }
    }
    assert forall|r: int, i: int| 1 <= r < rows.len() && 0 <= i < rows[r].len() implies no_controls(#[trigger] rows[r][i]) by {
        lemma_printable_bytes(rows[r][i]);
    }
    // Widths cover every cell.
    assert forall|r: int, i: int| 0 <= r < rows.len() && 0 <= i < 14 implies widths[i] >= (#[trigger] rows[r][i]).len() by {
        assert forall|j: int| 0 <= j < 14 implies byte_len(#[trigger] rows[r][j]) == rows[r][j].len() by {
            lemma_printable_bytes(rows[r][j]);
        }
        law_aligned_rows(rows, survey_minimums(), r);
    }
    // The lines.
    let head_lines: Seq<Seq<char>> = if opts.include_header {
        seq![render_cells(rows[0], widths, 14).push('\r'), dash_cells(widths, 14).push('\r')]
    } else {
        Seq::empty()
    };
    let head: Seq<char> = if opts.include_header {
        render_cells(rows[0], widths, rows[0].len() as int) + crlf() + dash_cells(widths, widths.len() as int) + crlf()
    } else {
        Seq::empty()
    };
    assert(split_on(Seq::<char>::empty(), '\n') == seq![Seq::<char>::empty()]);
    assert(Seq::<Seq<char>>::empty().push(Seq::<char>::empty()) =~= seq![Seq::<char>::empty()]);
    if opts.include_header {
        assert forall|i: int| 0 <= i < rows[0].len() implies no_controls(#[trigger] rows[0][i]) by {
            lemma_printable_bytes(rows[0][i]);
        }
        lemma_render_no_controls(rows[0], widths, 14);
        lemma_dash_no_controls(widths, 14);
        let l0 = render_cells(rows[0], widths, 14);
        let l1 = dash_cells(widths, 14);
        lemma_line_no_feed(l0);
        lemma_line_no_feed(l1);
        lemma_split_line(Seq::<char>::empty(), Seq::<Seq<char>>::empty(), l0.push('\r'));
        assert(Seq::<char>::empty() + l0.push('\r') + seq!['\n'] =~= l0 + crlf());
        lemma_split_line(l0 + crlf(), seq![l0.push('\r')], l1.push('\r'));
        assert((l0 + crlf()) + l1.push('\r') + seq!['\n'] =~= head);
        assert(Seq::<Seq<char>>::empty().push(l0.push('\r')) =~= seq![l0.push('\r')]);
        assert(seq![l0.push('\r')].push(l1.push('\r')) =~= head_lines);
    }
    assert(split_on(head, '\n') == head_lines.push(Seq::<char>::empty()));
    lemma_body_lines(rows, widths, rows.len() as int, head, head_lines);
    assert(survey_text(ws, opts) == head + body_text(rows, widths, rows.len() as int));
    // Line lengths.
    let sl = survey_lines(ws, opts);
    let dl = dash_cells(widths, 14).len();
    assert forall|k: int| 0 <= k < sl.len() implies (#[trigger] sl[k]).last() == '\r' && sl[k].len() == dl + 1 by {
        let r = if opts.include_header { if k < 2 { 0 } else { k - 1 } } else { k + 1 };
        if opts.include_header && k == 1 {
        } else {
            assert forall|i: int| 0 <= i < 14 implies byte_len(#[trigger] rows[r][i]) == rows[r][i].len()
                && rows[r][i].len() <= widths[i] by {
                lemma_printable_bytes(rows[r][i]);
            }
            law_aligned_rows(rows, survey_minimums(), r);
            assert(render_cells(rows[r], widths, 14).len() == dl);
        }
    }
}

} // verus!
