//! Query preprocessing and index-field helpers of the search endpoint.
use vstd::prelude::*;

use crate::parse::drop_char;
use crate::astrometrics::{spec_coordinates_to_location, spec_location_to_coordinates, spec_parse_hex, parse_hex,
    location_to_coordinates};
use crate::metadata::{MetaAllegiance, MetaBorder, MetaLabel, SectorMetadata, label_position, label_position_of,
    strings_view, opt_view};
use crate::world_util::{AllegianceCode, alleg_view, allegiance_name, allegiance_name_of};
use crate::dto::World;
use crate::searchlang::{spec_lowercase, to_lowercase};
use crate::text::{chars_of, string_from_chars, str_eq, trim, trim_chars, ws_tokens, split_ws, spec_parse_in,
    parse_int_chars, push_str_chars};

verus! {

/// `*` and `?` wildcards written as `LIKE`'s `%` and `_`.
pub open spec fn translate_wildcards(s: Seq<char>) -> Seq<char> {
    s.map_values(|c: char| if c == '*' { '%' } else if c == '?' { '_' } else { c })
}

pub open spec fn is_word_char(c: char) -> bool {
    ('a' <= c && c <= 'z') || ('A' <= c && c <= 'Z') || ('0' <= c && c <= '9') || c == '_'
}

/// A whole query that reads as a UWP: seven word characters, `-`, one more.
pub open spec fn uwp_shortcut(q: Seq<char>) -> bool {
    q.len() == 9 && (forall|i: int| 0 <= i < 7 ==> #[trigger] is_word_char(q[i])) && q[7] == '-' && is_word_char(q[8])
}

/// The query after preprocessing: wildcards translated, and `uwp:` in front
/// of a query that is a UWP.
pub open spec fn preprocessed(raw: Seq<char>) -> Seq<char> {
    let q = translate_wildcards(raw);
    if uwp_shortcut(q) { "uwp:"@ + q } else { q }
}

fn is_word(c: char) -> (b: bool)
    ensures
        b == is_word_char(c),
{
    ('a' <= c && c <= 'z') || ('A' <= c && c <= 'Z') || ('0' <= c && c <= '9') || c == '_'
}

/// Is the whole query a UWP (`^\w{7}-\w$`, ASCII word characters)?
pub fn is_uwp_shortcut(q: &str) -> (b: bool)
    ensures
        b == uwp_shortcut(q@),
{
    let cs = chars_of(q);
    if cs.len() != 9 {
        return false;
    }
    let mut i: usize = 0;
    while i < 7
        invariant
            i <= 7,
            cs@.len() == 9,
            cs@ == q@,
            forall|k: int| 0 <= k < i ==> #[trigger] is_word_char(cs@[k]),
        decreases 7 - i,
    {
        if !is_word(cs[i]) {
            assert(!is_word_char(cs@[i as int]));
            return false;
        }
        i += 1;
    }
    cs[7] == '-' && is_word(cs[8])
}

/// Translate the `*`/`?` wildcards and mark a bare UWP query as `uwp:`.
pub fn preprocess_query(raw: &str) -> (s: String)
    ensures
        s@ == preprocessed(raw@),
{
    let cs = chars_of(raw);
    let mut v: Vec<char> = Vec::new();
    let mut i: usize = 0;
    while i < cs.len()
        invariant
            i <= cs@.len(),
            cs@ == raw@,
            v@ == translate_wildcards(cs@.subrange(0, i as int)),
        decreases cs@.len() - i,
    {
        let c = cs[i];
        v.push(if c == '*' { '%' } else if c == '?' { '_' } else { c });
        i += 1;
        assert(v@ =~= translate_wildcards(cs@.subrange(0, i as int)));
    }
    assert(cs@.subrange(0, cs@.len() as int) =~= cs@);
    let q = string_from_chars(&v);
    if is_uwp_shortcut(q.as_str()) {
        let mut w: Vec<char> = Vec::new();
        push_str_chars(&mut w, "uwp:");
        push_str_chars(&mut w, q.as_str());
        string_from_chars(&w)
    } else {
        q
    }
}

/// The special search `(Name)`: the first `(` opens a run of ASCII letters,
/// digits and spaces closed by `)`; its text without spaces names a canned
/// result.
pub open spec fn special_from(q: Seq<char>, i: int, inner: Seq<char>) -> Option<Seq<char>>
    decreases q.len() - i,
{
    if i < 0 || i >= q.len() {
        None
    } else if q[i] == ')' {
        if inner.len() == 0 { None } else { Some(drop_char(inner, ' ')) }
    } else if ('a' <= q[i] && q[i] <= 'z') || ('A' <= q[i] && q[i] <= 'Z') || ('0' <= q[i] && q[i] <= '9') || q[i] == ' ' {
        special_from(q, i + 1, inner.push(q[i]))
    } else {
        None
    }
}

pub open spec fn special_name(q: Seq<char>) -> Option<Seq<char>> {
    match crate::world_util::find_from(q, '(', 0) {
        Some(o) => special_from(q, o + 1, Seq::empty()),
        None => None,
    }
}

/// The canned-search name of a query like `(Grand Tour)` → `GrandTour`.
pub fn special_search_name(q: &str) -> (r: Option<String>)
    ensures
        crate::parse::opt_string_view(r) == special_name(q@),
{
    let cs = chars_of(q);
    let mut o: usize = 0;
    while o < cs.len() && cs[o] != '('
        invariant
            o <= cs@.len(),
            cs@ == q@,
            crate::world_util::find_from(q@, '(', 0) == crate::world_util::find_from(q@, '(', o as int),
        decreases cs@.len() - o,
    {
        o += 1;
    }
    if o == cs.len() {
        return None;
    }
    let mut inner: Vec<char> = Vec::new();
    let mut i: usize = o + 1;
    while i < cs.len()
        invariant
            o < i <= cs@.len(),
            cs@ == q@,
            special_name(q@) == special_from(q@, i as int, inner@),
        decreases cs@.len() - i,
    {
        let c = cs[i];
        if c == ')' {
            if inner.len() == 0 {
                return None;
            }
            let mut out: Vec<char> = Vec::new();
            let mut k: usize = 0;
            while k < inner.len()
                invariant
                    k <= inner@.len(),
                    out@ == drop_char(inner@.subrange(0, k as int), ' '),
                decreases inner@.len() - k,
            {
                assert(inner@.subrange(0, k + 1).drop_last() =~= inner@.subrange(0, k as int));
                if inner[k] != ' ' {
                    out.push(inner[k]);
                }
                k += 1;
            }
            assert(inner@.subrange(0, inner@.len() as int) =~= inner@);
            return Some(string_from_chars(&out));
        } else if ('a' <= c && c <= 'z') || ('A' <= c && c <= 'Z') || ('0' <= c && c <= '9') || c == ' ' {
            inner.push(c);
        } else {
            return None;
        }
        i += 1;
    }
    None
}

/// `s` with every `{` and `}` replaced by a space.
pub open spec fn braces_to_spaces(s: Seq<char>) -> Seq<char> {
    s.map_values(|c: char| if c == '{' || c == '}' { ' ' } else { c })
}

/// The importance value of a raw `{Ix}` (braces ignored).
pub open spec fn importance_of(raw: Option<Seq<char>>) -> Option<int> {
    match raw {
        Some(r) => spec_parse_in(trim(braces_to_spaces(r)), true, i32::MIN as int, i32::MAX as int),
        None => None,
    }
}

/// The integer importance of a raw `{Ix}` extension, `None` when absent or
/// not a number.
pub fn importance_value(raw: Option<&str>) -> (r: Option<i32>)
    ensures
        match r {
            Some(v) => importance_of(crate::text::opt_str_view(raw)) == Some(v as int),
            None => importance_of(crate::text::opt_str_view(raw)) is None,
        },
{
    match raw {
        None => None,
        Some(s) => {
            let cs = chars_of(s);
            let mut v: Vec<char> = Vec::new();
            let mut i: usize = 0;
            while i < cs.len()
                invariant
                    i <= cs@.len(),
                    v@ == braces_to_spaces(cs@.subrange(0, i as int)),
                decreases cs@.len() - i,
            {
                let c = cs[i];
                v.push(if c == '{' || c == '}' { ' ' } else { c });
                i += 1;
                assert(v@ =~= braces_to_spaces(cs@.subrange(0, i as int)));
            }
            assert(cs@.subrange(0, cs@.len() as int) =~= cs@);
            let t = trim_chars(&v);
            match parse_int_chars(&t, true, i32::MIN as i64, i32::MAX as i64) {
                Some(n) => Some(n as i32),
                None => None,
            }
        },
    }
}

pub open spec fn is_bracket(c: char) -> bool {
    c == '(' || c == ')' || c == '[' || c == ']' || c == '{' || c == '}'
}

/// `s` without any bracket characters.
pub open spec fn without_brackets(s: Seq<char>) -> Seq<char>
    decreases s.len(),
{
    if s.len() == 0 {
        Seq::empty()
    } else if is_bracket(s.last()) {
        without_brackets(s.drop_last())
    } else {
        without_brackets(s.drop_last()).push(s.last())
    }
}

/// An extension's raw form without brackets, lowercased for matching.
pub fn strip_brackets(raw: Option<&str>) -> (r: String)
    ensures
        r@ == spec_lowercase(without_brackets(match raw { Some(s) => s@, None => Seq::empty() })),
{
    let cs: Vec<char> = match raw {
        Some(s) => chars_of(s),
        None => Vec::new(),
    };
    let mut v: Vec<char> = Vec::new();
    let mut i: usize = 0;
    while i < cs.len()
        invariant
            i <= cs@.len(),
            v@ == without_brackets(cs@.subrange(0, i as int)),
        decreases cs@.len() - i,
    {
        assert(cs@.subrange(0, i + 1).drop_last() =~= cs@.subrange(0, i as int));
        let c = cs[i];
        if !(c == '(' || c == ')' || c == '[' || c == ']' || c == '{' || c == '}') {
            v.push(c);
        }
        i += 1;
    }
    assert(cs@.subrange(0, cs@.len() as int) =~= cs@);
    let s = string_from_chars(&v);
    to_lowercase(s.as_str())
}

/// The tokens of `toks` not seen before (in `seen` or earlier in `toks`).
pub open spec fn dedup_tokens(toks: Seq<Seq<char>>) -> Seq<Seq<char>>
    decreases toks.len(),
{
    if toks.len() == 0 {
        Seq::empty()
    } else {
        let d = dedup_tokens(toks.drop_last());
        if d.contains(toks.last()) { d } else { d.push(toks.last()) }
    }
}

/// `parts` joined by single spaces.
pub open spec fn join_spaces(parts: Seq<Seq<char>>) -> Seq<char> {
    crate::sector_writer::join_with(parts, ' ')
}

/// A sector's tags: its own review tags, then the milieu tag, each once.
pub open spec fn combined_tags(tags: Seq<char>, metafile_tag: Option<Seq<char>>) -> Seq<char> {
    join_spaces(dedup_tokens(ws_tokens(tags) + ws_tokens(match metafile_tag { Some(t) => t, None => Seq::empty() })))
}

fn contains_token(v: &Vec<String>, t: &str) -> (b: bool)
    ensures
        b == v@.map_values(|s: String| s@).contains(t@),
{
    let ghost vv = v@.map_values(|s: String| s@);
    let mut i: usize = 0;
    while i < v.len()
        invariant
            i <= v@.len(),
            vv == v@.map_values(|s: String| s@),
            forall|k: int| 0 <= k < i ==> vv[k] != t@,
        decreases v@.len() - i,
    {
        if str_eq(v[i].as_str(), t) {
            assert(vv[i as int] == t@);
            return true;
        }
        i += 1;
    }
    false
}

fn join_tokens(parts: &Vec<String>) -> (s: String)
    ensures
        s@ == join_spaces(parts@.map_values(|p: String| p@)),
{
    let mut cs: Vec<Vec<char>> = Vec::new();
    let mut i: usize = 0;
    while i < parts.len()
        invariant
            i <= parts@.len(),
            cs@.map_values(|c: Vec<char>| c@) == parts@.subrange(0, i as int).map_values(|p: String| p@),
        decreases parts@.len() - i,
    {
        let ghost before = cs@.map_values(|c: Vec<char>| c@);
        let c = chars_of(parts[i].as_str());
        cs.push(c);
        assert(cs@.map_values(|c: Vec<char>| c@) =~= before.push(parts@[i as int]@));
        i += 1;
        assert(parts@.subrange(0, i as int).map_values(|p: String| p@)
            =~= parts@.subrange(0, i - 1).map_values(|p: String| p@).push(parts@[i - 1]@));
    }
    assert(parts@.subrange(0, parts@.len() as int) =~= parts@);
    let mut out: Vec<char> = Vec::new();
    crate::sector_writer::push_joined_chars(&mut out, &cs, ' ');
    assert(out@ =~= join_spaces(parts@.map_values(|p: String| p@)));
    string_from_chars(&out)
}

/// Append `t` unless it is already there.
fn add_unique(seen: &mut Vec<String>, t: &String)
    ensures
        final(seen)@.map_values(|x: String| x@) == (if old(seen)@.map_values(|x: String| x@).contains(t@) {
            old(seen)@.map_values(|x: String| x@)
        } else {
            old(seen)@.map_values(|x: String| x@).push(t@)
        }),
{
    if !contains_token(seen, t.as_str()) {
        let ghost before = seen@.map_values(|x: String| x@);
        seen.push(t.clone());
        assert(seen@.map_values(|x: String| x@) =~= before.push(t@));
    }
}

/// A sector's tags with the milieu tag appended, duplicates dropped.
pub fn sector_tags(tags: &str, metafile_tag: Option<&str>) -> (s: String)
    ensures
        s@ == combined_tags(tags@, crate::text::opt_str_view(metafile_tag)),
{
    let a = split_ws(tags);
    let b = match metafile_tag {
        Some(t) => split_ws(t),
        None => split_ws(""),
    };
    proof {
        if metafile_tag is None {
            reveal_strlit("");
        }
    }
    let ghost av = a@.map_values(|t: String| t@);
    let ghost bv = b@.map_values(|t: String| t@);
    let mut seen: Vec<String> = Vec::new();
    let mut i: usize = 0;
    assert(av.subrange(0, 0) =~= Seq::<Seq<char>>::empty());
    while i < a.len()
        invariant
            i <= a@.len(),
            av == a@.map_values(|t: String| t@),
            seen@.map_values(|t: String| t@) == dedup_tokens(av.subrange(0, i as int)),
        decreases a@.len() - i,
    {
        add_unique(&mut seen, &a[i]);
        assert(av.subrange(0, i + 1).drop_last() =~= av.subrange(0, i as int));
        i += 1;
    }
    assert(av.subrange(0, av.len() as int) =~= av);
    let mut j: usize = 0;
    assert((av + bv).subrange(0, av.len() as int) =~= av);
    while j < b.len()
        invariant
            j <= b@.len(),
            av == a@.map_values(|t: String| t@),
            bv == b@.map_values(|t: String| t@),
            seen@.map_values(|t: String| t@) == dedup_tokens((av + bv).subrange(0, av.len() + j)),
        decreases b@.len() - j,
    {
        add_unique(&mut seen, &b[j]);
        assert((av + bv).subrange(0, av.len() + j + 1).drop_last() =~= (av + bv).subrange(0, av.len() + j));
        assert((av + bv)[av.len() + j] == bv[j as int]);
        j += 1;
    }
    assert((av + bv).subrange(0, (av.len() + bv.len()) as int) =~= av + bv);
    join_tokens(&seen)
}

/// Only sectors tagged `OTU` or `Faraway` are indexed.
pub fn is_searchable(tags: &str) -> (b: bool)
    ensures
        b == (ws_tokens(tags@).contains("OTU"@) || ws_tokens(tags@).contains("Faraway"@)),
{
    let toks = split_ws(tags);
    let ghost tv = toks@.map_values(|t: String| t@);
    let mut i: usize = 0;
    while i < toks.len()
        invariant
            i <= toks@.len(),
            tv == toks@.map_values(|t: String| t@),
            tv == ws_tokens(tags@),
            forall|k: int| 0 <= k < i ==> tv[k] != "OTU"@ && tv[k] != "Faraway"@,
        decreases toks@.len() - i,
    {
        if str_eq(toks[i].as_str(), "OTU") || str_eq(toks[i].as_str(), "Faraway") {
            assert(tv[i as int] == toks@[i as int]@);
            assert(tv.contains(tv[i as int]));
            return true;
        }
        i += 1;
    }
    false
}

/// A label with whitespace runs collapsed to single spaces, trimmed.
pub fn sanify_label(s: &str) -> (r: String)
    ensures
        r@ == join_spaces(ws_tokens(s@)),
{
    let toks = split_ws(s);
    join_tokens(&toks)
}

} // verus!

verus! {

// ── Ranking ─────────────────────────────────────────────────────────────────

/// What a hit is ranked by: its kind (0 sector, 1 subsector, 2 world, 3
/// label), its importance (`{Ix}`; absent ranks below every value) and its
/// place in the index.
#[derive(Debug, Clone, Copy, PartialEq, Eq)]
pub struct HitKey {
    pub kind: u8,
    pub importance: Option<i32>,
    pub ord: u32,
}

/// The importance as a number; an absent one sorts below all.
pub open spec fn imp(k: HitKey) -> int {
    match k.importance {
        Some(v) => v as int,
        None => i32::MIN as int - 1,
    }
}

/// Hit `a` may come before hit `b`: within a kind by importance (higher first)
/// and then index order; overall by importance alone.
pub open spec fn hit_le(keys: Seq<HitKey>, a: int, b: int, within_kind: bool) -> bool {
    if within_kind {
        imp(keys[a]) > imp(keys[b]) || (imp(keys[a]) == imp(keys[b]) && keys[a].ord <= keys[b].ord)
    } else {
        imp(keys[a]) >= imp(keys[b])
    }
}

/// Where a stable insertion places `x` among the first `k` of `s`: after
/// every element that may come before it.
pub open spec fn ins_pos(keys: Seq<HitKey>, s: Seq<int>, x: int, within_kind: bool, k: int) -> int
    decreases k,
{
    if k <= 0 {
        0
    } else if hit_le(keys, s[k - 1], x, within_kind) {
        k
    } else {
        ins_pos(keys, s, x, within_kind, k - 1)
    }
}

pub open spec fn insert_ranked(keys: Seq<HitKey>, s: Seq<int>, x: int, within_kind: bool) -> Seq<int> {
    let p = ins_pos(keys, s, x, within_kind, s.len() as int);
    s.take(p) + seq![x] + s.skip(p)
}

/// `s` sorted stably (what `sort_by_key` gives).
pub open spec fn stable_rank(keys: Seq<HitKey>, s: Seq<int>, within_kind: bool) -> Seq<int>
    decreases s.len(),
{
    if s.len() == 0 {
        Seq::empty()
    } else {
        insert_ranked(keys, stable_rank(keys, s.drop_last(), within_kind), s.last(), within_kind)
    }
}

/// The positions of the hits of one kind among the first `k`, in order.
pub open spec fn of_kind(keys: Seq<HitKey>, kind: int, k: int) -> Seq<int>
    decreases k,
{
    if k <= 0 {
        Seq::empty()
    } else {
        of_kind(keys, kind, k - 1) + if keys[k - 1].kind as int == kind { seq![k - 1] } else { Seq::empty() }
    }
}

pub open spec fn capped(s: Seq<int>, limit: int) -> Seq<int> {
    if limit < s.len() { s.take(limit) } else { s }
}

/// The best `limit` hits of one kind.
pub open spec fn kind_top(keys: Seq<HitKey>, kind: int, limit: int) -> Seq<int> {
    capped(stable_rank(keys, of_kind(keys, kind, keys.len() as int), true), limit)
}

/// The ranking: each kind's best `limit` (sectors, subsectors, worlds, then
/// labels), re-sorted stably by importance, and the first `limit` of that.
pub open spec fn ranking(keys: Seq<HitKey>, limit: int) -> Seq<int> {
    capped(stable_rank(keys,
        kind_top(keys, 0, limit) + kind_top(keys, 1, limit) + kind_top(keys, 2, limit) + kind_top(keys, 3, limit), false), limit)
}

pub open spec fn as_ints(v: Seq<usize>) -> Seq<int> {
    v.map_values(|i: usize| i as int)
}

pub open spec fn all_below(s: Seq<int>, n: int) -> bool {
    forall|i: int| 0 <= i < s.len() ==> 0 <= #[trigger] s[i] < n
}

fn before_or_tied(keys: &Vec<HitKey>, a: usize, b: usize, within_kind: bool) -> (r: bool)
    requires
        a < keys@.len(),
        b < keys@.len(),
    ensures
        r == hit_le(keys@, a as int, b as int, within_kind),
{
    let ia: i64 = match keys[a].importance {
        Some(v) => v as i64,
        None => i32::MIN as i64 - 1,
    };
    let ib: i64 = match keys[b].importance {
        Some(v) => v as i64,
        None => i32::MIN as i64 - 1,
    };
    if within_kind {
        ia > ib || (ia == ib && keys[a].ord <= keys[b].ord)
    } else {
        ia >= ib
    }
}

proof fn lemma_ins_pos_range(keys: Seq<HitKey>, s: Seq<int>, x: int, wk: bool, k: int)
    requires
        0 <= k <= s.len(),
    ensures
        0 <= ins_pos(keys, s, x, wk, k) <= k,
    decreases k,
{
    if k > 0 {
        lemma_ins_pos_range(keys, s, x, wk, k - 1);
    }
}

/// Insert `x` into `out` as the stable ranking does.
fn insert_ranked_into(keys: &Vec<HitKey>, out: &mut Vec<usize>, x: usize, within_kind: bool)
    requires
        x < keys@.len(),
        all_below(as_ints(old(out)@), keys@.len() as int),
    ensures
        as_ints(final(out)@) == insert_ranked(keys@, as_ints(old(out)@), x as int, within_kind),
        all_below(as_ints(final(out)@), keys@.len() as int),
{
    let ghost s = as_ints(out@);
    let mut p = out.len();
    while p > 0 && !before_or_tied(keys, out[p - 1], x, within_kind)
        invariant
            p <= out@.len(),
            out@ == old(out)@,
            s == as_ints(out@),
            all_below(s, keys@.len() as int),
            x < keys@.len(),
            ins_pos(keys@, s, x as int, within_kind, out@.len() as int) == ins_pos(keys@, s, x as int, within_kind, p as int),
        decreases p,
    {
        assert(s[p - 1] == out@[p - 1] as int);
        p -= 1;
    }
    proof {
        if p > 0 {
            assert(s[p - 1] == out@[p - 1] as int);
        }
        lemma_ins_pos_range(keys@, s, x as int, within_kind, p as int);
    }
    assert(ins_pos(keys@, s, x as int, within_kind, s.len() as int) == p as int);
    out.insert(p, x);
    assert(as_ints(out@) =~= s.take(p as int) + seq![x as int] + s.skip(p as int));
}

/// `s` ranked stably.
fn rank_stably(keys: &Vec<HitKey>, s: &Vec<usize>, within_kind: bool) -> (r: Vec<usize>)
    requires
        all_below(as_ints(s@), keys@.len() as int),
    ensures
        as_ints(r@) == stable_rank(keys@, as_ints(s@), within_kind),
        all_below(as_ints(r@), keys@.len() as int),
{
    let mut out: Vec<usize> = Vec::new();
    let mut i: usize = 0;
    while i < s.len()
        invariant
            i <= s@.len(),
            all_below(as_ints(s@), keys@.len() as int),
            all_below(as_ints(out@), keys@.len() as int),
            as_ints(out@) == stable_rank(keys@, as_ints(s@).take(i as int), within_kind),
        decreases s@.len() - i,
    {
        assert(as_ints(s@).take(i + 1).drop_last() =~= as_ints(s@).take(i as int));
        assert(as_ints(s@)[i as int] == s@[i as int] as int);
        insert_ranked_into(keys, &mut out, s[i], within_kind);
        i += 1;
    }
    assert(as_ints(s@).take(s@.len() as int) =~= as_ints(s@));
    out
}

/// The positions of the hits of one kind, in order.
fn positions_of_kind(keys: &Vec<HitKey>, kind: u8) -> (r: Vec<usize>)
    ensures
        as_ints(r@) == of_kind(keys@, kind as int, keys@.len() as int),
        all_below(as_ints(r@), keys@.len() as int),
{
    let mut out: Vec<usize> = Vec::new();
    let mut i: usize = 0;
    while i < keys.len()
        invariant
            i <= keys@.len(),
            as_ints(out@) == of_kind(keys@, kind as int, i as int),
            all_below(as_ints(out@), i as int),
        decreases keys@.len() - i,
    {
        let ghost before = as_ints(out@);
        if keys[i].kind == kind {
            out.push(i);
            assert(as_ints(out@) =~= before + seq![i as int]);
        } else {
            assert(before + Seq::<int>::empty() =~= before);
        }
        i += 1;
    }
    out
}

fn truncate_to(v: &mut Vec<usize>, limit: usize)
    ensures
        as_ints(final(v)@) == capped(as_ints(old(v)@), limit as int),
        forall|i: int| 0 <= i < final(v)@.len() ==> #[trigger] final(v)@[i] == old(v)@[i],
        final(v)@.len() <= old(v)@.len(),
{
    if limit < v.len() {
        v.truncate(limit);
        assert(as_ints(v@) =~= as_ints(old(v)@).take(limit as int));
    }
}

/// The order in which hits are returned, as positions into `keys`: per kind
/// by importance (highest first, absent last, ties in index order) and capped
/// at `limit`; then sectors, subsectors, worlds and labels, re-sorted stably
/// by importance and capped at `limit` again.
pub fn rank_order(keys: &Vec<HitKey>, limit: usize) -> (r: Vec<usize>)
    ensures
        as_ints(r@) == ranking(keys@, limit as int),
        all_below(as_ints(r@), keys@.len() as int),
{
    let mut merged: Vec<usize> = Vec::new();
    let mut kind: u8 = 0;
    while kind < 4
        invariant
            kind <= 4,
            all_below(as_ints(merged@), keys@.len() as int),
            as_ints(merged@) == (if kind == 0 { Seq::<int>::empty() }
                else if kind == 1 { kind_top(keys@, 0, limit as int) }
                else if kind == 2 { kind_top(keys@, 0, limit as int) + kind_top(keys@, 1, limit as int) }
                else if kind == 3 { kind_top(keys@, 0, limit as int) + kind_top(keys@, 1, limit as int) + kind_top(keys@, 2, limit as int) }
                else { kind_top(keys@, 0, limit as int) + kind_top(keys@, 1, limit as int) + kind_top(keys@, 2, limit as int) + kind_top(keys@, 3, limit as int) }),
        decreases 4 - kind,
    {
        let bucket = positions_of_kind(keys, kind);
        let mut ranked = rank_stably(keys, &bucket, true);
        truncate_to(&mut ranked, limit);
        let ghost before = as_ints(merged@);
        let mut j: usize = 0;
        while j < ranked.len()
            invariant
                j <= ranked@.len(),
                all_below(as_ints(merged@), keys@.len() as int),
                all_below(as_ints(ranked@), keys@.len() as int),
                as_ints(merged@) == before + as_ints(ranked@).take(j as int),
            decreases ranked@.len() - j,
        {
            let x = ranked[j];
            let ghost prev = as_ints(merged@);
            assert(as_ints(ranked@)[j as int] == x as int);
            assert(x < keys@.len());
            merged.push(x);
            assert(as_ints(merged@) =~= prev.push(x as int));
            assert(as_ints(ranked@).take(j + 1) =~= as_ints(ranked@).take(j as int).push(x as int));
            assert(as_ints(merged@) =~= before + as_ints(ranked@).take(j + 1));
            assert forall|i: int| 0 <= i < as_ints(merged@).len() implies 0 <= #[trigger] as_ints(merged@)[i] < keys@.len() by {
                if i < prev.len() {
                    assert(as_ints(merged@)[i] == prev[i]);
                }
            }
            j += 1;
        }
        assert(as_ints(ranked@).take(ranked@.len() as int) =~= as_ints(ranked@));
        assert(as_ints(ranked@) == kind_top(keys@, kind as int, limit as int));
        kind += 1;
    }
    let mut out = rank_stably(keys, &merged, false);
    truncate_to(&mut out, limit);
    out
}

} // verus!

verus! {

/// `s` is in ranking order.
pub open spec fn ranked_sorted(keys: Seq<HitKey>, s: Seq<int>, within_kind: bool) -> bool {
    forall|i: int, j: int| 0 <= i < j < s.len() ==> hit_le(keys, #[trigger] s[i], #[trigger] s[j], within_kind)
}

proof fn lemma_ins_pos_props(keys: Seq<HitKey>, s: Seq<int>, x: int, wk: bool, k: int)
    requires
        0 <= k <= s.len(),
    ensures
        0 <= ins_pos(keys, s, x, wk, k) <= k,
        ins_pos(keys, s, x, wk, k) == 0 || hit_le(keys, s[ins_pos(keys, s, x, wk, k) - 1], x, wk),
        forall|m: int| ins_pos(keys, s, x, wk, k) <= m < k ==> !hit_le(keys, #[trigger] s[m], x, wk),
    decreases k,
{
    if k > 0 {
        lemma_ins_pos_props(keys, s, x, wk, k - 1);
    }
}

proof fn lemma_insert_keeps_order(keys: Seq<HitKey>, s: Seq<int>, x: int)
    requires
        ranked_sorted(keys, s, false),
    ensures
        ranked_sorted(keys, insert_ranked(keys, s, x, false), false),
{
    let p = ins_pos(keys, s, x, false, s.len() as int);
    lemma_ins_pos_props(keys, s, x, false, s.len() as int);
    let r = insert_ranked(keys, s, x, false);
    assert(r.len() == s.len() + 1);
    assert forall|i: int, j: int| 0 <= i < j < r.len() implies hit_le(keys, #[trigger] r[i], #[trigger] r[j], false) by {
        let si = if i < p { i } else { i - 1 };
        let sj = if j < p { j } else { j - 1 };
        if i < p {
            assert(r[i] == s[i]);
        }
        if j < p {
            assert(r[j] == s[j]);
        }
        if i > p {
            assert(r[i] == s[i - 1]);
        }
        if j > p {
            assert(r[j] == s[j - 1]);
        }
        if i == p {
            assert(r[i] == x);
            assert(!hit_le(keys, s[j - 1], x, false));
        } else if j == p {
            assert(r[j] == x);
            assert(hit_le(keys, s[p - 1], x, false));
            if i < p - 1 {
                assert(hit_le(keys, s[i], s[p - 1], false));
            }
        } else {
            assert(si < sj);
            assert(hit_le(keys, s[si], s[sj], false));
        }
    }
}

proof fn lemma_stable_rank_sorted(keys: Seq<HitKey>, s: Seq<int>)
    ensures
        ranked_sorted(keys, stable_rank(keys, s, false), false),
    decreases s.len(),
{
    if s.len() > 0 {
        lemma_stable_rank_sorted(keys, s.drop_last());
        lemma_insert_keeps_order(keys, stable_rank(keys, s.drop_last(), false), s.last());
    }
}

proof fn lemma_of_kind_below(keys: Seq<HitKey>, kind: int, k: int)
    requires
        0 <= k <= keys.len(),
    ensures
        all_below(of_kind(keys, kind, k), keys.len() as int),
    decreases k,
{
    if k > 0 {
        lemma_of_kind_below(keys, kind, k - 1);
        let a = of_kind(keys, kind, k - 1);
        let b: Seq<int> = if keys[k - 1].kind as int == kind { seq![k - 1] } else { Seq::empty() };
        assert forall|i: int| 0 <= i < (a + b).len() implies 0 <= #[trigger] (a + b)[i] < keys.len() by {
            if i < a.len() { assert((a + b)[i] == a[i]); } else { assert((a + b)[i] == b[i - a.len()]); }
        }
    }
}

proof fn lemma_stable_rank_below(keys: Seq<HitKey>, s: Seq<int>, wk: bool, n: int)
    requires
        all_below(s, n),
    ensures
        all_below(stable_rank(keys, s, wk), n),
    decreases s.len(),
{
    if s.len() > 0 {
        let t = stable_rank(keys, s.drop_last(), wk);
        assert(all_below(s.drop_last(), n)) by {
            assert forall|i: int| 0 <= i < s.drop_last().len() implies 0 <= #[trigger] s.drop_last()[i] < n by {
                assert(s.drop_last()[i] == s[i]);
            }
        }
        lemma_stable_rank_below(keys, s.drop_last(), wk, n);
        let x = s.last();
        let p = ins_pos(keys, t, x, wk, t.len() as int);
        lemma_ins_pos_range(keys, t, x, wk, t.len() as int);
        let r = insert_ranked(keys, t, x, wk);
        assert forall|i: int| 0 <= i < r.len() implies 0 <= #[trigger] r[i] < n by {
            if i < p { assert(r[i] == t[i]); } else if i == p { assert(r[i] == x); } else { assert(r[i] == t[i - 1]); }
        }
    }
}

proof fn lemma_concat_below(a: Seq<int>, b: Seq<int>, n: int)
    requires
        all_below(a, n),
        all_below(b, n),
    ensures
        all_below(a + b, n),
{
    assert forall|i: int| 0 <= i < (a + b).len() implies 0 <= #[trigger] (a + b)[i] < n by {
        if i < a.len() { assert((a + b)[i] == a[i]); } else { assert((a + b)[i] == b[i - a.len()]); }
    }
}

proof fn lemma_capped_below(s: Seq<int>, limit: int, n: int)
    requires
        limit >= 0,
        all_below(s, n),
    ensures
        all_below(capped(s, limit), n),
{
    let c = capped(s, limit);
    assert forall|i: int| 0 <= i < c.len() implies 0 <= #[trigger] c[i] < n by {
        assert(c[i] == s[i]);
    }
}

proof fn lemma_kind_top_below(keys: Seq<HitKey>, kind: int, limit: int)
    requires
        limit >= 0,
    ensures
        all_below(kind_top(keys, kind, limit), keys.len() as int),
{
    lemma_of_kind_below(keys, kind, keys.len() as int);
    let s = stable_rank(keys, of_kind(keys, kind, keys.len() as int), true);
    lemma_stable_rank_below(keys, of_kind(keys, kind, keys.len() as int), true, keys.len() as int);
    lemma_capped_below(s, limit, keys.len() as int);
}

/// Every hit of the ranking is one of the keys.
pub proof fn lemma_ranking_below(keys: Seq<HitKey>, limit: int)
    requires
        limit >= 0,
    ensures
        all_below(ranking(keys, limit), keys.len() as int),
{
    let n = keys.len() as int;
    lemma_kind_top_below(keys, 0, limit);
    lemma_kind_top_below(keys, 1, limit);
    lemma_kind_top_below(keys, 2, limit);
    lemma_kind_top_below(keys, 3, limit);
    let a = kind_top(keys, 0, limit);
    let b = kind_top(keys, 1, limit);
    let c = kind_top(keys, 2, limit);
    let d = kind_top(keys, 3, limit);
    lemma_concat_below(a, b, n);
    lemma_concat_below(a + b, c, n);
    lemma_concat_below(a + b + c, d, n);
    lemma_stable_rank_below(keys, a + b + c + d, false, n);
    lemma_capped_below(stable_rank(keys, a + b + c + d, false), limit, n);
}

/// Search hits come out by importance, highest first, and never more than
/// the limit.
pub proof fn lemma_ranking_by_importance(keys: Seq<HitKey>, limit: int)
    requires
        limit >= 0,
    ensures
        ranking(keys, limit).len() <= limit,
        forall|i: int, j: int| 0 <= i < j < ranking(keys, limit).len()
            ==> imp(keys[#[trigger] ranking(keys, limit)[i]]) >= imp(keys[#[trigger] ranking(keys, limit)[j]]),
{
    let merged = kind_top(keys, 0, limit) + kind_top(keys, 1, limit) + kind_top(keys, 2, limit) + kind_top(keys, 3, limit);
    let all = stable_rank(keys, merged, false);
    lemma_stable_rank_sorted(keys, merged);
    let r = ranking(keys, limit);
    assert forall|i: int, j: int| 0 <= i < j < r.len() implies imp(keys[#[trigger] r[i]]) >= imp(keys[#[trigger] r[j]]) by {
        assert(r[i] == all[i] && r[j] == all[j]);
        assert(hit_le(keys, all[i], all[j], false));
    }
}

} // verus!

verus! {

// ── Labeled regions ─────────────────────────────────────────────────────────

/// Where a labeled region's search hit goes: the sector and hex at the mean
/// of its label points, and a map scale by how far they spread.
#[derive(Debug, Clone, Copy, PartialEq, Eq)]
pub struct LabelPlacement {
    pub sector_x: i32,
    pub sector_y: i32,
    pub hex_x: i32,
    pub hex_y: i32,
    pub scale: i32,
}

/// `a / n` rounded to the nearest integer, halves away from zero
/// (`f64::round`), for `n > 0`.
pub open spec fn round_div(a: int, n: int) -> int {
    if a >= 0 { (2 * a + n) / (2 * n) } else { -((2 * -a + n) / (2 * n)) }
}

/// The scale for a spread (in parsecs): wider regions are shown zoomed out.
pub open spec fn label_scale(radius: int) -> int {
    if radius > 80 {
        4
    } else if radius > 40 {
        8
    } else if radius > 20 {
        32
    } else {
        64
    }
}

pub open spec fn sum_of(ps: Seq<(i32, i32)>, first: bool) -> int
    decreases ps.len(),
{
    if ps.len() == 0 {
        0
    } else {
        sum_of(ps.drop_last(), first) + if first { ps.last().0 as int } else { ps.last().1 as int }
    }
}

pub open spec fn coord_of(p: (i32, i32), first: bool) -> int {
    if first { p.0 as int } else { p.1 as int }
}

/// The least of one coordinate over a non-empty list.
pub open spec fn min_of(ps: Seq<(i32, i32)>, first: bool) -> int
    decreases ps.len(),
{
    if ps.len() <= 1 {
        coord_of(ps[0], first)
    } else {
        let m = min_of(ps.drop_last(), first);
        let c = coord_of(ps.last(), first);
        if c < m { c } else { m }
    }
}

/// The greatest of one coordinate over a non-empty list.
pub open spec fn max_of(ps: Seq<(i32, i32)>, first: bool) -> int
    decreases ps.len(),
{
    if ps.len() <= 1 {
        coord_of(ps[0], first)
    } else {
        let m = max_of(ps.drop_last(), first);
        let c = coord_of(ps.last(), first);
        if c > m { c } else { m }
    }
}

/// The least world-space coordinate whose sector the lookup can compute in
/// `i32` (`x` when `first`, else `y`).
pub open spec fn coord_lo(first: bool) -> int {
    if first { i32::MIN + 31 } else { i32::MIN as int }
}

/// The greatest such coordinate.
pub open spec fn coord_hi(first: bool) -> int {
    if first { i32::MAX - 1 } else { i32::MAX - 40 }
}

/// A world-space point whose sector and hex the lookup can compute in `i32`.
pub open spec fn placeable(p: (int, int)) -> bool {
    coord_lo(true) <= p.0 <= coord_hi(true) && coord_lo(false) <= p.1 <= coord_hi(false)
}

/// Every point is placeable, so their mean is too.
pub open spec fn points_in_range(ps: Seq<(i32, i32)>) -> bool {
    forall|i: int| 0 <= i < ps.len() ==> placeable(((#[trigger] ps[i]).0 as int, ps[i].1 as int))
}

/// The placement of a region labeled at `ps` (world-space parsecs): the
/// rounded mean point's sector and hex, and the scale for the larger of its
/// horizontal and vertical spreads. `None` for no points.
pub open spec fn placement_of(ps: Seq<(i32, i32)>) -> Option<(int, int, int, int, int)> {
    if ps.len() == 0 {
        None
    } else {
        let n = ps.len() as int;
        let (sx, sy, hx, hy) = spec_coordinates_to_location(round_div(sum_of(ps, true), n), round_div(sum_of(ps, false), n));
        let dx = max_of(ps, true) - min_of(ps, true);
        let dy = max_of(ps, false) - min_of(ps, false);
        Some((sx, sy, hx, hy, label_scale(if dx > dy { dx } else { dy })))
    }
}

proof fn lemma_round_div_between(a: int, n: int, lo: int, hi: int)
    requires
        n > 0,
        n * lo <= a <= n * hi,
    ensures
        lo <= round_div(a, n) <= hi,
{
    if a >= 0 {
        assert(lo <= (2 * a + n) / (2 * n)) by (nonlinear_arith)
            requires n > 0, n * lo <= a, a >= 0;
        assert((2 * a + n) / (2 * n) <= hi) by (nonlinear_arith)
            requires n > 0, a <= n * hi;
    } else {
        assert(-((2 * -a + n) / (2 * n)) <= hi) by (nonlinear_arith)
            requires n > 0, a <= n * hi, a < 0;
        assert(lo <= -((2 * -a + n) / (2 * n))) by (nonlinear_arith)
            requires n > 0, n * lo <= a;
    }
}

proof fn lemma_sum_bounds(ps: Seq<(i32, i32)>, first: bool)
    requires
        ps.len() > 0,
    ensures
        ps.len() * min_of(ps, first) <= sum_of(ps, first) <= ps.len() * max_of(ps, first),
    decreases ps.len(),
{
    let c = coord_of(ps.last(), first);
    assert(sum_of(ps, first) == sum_of(ps.drop_last(), first) + c);
    if ps.len() == 1 {
        assert(ps.last() == ps[0]);
        assert(sum_of(ps.drop_last(), first) == 0);
        assert(min_of(ps, first) == c && max_of(ps, first) == c);
    } else {
        let d = ps.drop_last();
        lemma_sum_bounds(d, first);
        let m0 = min_of(d, first);
        let m1 = min_of(ps, first);
        let x0 = max_of(d, first);
        let x1 = max_of(ps, first);
        assert(d.len() * m1 <= d.len() * m0) by (nonlinear_arith)
            requires m1 <= m0, d.len() >= 0;
        assert(d.len() * x0 <= d.len() * x1) by (nonlinear_arith)
            requires x0 <= x1, d.len() >= 0;
        assert(ps.len() * m1 == d.len() * m1 + m1) by (nonlinear_arith)
            requires ps.len() == d.len() + 1;
        assert(ps.len() * x1 == d.len() * x1 + x1) by (nonlinear_arith)
            requires ps.len() == d.len() + 1;
    }
}

proof fn lemma_extremes_in_range(ps: Seq<(i32, i32)>, first: bool)
    requires
        ps.len() > 0,
        points_in_range(ps),
    ensures
        coord_lo(first) <= min_of(ps, first) <= max_of(ps, first) <= coord_hi(first),
    decreases ps.len(),
{
    if ps.len() > 1 {
        assert(points_in_range(ps.drop_last())) by {
            assert forall|i: int| 0 <= i < ps.drop_last().len() implies placeable(((#[trigger] ps.drop_last()[i]).0 as int, ps.drop_last()[i].1 as int)) by {
                assert(ps.drop_last()[i] == ps[i]);
            }
        }
        lemma_extremes_in_range(ps.drop_last(), first);
        assert(ps.last() == ps[ps.len() - 1]);
    } else {
        assert(ps[0] == ps[0]);
    }
}

/// Where the search hit of a region labeled at `points` goes.
pub fn label_placement(points: &Vec<(i32, i32)>) -> (r: Option<LabelPlacement>)
    requires
        points_in_range(points@),
    ensures
        match r {
            Some(p) => placement_of(points@) == Some((p.sector_x as int, p.sector_y as int, p.hex_x as int, p.hex_y as int, p.scale as int)),
            None => placement_of(points@) is None,
        },
{
    let n = points.len();
    if n == 0 {
        return None;
    }
    let ghost ps = points@;
    let mut sum_x: i128 = 0;
    let mut sum_y: i128 = 0;
    let mut min_x: i32 = points[0].0;
    let mut max_x: i32 = points[0].0;
    let mut min_y: i32 = points[0].1;
    let mut max_y: i32 = points[0].1;
    let mut i: usize = 0;
    while i < n
        invariant
            n == ps.len(),
            ps == points@,
            n > 0,
            i <= n,
            points_in_range(ps),
            sum_x as int == sum_of(ps.take(i as int), true),
            sum_y as int == sum_of(ps.take(i as int), false),
            -0x8000_0000 * (i as int) <= sum_x <= 0x8000_0000 * (i as int),
            -0x8000_0000 * (i as int) <= sum_y <= 0x8000_0000 * (i as int),
            i > 0 ==> min_x as int == min_of(ps.take(i as int), true) && max_x as int == max_of(ps.take(i as int), true),
            i > 0 ==> min_y as int == min_of(ps.take(i as int), false) && max_y as int == max_of(ps.take(i as int), false),
            i == 0 ==> min_x == ps[0].0 && max_x == ps[0].0 && min_y == ps[0].1 && max_y == ps[0].1,
        decreases n - i,
    {
        let (x, y) = points[i];
        assert(ps.take(i + 1).drop_last() =~= ps.take(i as int));
        assert(ps.take(i + 1).last() == ps[i as int]);
        assert(placeable((x as int, y as int)));
        assert(i < 0x1_0000_0000_0000_0000);
        sum_x = sum_x + x as i128;
        sum_y = sum_y + y as i128;
        if i > 0 {
            if x < min_x { min_x = x; }
            if x > max_x { max_x = x; }
            if y < min_y { min_y = y; }
            if y > max_y { max_y = y; }
        } else {
            assert(ps.take(1).len() == 1);
        }
        i += 1;
    }
    assert(ps.take(n as int) =~= ps);
    assert(min_x as int == min_of(ps, true) && max_x as int == max_of(ps, true));
    assert(min_y as int == min_of(ps, false) && max_y as int == max_of(ps, false));
    assert(sum_x as int == sum_of(ps, true) && sum_y as int == sum_of(ps, false));
    proof {
        lemma_sum_bounds(ps, true);
        lemma_sum_bounds(ps, false);
        lemma_extremes_in_range(ps, true);
        lemma_extremes_in_range(ps, false);
        lemma_round_div_between(sum_of(ps, true), n as int, min_of(ps, true), max_of(ps, true));
        lemma_round_div_between(sum_of(ps, false), n as int, min_of(ps, false), max_of(ps, false));
    }
    let nn = n as i128;
    let ax: i128 = if sum_x >= 0 { (2 * sum_x + nn) / (2 * nn) } else { -((2 * (-sum_x) + nn) / (2 * nn)) };
    let ay: i128 = if sum_y >= 0 { (2 * sum_y + nn) / (2 * nn) } else { -((2 * (-sum_y) + nn) / (2 * nn)) };
    let (sx, sy, hx, hy) = crate::astrometrics::coordinates_to_location(ax as i32, ay as i32);
    let dx: i64 = max_x as i64 - min_x as i64;
    let dy: i64 = max_y as i64 - min_y as i64;
    let radius = if dx > dy { dx } else { dy };
    let scale = if radius > 80 { 4 } else if radius > 40 { 8 } else if radius > 20 { 32 } else { 64 };
    Some(LabelPlacement { sector_x: sx, sector_y: sy, hex_x: hx, hex_y: hy, scale })
}

} // verus!

verus! {

// ── Index entries ───────────────────────────────────────────────────────────

/// A world's searchable fields, lowercased (the extensions also without
/// brackets); a world with no zone is in the green zone `g`.
#[derive(Debug, Clone, Default)]
pub struct WorldFields {
    pub uwp: String,
    pub pbg: String,
    pub zone: String,
    pub alleg: String,
    pub stellar: String,
    pub remarks: String,
    pub ex: String,
    pub cx: String,
    pub sector_name: String,
}

pub open spec fn opt_seq(o: Option<String>) -> Seq<char> {
    match o {
        Some(s) => s@,
        None => Seq::empty(),
    }
}

/// The fields of `w` in sector `sector_name`.
pub open spec fn fields_of(w: World, sector_name: Seq<char>, f: WorldFields) -> bool {
    &&& f.uwp@ == spec_lowercase(w.uwp@)
    &&& f.pbg@ == spec_lowercase(w.pbg@)
    &&& f.zone@ == (if w.zone@.len() == 0 { "g"@ } else { spec_lowercase(w.zone@) })
    &&& f.alleg@ == spec_lowercase(w.allegiance@)
    &&& f.stellar@ == spec_lowercase(w.stellar@)
    &&& f.remarks@ == spec_lowercase(w.remarks@)
    &&& f.ex@ == spec_lowercase(without_brackets(opt_seq(w.economic)))
    &&& f.cx@ == spec_lowercase(without_brackets(opt_seq(w.cultural)))
    &&& f.sector_name@ == spec_lowercase(sector_name)
}

/// The searchable fields of a world.
pub fn world_fields(w: &World, sector_name: &str) -> (f: WorldFields)
    ensures
        fields_of(*w, sector_name@, f),
{
    let zone = if w.zone.as_str().is_empty() { "g".to_string() } else { to_lowercase(w.zone.as_str()) };
    let ex = match &w.economic {
        Some(e) => strip_brackets(Some(e.as_str())),
        None => strip_brackets(None),
    };
    let cx = match &w.cultural {
        Some(c) => strip_brackets(Some(c.as_str())),
        None => strip_brackets(None),
    };
    WorldFields {
        uwp: to_lowercase(w.uwp.as_str()),
        pbg: to_lowercase(w.pbg.as_str()),
        zone,
        alleg: to_lowercase(w.allegiance.as_str()),
        stellar: to_lowercase(w.stellar.as_str()),
        remarks: to_lowercase(w.remarks.as_str()),
        ex,
        cx,
        sector_name: to_lowercase(sector_name),
    }
}

// ── Grouping label points ───────────────────────────────────────────────────

/// The position of the group named `name`, if any.
pub open spec fn group_index(gs: Seq<(Seq<char>, Seq<(i32, i32)>)>, name: Seq<char>) -> Option<int>
    decreases gs.len(),
{
    if gs.len() == 0 {
        None
    } else {
        match group_index(gs.drop_last(), name) {
            Some(i) => Some(i),
            None => if gs.last().0 == name { Some(gs.len() - 1) } else { None },
        }
    }
}

/// The points of the first `k` labels grouped by label text, groups in order
/// of first appearance and points in order.
pub open spec fn groups_upto(es: Seq<(Seq<char>, (i32, i32))>, k: int) -> Seq<(Seq<char>, Seq<(i32, i32)>)>
    decreases k,
{
    if k <= 0 {
        Seq::empty()
    } else {
        let gs = groups_upto(es, k - 1);
        let (name, p) = es[k - 1];
        match group_index(gs, name) {
            Some(i) => gs.update(i, (name, gs[i].1.push(p))),
            None => gs.push((name, seq![p])),
        }
    }
}

pub open spec fn label_entries(v: Seq<(String, (i32, i32))>) -> Seq<(Seq<char>, (i32, i32))> {
    v.map_values(|e: (String, (i32, i32))| (e.0@, e.1))
}

pub open spec fn groups_view(v: Seq<(String, Vec<(i32, i32)>)>) -> Seq<(Seq<char>, Seq<(i32, i32)>)> {
    v.map_values(|g: (String, Vec<(i32, i32)>)| (g.0@, g.1@))
}

proof fn lemma_group_index_props(gs: Seq<(Seq<char>, Seq<(i32, i32)>)>, name: Seq<char>)
    ensures
        match group_index(gs, name) {
            Some(i) => 0 <= i < gs.len() && gs[i].0 == name && forall|j: int| 0 <= j < i ==> gs[j].0 != name,
            None => forall|j: int| 0 <= j < gs.len() ==> gs[j].0 != name,
        },
    decreases gs.len(),
{
    if gs.len() > 0 {
        lemma_group_index_props(gs.drop_last(), name);
        assert forall|j: int| 0 <= j < gs.len() - 1 implies gs.drop_last()[j] == gs[j] by {}
    }
}

fn find_group(gs: &Vec<(String, Vec<(i32, i32)>)>, name: &str) -> (r: Option<usize>)
    ensures
        match r {
            Some(i) => group_index(groups_view(gs@), name@) == Some(i as int) && i < gs@.len(),
            None => group_index(groups_view(gs@), name@) is None,
        },
{
    proof { lemma_group_index_props(groups_view(gs@), name@); }
    let mut i: usize = 0;
    while i < gs.len()
        invariant
            i <= gs@.len(),
            forall|j: int| 0 <= j < i ==> groups_view(gs@)[j].0 != name@,
        decreases gs@.len() - i,
    {
        if str_eq(gs[i].0.as_str(), name) {
            proof {
                lemma_group_index_props(groups_view(gs@), name@);
                match group_index(groups_view(gs@), name@) {
                    Some(k) => {
                        if k > i {
                            assert(groups_view(gs@)[i as int].0 == name@);
                        }
                    },
                    None => {
                        assert(groups_view(gs@)[i as int].0 == name@);
                    },
                }
            }
            return Some(i);
        }
        i += 1;
    }
    None
}

fn copy_points(v: &Vec<(i32, i32)>) -> (r: Vec<(i32, i32)>)
    ensures
        r@ == v@,
{
    let mut out: Vec<(i32, i32)> = Vec::new();
    let mut i: usize = 0;
    while i < v.len()
        invariant
            i <= v@.len(),
            out@ == v@.take(i as int),
        decreases v@.len() - i,
    {
        out.push(v[i]);
        i += 1;
        assert(out@ =~= v@.take(i as int));
    }
    assert(v@.take(v@.len() as int) =~= v@);
    out
}

/// Group label points by label text, in order of first appearance.
pub fn group_label_points(entries: &Vec<(String, (i32, i32))>) -> (r: Vec<(String, Vec<(i32, i32)>)>)
    ensures
        groups_view(r@) == groups_upto(label_entries(entries@), entries@.len() as int),
{
    let ghost ev = label_entries(entries@);
    let mut gs: Vec<(String, Vec<(i32, i32)>)> = Vec::new();
    let mut k: usize = 0;
    while k < entries.len()
        invariant
            k <= entries@.len(),
            ev == label_entries(entries@),
            groups_view(gs@) == groups_upto(ev, k as int),
        decreases entries@.len() - k,
    {
        let name = &entries[k].0;
        let p = entries[k].1;
        assert(ev[k as int] == (name@, p));
        let ghost before = groups_view(gs@);
        match find_group(&gs, name.as_str()) {
            Some(i) => {
                let mut pts = copy_points(&gs[i].1);
                pts.push(p);
                let g = (name.clone(), pts);
                gs.set(i, g);
                assert(groups_view(gs@) =~= before.update(i as int, (name@, before[i as int].1.push(p))));
            },
            None => {
                let mut pts: Vec<(i32, i32)> = Vec::new();
                pts.push(p);
                gs.push((name.clone(), pts));
                assert(groups_view(gs@) =~= before.push((name@, seq![p])));
            },
        }
        k += 1;
    }
    gs
}

} // verus!

verus! {

// ── Label points of a sector ────────────────────────────────────────────────

/// The first of the first `k` of the sector's own allegiances with `code`.
pub open spec fn first_local(local: Seq<MetaAllegiance>, code: Seq<char>, k: int) -> Option<int>
    decreases k,
{
    if k <= 0 {
        None
    } else {
        match first_local(local, code, k - 1) {
            Some(i) => Some(i),
            None => if local[k - 1].code@ == code { Some(k - 1) } else { None },
        }
    }
}

/// The name of an allegiance code: the sector's own entry first, else the
/// allegiance table's name.
pub open spec fn alleg_name_for(local: Seq<MetaAllegiance>, rows: Seq<(Seq<char>, Seq<char>, Seq<char>)>, code: Seq<char>)
    -> Option<Seq<char>>
{
    match first_local(local, code, local.len() as int) {
        Some(i) => Some(local[i].name@),
        None => allegiance_name_of(rows, code),
    }
}

proof fn lemma_first_local_stable(local: Seq<MetaAllegiance>, code: Seq<char>, k1: int, k2: int)
    requires
        0 <= k1 <= k2,
        first_local(local, code, k1) is Some,
    ensures
        first_local(local, code, k2) == first_local(local, code, k1),
        first_local(local, code, k1) matches Some(i) && 0 <= i < k1,
    decreases k2 - k1,
{
    if k1 < k2 {
        lemma_first_local_stable(local, code, k1, k2 - 1);
    } else {
        lemma_first_local_range(local, code, k1);
    }
}

proof fn lemma_first_local_range(local: Seq<MetaAllegiance>, code: Seq<char>, k: int)
    requires
        0 <= k,
    ensures
        first_local(local, code, k) matches Some(i) ==> 0 <= i < k,
    decreases k,
{
    if k > 0 {
        lemma_first_local_range(local, code, k - 1);
    }
}

/// The name of allegiance `code`: the sector's own `<Allegiance>` entry first,
/// else the allegiance table.
pub fn resolve_alleg_name(local: &Vec<MetaAllegiance>, table: &Vec<AllegianceCode>, code: &str) -> (r: Option<String>)
    ensures
        crate::parse::opt_string_view(r) == alleg_name_for(local@, table@.map_values(|a: AllegianceCode| alleg_view(a)), code@),
{
    let mut i: usize = 0;
    while i < local.len()
        invariant
            i <= local@.len(),
            first_local(local@, code@, i as int) is None,
        decreases local@.len() - i,
    {
        if str_eq(local[i].code.as_str(), code) {
            proof { lemma_first_local_stable(local@, code@, i + 1, local@.len() as int); }
            return Some(local[i].name.clone());
        }
        i += 1;
    }
    allegiance_name(table, code)
}

/// The text a border is labelled with, when it shows one: its explicit label,
/// else the name of its allegiance.
pub open spec fn border_label_text(b: MetaBorder, local: Seq<MetaAllegiance>, rows: Seq<(Seq<char>, Seq<char>, Seq<char>)>)
    -> Option<Seq<char>>
{
    if !b.show_label {
        None
    } else {
        match b.label {
            Some(l) if l@.len() > 0 => Some(l@),
            _ => match b.allegiance {
                Some(c) => alleg_name_for(local, rows, c@),
                None => None,
            },
        }
    }
}

/// A label's search text: whitespace runs collapsed to one space, trimmed.
pub open spec fn sanified(t: Seq<char>) -> Seq<char> {
    join_spaces(ws_tokens(t))
}

/// The world-space point of hex `hex` in sector `(sx, sy)`, when it parses.
pub open spec fn hex_point(sx: int, sy: int, hex: Seq<char>) -> Option<(int, int)> {
    match spec_parse_hex(hex) {
        Some((c, r)) => Some(spec_location_to_coordinates(sx, sy, c, r)),
        None => None,
    }
}

/// The labelled points of borders and regions: each shown label at its
/// label position.
pub open spec fn border_points(bs: Seq<MetaBorder>, sx: int, sy: int, local: Seq<MetaAllegiance>,
    rows: Seq<(Seq<char>, Seq<char>, Seq<char>)>) -> Seq<(Seq<char>, (int, int))>
    decreases bs.len(),
{
    if bs.len() == 0 {
        Seq::empty()
    } else {
        let b = bs.last();
        border_points(bs.drop_last(), sx, sy, local, rows) + match border_label_text(b, local, rows) {
            Some(t) => match hex_point(sx, sy, label_position_of(opt_view(b.label_position), strings_view(b.hexes@))) {
                Some(p) => seq![(sanified(t), p)],
                None => Seq::empty(),
            },
            None => Seq::empty(),
        }
    }
}

/// The points of the hand-placed labels that have text.
pub open spec fn placed_label_points(ls: Seq<MetaLabel>, sx: int, sy: int) -> Seq<(Seq<char>, (int, int))>
    decreases ls.len(),
{
    if ls.len() == 0 {
        Seq::empty()
    } else {
        let l = ls.last();
        placed_label_points(ls.drop_last(), sx, sy) + if l.text@.len() > 0 {
            match hex_point(sx, sy, l.hex@) {
                Some(p) => seq![(sanified(l.text@), p)],
                None => Seq::empty(),
            }
        } else {
            Seq::empty()
        }
    }
}

/// Every labelled point a sector's metadata gives a search: borders, then
/// regions, then the hand-placed labels.
pub open spec fn sector_label_points(m: SectorMetadata, sx: int, sy: int, rows: Seq<(Seq<char>, Seq<char>, Seq<char>)>)
    -> Seq<(Seq<char>, (int, int))>
{
    border_points(m.borders@ + m.regions@, sx, sy, m.local_allegiances@, rows) + placed_label_points(m.labels@, sx, sy)
}

/// Every hex of sector `(sx, sy)` has `i32` world-space coordinates.
pub open spec fn sector_points_fit(sx: int, sy: int) -> bool {
    i32::MIN <= sx * 32 - 1 && sx * 32 + 98 <= i32::MAX && i32::MIN <= sy * 40 - 40 && sy * 40 + 59 <= i32::MAX
}

pub open spec fn point_entries(v: Seq<(String, (i32, i32))>) -> Seq<(Seq<char>, (int, int))> {
    v.map_values(|e: (String, (i32, i32))| (e.0@, (e.1.0 as int, e.1.1 as int)))
}

fn hex_point_exec(sx: i32, sy: i32, hex: &str) -> (r: Option<(i32, i32)>)
    requires
        sector_points_fit(sx as int, sy as int),
    ensures
        match r {
            Some(p) => hex_point(sx as int, sy as int, hex@) == Some((p.0 as int, p.1 as int)),
            None => hex_point(sx as int, sy as int, hex@) is None,
        },
{
    match parse_hex(hex) {
        Some((c, r)) => {
            proof { crate::astrometrics::lemma_parse_hex_range(hex@); }
            Some(location_to_coordinates(sx, sy, c, r))
        },
        None => None,
    }
}

fn border_label_exec(b: &MetaBorder, local: &Vec<MetaAllegiance>, table: &Vec<AllegianceCode>) -> (r: Option<String>)
    ensures
        crate::parse::opt_string_view(r) == border_label_text(*b, local@, table@.map_values(|a: AllegianceCode| alleg_view(a))),
{
    if !b.show_label {
        return None;
    }
    if let Some(l) = &b.label {
        if !l.as_str().is_empty() {
            return Some(l.clone());
        }
    }
    match &b.allegiance {
        Some(c) => resolve_alleg_name(local, table, c.as_str()),
        None => None,
    }
}

proof fn lemma_border_points_concat(a: Seq<MetaBorder>, b: Seq<MetaBorder>, sx: int, sy: int, local: Seq<MetaAllegiance>,
    rows: Seq<(Seq<char>, Seq<char>, Seq<char>)>)
    ensures
        border_points(a + b, sx, sy, local, rows) == border_points(a, sx, sy, local, rows) + border_points(b, sx, sy, local, rows),
    decreases b.len(),
{
    if b.len() == 0 {
        assert(a + b =~= a);
        assert(border_points(a, sx, sy, local, rows) + Seq::<(Seq<char>, (int, int))>::empty()
            =~= border_points(a, sx, sy, local, rows));
    } else {
        lemma_border_points_concat(a, b.drop_last(), sx, sy, local, rows);
        assert((a + b).drop_last() =~= a + b.drop_last());
        assert((a + b).last() == b.last());
        let pa = border_points(a, sx, sy, local, rows);
        let pb = border_points(b.drop_last(), sx, sy, local, rows);
        let t = border_points(b, sx, sy, local, rows).subrange(pb.len() as int, border_points(b, sx, sy, local, rows).len() as int);
        assert(border_points(b, sx, sy, local, rows) =~= pb + t);
        assert(pa + pb + t =~= pa + (pb + t));
    }
}

fn push_border_points(out: &mut Vec<(String, (i32, i32))>, bs: &Vec<MetaBorder>, sx: i32, sy: i32,
    local: &Vec<MetaAllegiance>, table: &Vec<AllegianceCode>)
    requires
        sector_points_fit(sx as int, sy as int),
    ensures
        point_entries(final(out)@) == point_entries(old(out)@)
            + border_points(bs@, sx as int, sy as int, local@, table@.map_values(|a: AllegianceCode| alleg_view(a))),
{
    let ghost rows = table@.map_values(|a: AllegianceCode| alleg_view(a));
    let ghost start = point_entries(out@);
    let mut i: usize = 0;
    while i < bs.len()
        invariant
            i <= bs@.len(),
            rows == table@.map_values(|a: AllegianceCode| alleg_view(a)),
            sector_points_fit(sx as int, sy as int),
            point_entries(out@) == start + border_points(bs@.take(i as int), sx as int, sy as int, local@, rows),
        decreases bs@.len() - i,
    {
        let b = &bs[i];
        assert(bs@.take(i + 1).drop_last() =~= bs@.take(i as int));
        let ghost before = point_entries(out@);
        let ghost rest = border_points(bs@.take(i as int), sx as int, sy as int, local@, rows);
        match border_label_exec(b, local, table) {
            Some(t) => {
                let pos = label_position(&b.label_position, &b.hexes);
                match hex_point_exec(sx, sy, pos.as_str()) {
                    Some(p) => {
                        out.push((sanify_label(t.as_str()), p));
                        assert(point_entries(out@) =~= before + seq![(sanified(t@), (p.0 as int, p.1 as int))]);
                        assert(start + (rest + seq![(sanified(t@), (p.0 as int, p.1 as int))]) =~= before + seq![(sanified(t@), (p.0 as int, p.1 as int))]);
                    },
                    None => {
                        assert(rest + Seq::<(Seq<char>, (int, int))>::empty() =~= rest);
                    },
                }
            },
            None => {
                assert(rest + Seq::<(Seq<char>, (int, int))>::empty() =~= rest);
            },
        }
        i += 1;
    }
    assert(bs@.take(bs@.len() as int) =~= bs@);
}

/// The labelled points a sector's metadata gives the search, in document
/// order: each shown border or region label (its text, else its allegiance's
/// name) at its label position, then each hand-placed label with text at its
/// hex; the text whitespace-collapsed, the point in world space.
pub fn label_points(meta: &SectorMetadata, sx: i32, sy: i32, table: &Vec<AllegianceCode>) -> (r: Vec<(String, (i32, i32))>)
    requires
        sector_points_fit(sx as int, sy as int),
    ensures
        point_entries(r@) == sector_label_points(*meta, sx as int, sy as int, table@.map_values(|a: AllegianceCode| alleg_view(a))),
{
    let ghost rows = table@.map_values(|a: AllegianceCode| alleg_view(a));
    let mut out: Vec<(String, (i32, i32))> = Vec::new();
    push_border_points(&mut out, &meta.borders, sx, sy, &meta.local_allegiances, table);
    push_border_points(&mut out, &meta.regions, sx, sy, &meta.local_allegiances, table);
    proof {
        lemma_border_points_concat(meta.borders@, meta.regions@, sx as int, sy as int, meta.local_allegiances@, rows);
        assert(Seq::<(Seq<char>, (int, int))>::empty() + border_points(meta.borders@, sx as int, sy as int, meta.local_allegiances@, rows)
            =~= border_points(meta.borders@, sx as int, sy as int, meta.local_allegiances@, rows));
    }
    let ghost head = point_entries(out@);
    let mut j: usize = 0;
    while j < meta.labels.len()
        invariant
            j <= meta.labels@.len(),
            sector_points_fit(sx as int, sy as int),
            point_entries(out@) == head + placed_label_points(meta.labels@.take(j as int), sx as int, sy as int),
        decreases meta.labels@.len() - j,
    {
        let l = &meta.labels[j];
        assert(meta.labels@.take(j + 1).drop_last() =~= meta.labels@.take(j as int));
        let ghost before = point_entries(out@);
        let ghost rest = placed_label_points(meta.labels@.take(j as int), sx as int, sy as int);
        if !l.text.as_str().is_empty() {
            match hex_point_exec(sx, sy, l.hex.as_str()) {
                Some(p) => {
                    out.push((sanify_label(l.text.as_str()), p));
                    assert(point_entries(out@) =~= before + seq![(sanified(l.text@), (p.0 as int, p.1 as int))]);
                    assert(head + (rest + seq![(sanified(l.text@), (p.0 as int, p.1 as int))]) =~= before + seq![(sanified(l.text@), (p.0 as int, p.1 as int))]);
                },
                None => {
                    assert(rest + Seq::<(Seq<char>, (int, int))>::empty() =~= rest);
                },
            }
        } else {
            assert(rest + Seq::<(Seq<char>, (int, int))>::empty() =~= rest);
        }
        j += 1;
    }
    assert(meta.labels@.take(meta.labels@.len() as int) =~= meta.labels@);
    out
}

} // verus!
