//! What the data endpoints decide once their files are read: which sector a
//! request names, which result kinds a search wants, the public universe
//! listing, and the credits for a hex.
use vstd::prelude::*;

use crate::dto::{SectorIndexEntry, SectorName, UniverseSector, CreditsResult, World};
use crate::metadata::{SectorMetadata, MetaSubsector, Product, MetaBorder, MetaAllegiance};
use crate::sec_header::{add_code, codes_upto, allegiance_codes, add_code_to, table_view};
use crate::world_util::{AllegianceCode, allegiance_name, allegiance_name_of, allegiance_base, base_of};
use crate::dto::DataFileMeta;
use crate::searchlang::SearchTypes;
use crate::requests::{eq_ignore_case, eq_ignore_ascii_case};
use crate::search_index::{combined_tags, sector_tags};
use crate::parse::opt_string_view;
use crate::astrometrics::spec_subsector_index;
use crate::text::{chars_of, str_eq, trim, trim_str, string_from_chars, ws_tokens, split_ws};

verus! {

// ── Which sector ────────────────────────────────────────────────────────────

/// Why a request names no sector.
#[derive(Debug, Clone, Copy, PartialEq, Eq)]
pub enum LookupError {
    /// Neither a position nor a name was given (a bad request).
    NoSector,
    /// Nothing in the milieu matches (not found).
    NotFound,
}

impl LookupError {
    /// The response text.
    pub fn message(&self) -> (s: String)
        ensures
            s@ == (match *self {
                LookupError::NoSector => "No sector specified."@,
                LookupError::NotFound => "The specified sector was not found."@,
            }),
    {
        match self {
            LookupError::NoSector => "No sector specified.".to_string(),
            LookupError::NotFound => "The specified sector was not found.".to_string(),
        }
    }
}

/// Sector `s` answers to `name`: its name or its abbreviation, ignoring
/// ASCII case.
pub open spec fn answers_to(s: SectorIndexEntry, name: Seq<char>) -> bool {
    eq_ignore_case(s.name@, name) || (s.abbreviation matches Some(a) && eq_ignore_case(a@, name))
}

/// The first of the first `k` sectors at grid position `(x, y)`.
pub open spec fn first_at_position(sectors: Seq<SectorIndexEntry>, x: int, y: int, k: int) -> Option<int>
    decreases k,
{
    if k <= 0 {
        None
    } else {
        match first_at_position(sectors, x, y, k - 1) {
            Some(i) => Some(i),
            None => if sectors[k - 1].location.x as int == x && sectors[k - 1].location.y as int == y { Some(k - 1) } else { None },
        }
    }
}

/// The first of the first `k` sectors that answers to `name`.
pub open spec fn first_named(sectors: Seq<SectorIndexEntry>, name: Seq<char>, k: int) -> Option<int>
    decreases k,
{
    if k <= 0 {
        None
    } else {
        match first_named(sectors, name, k - 1) {
            Some(i) => Some(i),
            None => if answers_to(sectors[k - 1], name) { Some(k - 1) } else { None },
        }
    }
}

/// The sector a request names: by grid position when both coordinates are
/// given, else by name or abbreviation.
pub open spec fn located(sectors: Seq<SectorIndexEntry>, sx: Option<i32>, sy: Option<i32>, name: Option<Seq<char>>) -> Result<int, LookupError> {
    let found = match (sx, sy) {
        (Some(x), Some(y)) => Some(first_at_position(sectors, x as int, y as int, sectors.len() as int)),
        _ => match name {
            Some(n) => Some(first_named(sectors, n, sectors.len() as int)),
            None => None,
        },
    };
    match found {
        None => Err(LookupError::NoSector),
        Some(None) => Err(LookupError::NotFound),
        Some(Some(i)) => Ok(i),
    }
}

proof fn lemma_first_at_position(sectors: Seq<SectorIndexEntry>, x: int, y: int, k1: int, k2: int)
    requires
        0 <= k1 <= k2,
        first_at_position(sectors, x, y, k1) is Some,
    ensures
        first_at_position(sectors, x, y, k2) == first_at_position(sectors, x, y, k1),
        first_at_position(sectors, x, y, k1) matches Some(i) && i < k1,
    decreases k2 - k1,
{
    if k1 < k2 {
        lemma_first_at_position(sectors, x, y, k1, k2 - 1);
    } else {
        lemma_first_at_position_bound(sectors, x, y, k1);
    }
}

proof fn lemma_first_at_position_bound(sectors: Seq<SectorIndexEntry>, x: int, y: int, k: int)
    requires
        k >= 0,
    ensures
        first_at_position(sectors, x, y, k) matches Some(i) ==> 0 <= i < k,
    decreases k,
{
    if k > 0 {
        lemma_first_at_position_bound(sectors, x, y, k - 1);
    }
}

proof fn lemma_first_named(sectors: Seq<SectorIndexEntry>, name: Seq<char>, k1: int, k2: int)
    requires
        0 <= k1 <= k2,
        first_named(sectors, name, k1) is Some,
    ensures
        first_named(sectors, name, k2) == first_named(sectors, name, k1),
    decreases k2 - k1,
{
    if k1 < k2 {
        lemma_first_named(sectors, name, k1, k2 - 1);
    }
}

fn answers_to_name(s: &SectorIndexEntry, name: &str) -> (r: bool)
    ensures
        r == answers_to(*s, name@),
{
    if eq_ignore_ascii_case(s.name.as_str(), name) {
        return true;
    }
    match &s.abbreviation {
        Some(a) => eq_ignore_ascii_case(a.as_str(), name),
        None => false,
    }
}

/// Find the sector a request names: by `(sx, sy)` when both are given,
/// otherwise by name or abbreviation (ASCII case ignored), the first match
/// in index order.
pub fn locate_sector(sectors: &Vec<SectorIndexEntry>, sx: Option<i32>, sy: Option<i32>, name: Option<&str>) -> (r: Result<usize, LookupError>)
    ensures
        match r {
            Ok(i) => located(sectors@, sx, sy, crate::text::opt_str_view(name)) == Ok::<int, LookupError>(i as int) && i < sectors@.len(),
            Err(e) => located(sectors@, sx, sy, crate::text::opt_str_view(name)) == Err::<int, LookupError>(e),
        },
{
    if let (Some(x), Some(y)) = (sx, sy) {
        let mut i: usize = 0;
        while i < sectors.len()
            invariant
                i <= sectors@.len(),
                first_at_position(sectors@, x as int, y as int, i as int) is None,
                sx == Some(x),
                sy == Some(y),
            decreases sectors@.len() - i,
        {
            if sectors[i].location.x == x && sectors[i].location.y == y {
                assert(first_at_position(sectors@, x as int, y as int, i + 1) == Some(i as int));
                proof { lemma_first_at_position(sectors@, x as int, y as int, i + 1, sectors@.len() as int); }
                return Ok(i);
            }
            i += 1;
        }
        return Err(LookupError::NotFound);
    }
    match name {
        Some(n) => {
            let mut i: usize = 0;
            while i < sectors.len()
                invariant
                    i <= sectors@.len(),
                    first_named(sectors@, n@, i as int) is None,
                    name == Some(n),
                    !(sx is Some && sy is Some),
                decreases sectors@.len() - i,
            {
                if answers_to_name(&sectors[i], n) {
                    assert(first_named(sectors@, n@, i + 1) == Some(i as int));
                    proof { lemma_first_named(sectors@, n@, i + 1, sectors@.len() as int); }
                    return Ok(i);
                }
                i += 1;
            }
            Err(LookupError::NotFound)
        },
        None => Err(LookupError::NoSector),
    }
}

// ── Search result kinds ─────────────────────────────────────────────────────

pub open spec fn is_type_sep(c: char) -> bool {
    c == ',' || c == ' ' || c == '\t'
}

/// The non-empty pieces of `s` between commas, spaces and tabs, from `i` on,
/// `cur` being the piece begun before `i`.
pub open spec fn type_tokens_from(s: Seq<char>, i: int, cur: Seq<char>) -> Seq<Seq<char>>
    decreases s.len() - i,
{
    if i < 0 || i >= s.len() {
        if cur.len() > 0 { seq![cur] } else { Seq::empty() }
    } else if is_type_sep(s[i]) {
        (if cur.len() > 0 { seq![cur] } else { Seq::empty() }) + type_tokens_from(s, i + 1, Seq::empty())
    } else {
        type_tokens_from(s, i + 1, cur.push(s[i]))
    }
}

/// One token of a `types=` list applied: a kind adds it, `default` resets to
/// every kind, anything else is ignored.
pub open spec fn apply_type(t: SearchTypes, tok: Seq<char>) -> SearchTypes {
    if tok == "worlds"@ {
        SearchTypes { worlds: true, ..t }
    } else if tok == "subsectors"@ {
        SearchTypes { subsectors: true, ..t }
    } else if tok == "sectors"@ {
        SearchTypes { sectors: true, ..t }
    } else if tok == "labels"@ {
        SearchTypes { labels: true, ..t }
    } else if tok == "default"@ {
        SearchTypes { sectors: true, subsectors: true, worlds: true, labels: true }
    } else {
        t
    }
}

pub open spec fn apply_types(t: SearchTypes, toks: Seq<Seq<char>>) -> SearchTypes
    decreases toks.len(),
{
    if toks.len() == 0 { t } else { apply_type(apply_types(t, toks.drop_last()), toks.last()) }
}

/// The kinds a `types=` parameter asks for: every kind when it is absent or
/// blank, otherwise the kinds its tokens name, starting from none.
pub open spec fn types_of(raw: Option<Seq<char>>) -> SearchTypes {
    match raw {
        Some(r) => if trim(r).len() > 0 {
            apply_types(SearchTypes { sectors: false, subsectors: false, worlds: false, labels: false },
                type_tokens_from(r, 0, Seq::empty()))
        } else {
            SearchTypes { sectors: true, subsectors: true, worlds: true, labels: true }
        },
        None => SearchTypes { sectors: true, subsectors: true, worlds: true, labels: true },
    }
}

fn apply_type_token(t: SearchTypes, tok: &Vec<char>) -> (r: SearchTypes)
    ensures
        r == apply_type(t, tok@),
{
    let s = string_from_chars(tok);
    if str_eq(s.as_str(), "worlds") {
        SearchTypes { worlds: true, ..t }
    } else if str_eq(s.as_str(), "subsectors") {
        SearchTypes { subsectors: true, ..t }
    } else if str_eq(s.as_str(), "sectors") {
        SearchTypes { sectors: true, ..t }
    } else if str_eq(s.as_str(), "labels") {
        SearchTypes { labels: true, ..t }
    } else if str_eq(s.as_str(), "default") {
        SearchTypes::all_kinds()
    } else {
        t
    }
}

/// Parse the `types=` parameter of a search (`worlds`, `subsectors`,
/// `sectors`, `labels`, `default`, separated by commas, spaces or tabs).
pub fn parse_types(raw: Option<&str>) -> (t: SearchTypes)
    ensures
        t == types_of(crate::text::opt_str_view(raw)),
{
    let r = match raw {
        Some(r) => r,
        None => return SearchTypes::all_kinds(),
    };
    let trimmed = trim_str(r);
    if trimmed.as_str().is_empty() {
        return SearchTypes::all_kinds();
    }
    let cs = chars_of(r);
    let mut t = SearchTypes::no_kinds();
    let mut cur: Vec<char> = Vec::new();
    let mut i: usize = 0;
    let ghost empty = SearchTypes { sectors: false, subsectors: false, worlds: false, labels: false };
    assert(type_tokens_from(cs@, 0, Seq::empty()) == type_tokens_from(r@, 0, Seq::empty()));
    while i < cs.len()
        invariant
            i <= cs@.len(),
            cs@ == r@,
            apply_types(t, type_tokens_from(cs@, i as int, cur@)) == apply_types(empty, type_tokens_from(cs@, 0, Seq::empty())),
        decreases cs@.len() - i,
    {
        let c = cs[i];
        if c == ',' || c == ' ' || c == '\t' {
            let ghost before = type_tokens_from(cs@, i as int, cur@);
            let ghost rest = type_tokens_from(cs@, i + 1, Seq::empty());
            if cur.len() > 0 {
                proof { lemma_apply_types_prepend(t, cur@, rest); }
                t = apply_type_token(t, &cur);
            } else {
                assert(before =~= rest);
            }
            cur = Vec::new();
            assert(cur@ =~= Seq::<char>::empty());
        } else {
            cur.push(c);
        }
        i += 1;
    }
    if cur.len() > 0 {
        proof { lemma_apply_types_prepend(t, cur@, Seq::empty()); }
        assert(seq![cur@] + Seq::<Seq<char>>::empty() =~= seq![cur@]);
        t = apply_type_token(t, &cur);
    }
    t
}

proof fn lemma_apply_types_prepend(t: SearchTypes, tok: Seq<char>, rest: Seq<Seq<char>>)
    ensures
        apply_types(t, seq![tok] + rest) == apply_types(apply_type(t, tok), rest),
    decreases rest.len(),
{
    let all = seq![tok] + rest;
    if rest.len() == 0 {
        assert(all =~= seq![tok]);
        assert(all.drop_last() =~= Seq::<Seq<char>>::empty());
        assert(all.last() == tok);
        assert(apply_types(t, all) == apply_type(apply_types(t, all.drop_last()), all.last()));
    } else {
        lemma_apply_types_prepend(t, tok, rest.drop_last());
        assert(all.drop_last() =~= seq![tok] + rest.drop_last());
        assert(all.last() == rest.last());
    }
}

} // verus!

verus! {

// ── Copies ──────────────────────────────────────────────────────────────────

pub fn copy_opt(o: &Option<String>) -> (r: Option<String>)
    ensures
        r == *o,
{
    match o {
        Some(s) => Some(s.clone()),
        None => None,
    }
}

fn copy_names(v: &Vec<SectorName>) -> (r: Vec<SectorName>)
    ensures
        r@ == v@,
{
    let mut out: Vec<SectorName> = Vec::new();
    let mut i: usize = 0;
    while i < v.len()
        invariant
            i <= v@.len(),
            out@ == v@.take(i as int),
        decreases v@.len() - i,
    {
        let n = &v[i];
        out.push(SectorName { text: n.text.clone(), lang: copy_opt(&n.lang), source: copy_opt(&n.source) });
        assert(out@ =~= v@.take(i + 1));
        i += 1;
    }
    assert(v@.take(v@.len() as int) =~= v@);
    out
}

// ── The universe listing ────────────────────────────────────────────────────

pub open spec fn opt_seq_or(o: Option<String>, d: Option<Seq<char>>) -> Seq<char> {
    match o {
        Some(t) => t@,
        None => match d {
            Some(t) => t,
            None => Seq::empty(),
        },
    }
}

/// Some tag of `tags` is one of `want`.
pub open spec fn wanted(tags: Seq<char>, want: Seq<Seq<char>>) -> bool {
    exists|k: int| 0 <= k < ws_tokens(tags).len() && want.contains(#[trigger] ws_tokens(tags)[k])
}

/// The listing entry of a sector, as (x, y, milieu, abbreviation, tags,
/// names), or none when it is left out: no data file while one is required,
/// or none of its tags wanted (when some are). Its tags are its own and its
/// metafile's (or else the milieu's), each once; an entry without names
/// gets its index name.
pub open spec fn universe_entry(s: SectorIndexEntry, milieu: Seq<char>, default_tag: Option<Seq<char>>, require_data: bool,
    want: Seq<Seq<char>>) -> Option<(int, int, Seq<char>, Option<Seq<char>>, Seq<char>, Seq<SectorName>)>
{
    let tags = combined_tags(s.tags@, Some(opt_seq_or(s.metafile_tag, default_tag)));
    if require_data && s.data_file is None {
        None
    } else if want.len() > 0 && !wanted(tags, want) {
        None
    } else {
        let names = if s.names@.len() == 0 {
            seq![SectorName { text: s.name, lang: None, source: None }]
        } else {
            s.names@
        };
        Some((s.location.x as int, s.location.y as int, milieu, opt_string_view(s.abbreviation), tags, names))
    }
}

pub open spec fn universe_view(u: UniverseSector) -> (int, int, Seq<char>, Option<Seq<char>>, Seq<char>, Seq<SectorName>) {
    (u.x as int, u.y as int, u.milieu@, opt_string_view(u.abbreviation), u.tags@, u.names@)
}

/// The listing of the first `k` sectors.
pub open spec fn universe_upto(sectors: Seq<SectorIndexEntry>, milieu: Seq<char>, default_tag: Option<Seq<char>>,
    require_data: bool, want: Seq<Seq<char>>, k: int) -> Seq<(int, int, Seq<char>, Option<Seq<char>>, Seq<char>, Seq<SectorName>)>
    decreases k,
{
    if k <= 0 {
        Seq::empty()
    } else {
        universe_upto(sectors, milieu, default_tag, require_data, want, k - 1) + match universe_entry(sectors[k - 1], milieu, default_tag, require_data, want) {
            Some(e) => seq![e],
            None => Seq::empty(),
        }
    }
}

fn is_wanted(tags: &str, want: &Vec<String>) -> (r: bool)
    ensures
        r == wanted(tags@, want@.map_values(|w: String| w@)),
{
    let toks = split_ws(tags);
    let ghost tv = toks@.map_values(|t: String| t@);
    let ghost wv = want@.map_values(|w: String| w@);
    let mut i: usize = 0;
    while i < toks.len()
        invariant
            i <= toks@.len(),
            tv == toks@.map_values(|t: String| t@),
            tv == ws_tokens(tags@),
            wv == want@.map_values(|w: String| w@),
            forall|k: int| 0 <= k < i ==> !wv.contains(#[trigger] tv[k]),
        decreases toks@.len() - i,
    {
        let mut j: usize = 0;
        while j < want.len()
            invariant
                j <= want@.len(),
                i < toks@.len(),
                tv == toks@.map_values(|t: String| t@),
                wv == want@.map_values(|w: String| w@),
                forall|m: int| 0 <= m < j ==> wv[m] != tv[i as int],
                tv == ws_tokens(tags@),
            decreases want@.len() - j,
        {
            if str_eq(want[j].as_str(), toks[i].as_str()) {
                assert(wv[j as int] == tv[i as int]);
                assert(wv.contains(tv[i as int]));
                assert(wv.contains(ws_tokens(tags@)[i as int]));
                return true;
            }
            j += 1;
        }
        assert(!wv.contains(tv[i as int])) by {
            if wv.contains(tv[i as int]) {
                let m = choose|m: int| 0 <= m < wv.len() && wv[m] == tv[i as int];
                assert(wv[m] != tv[i as int]);
            }
        }
        i += 1;
    }
    false
}

/// The public universe listing of a milieu's sectors, in index order.
/// `default_tag` is the milieu's tag, for sectors loaded without a metafile.
pub fn universe_sectors(sectors: &Vec<SectorIndexEntry>, milieu: &str, default_tag: Option<&str>, require_data: bool,
    want_tags: &Vec<String>) -> (r: Vec<UniverseSector>)
    ensures
        r@.map_values(|u: UniverseSector| universe_view(u)) == universe_upto(sectors@, milieu@,
            crate::text::opt_str_view(default_tag), require_data, want_tags@.map_values(|w: String| w@), sectors@.len() as int),
{
    let ghost dt = crate::text::opt_str_view(default_tag);
    let ghost wv = want_tags@.map_values(|w: String| w@);
    let mut out: Vec<UniverseSector> = Vec::new();
    let mut i: usize = 0;
    while i < sectors.len()
        invariant
            i <= sectors@.len(),
            dt == crate::text::opt_str_view(default_tag),
            wv == want_tags@.map_values(|w: String| w@),
            out@.map_values(|u: UniverseSector| universe_view(u)) == universe_upto(sectors@, milieu@, dt, require_data, wv, i as int),
        decreases sectors@.len() - i,
    {
        let s = &sectors[i];
        let ghost before = out@.map_values(|u: UniverseSector| universe_view(u));
        let mtag: &str = match &s.metafile_tag {
            Some(t) => t.as_str(),
            None => match default_tag {
                Some(t) => t,
                None => "",
            },
        };
        proof {
            if s.metafile_tag is None && default_tag is None {
                reveal_strlit("");
            }
        }
        assert(mtag@ == opt_seq_or(s.metafile_tag, dt));
        let tags = sector_tags(s.tags.as_str(), Some(mtag));
        let keep = !(require_data && s.data_file.is_none()) && (want_tags.len() == 0 || is_wanted(tags.as_str(), want_tags));
        if keep {
            let names = if s.names.len() == 0 {
                let mut v: Vec<SectorName> = Vec::new();
                v.push(SectorName { text: s.name.clone(), lang: None, source: None });
                assert(v@ =~= seq![SectorName { text: s.name, lang: None, source: None }]);
                v
            } else {
                copy_names(&s.names)
            };
            let u = UniverseSector {
                x: s.location.x,
                y: s.location.y,
                milieu: milieu.to_string(),
                abbreviation: copy_opt(&s.abbreviation),
                tags,
                names,
            };
            out.push(u);
            assert(out@.map_values(|u: UniverseSector| universe_view(u)) =~= before.push(universe_view(u)));
        } else {
            assert(before + Seq::empty() =~= before);
        }
        i += 1;
    }
    out
}

// ── Credits ─────────────────────────────────────────────────────────────────

pub open spec fn nonempty(s: Seq<char>) -> Option<Seq<char>> {
    if s.len() > 0 { Some(s) } else { None }
}

/// The first of the first `k` subsectors indexed by `letter`.
pub open spec fn subsector_by_letter(subs: Seq<MetaSubsector>, letter: Seq<char>, k: int) -> Option<int>
    decreases k,
{
    if k <= 0 {
        None
    } else {
        match subsector_by_letter(subs, letter, k - 1) {
            Some(i) => Some(i),
            None => if subs[k - 1].index@ == letter { Some(k - 1) } else { None },
        }
    }
}

/// The first of the first `k` worlds at `hex`.
pub open spec fn world_at_hex(worlds: Seq<World>, hex: Seq<char>, k: int) -> Option<int>
    decreases k,
{
    if k <= 0 {
        None
    } else {
        match world_at_hex(worlds, hex, k - 1) {
            Some(i) => Some(i),
            None => if worlds[k - 1].hex@ == hex { Some(k - 1) } else { None },
        }
    }
}

/// The credits for `hex` of a sector: its metadata's names, credits, tags
/// and provenance (the milieu when the data file names none), the first
/// product, the subsector the hex lies in, and the first world at the hex;
/// empty text is left out.
pub open spec fn credits_for(r: CreditsResult, m: SectorMetadata, worlds: Seq<World>, milieu: Seq<char>, hex: Seq<char>) -> bool {
    let letter = seq![(65 + spec_subsector_index(hex)) as char];
    &&& r.sector_x == m.x && r.sector_y == m.y
    &&& opt_string_view(r.sector_name) == (if m.names@.len() > 0 { Some(m.names@[0].text@) } else { None })
    &&& r.credits == m.credits_text
    &&& opt_string_view(r.sector_tags) == nonempty(m.tags@)
    &&& r.sector_author == m.data_file.author && r.sector_source == m.data_file.source
    &&& r.sector_publisher == m.data_file.publisher && r.sector_copyright == m.data_file.copyright
    &&& r.sector_ref == m.data_file.reference
    &&& opt_string_view(r.sector_milieu) == (match m.data_file.milieu {
        Some(v) => Some(v@),
        None => Some(milieu),
    })
    &&& r.route_credits is None && r.subsector_credits is None && r.world_credits is None
    &&& (if m.products@.len() > 0 {
        let p = m.products@[0];
        r.product_publisher == p.publisher && r.product_title == p.title && r.product_author == p.author
            && r.product_ref == p.reference
    } else {
        r.product_publisher is None && r.product_title is None && r.product_author is None && r.product_ref is None
    })
    &&& (match subsector_by_letter(m.subsectors@, letter, m.subsectors@.len() as int) {
        Some(i) => opt_string_view(r.subsector_name) == nonempty(m.subsectors@[i].name@)
            && opt_string_view(r.subsector_index) == nonempty(m.subsectors@[i].index@),
        None => r.subsector_name is None && r.subsector_index is None,
    })
    &&& (match world_at_hex(worlds, hex, worlds.len() as int) {
        Some(i) => {
            let w = worlds[i];
            &&& opt_string_view(r.world_name) == nonempty(w.name@)
            &&& opt_string_view(r.world_hex) == nonempty(w.hex@)
            &&& opt_string_view(r.world_uwp) == nonempty(w.uwp@)
            &&& opt_string_view(r.world_remarks) == nonempty(w.remarks@)
            &&& r.world_ix == w.importance && r.world_ex == w.economic && r.world_cx == w.cultural
            &&& opt_string_view(r.world_pbg) == nonempty(w.pbg@)
            &&& opt_string_view(r.world_allegiance) == nonempty(w.allegiance@)
        },
        None => r.world_name is None && r.world_hex is None && r.world_uwp is None && r.world_remarks is None
            && r.world_ix is None && r.world_ex is None && r.world_cx is None && r.world_pbg is None
            && r.world_allegiance is None,
    })
}

fn nonempty_copy(s: &String) -> (r: Option<String>)
    ensures
        opt_string_view(r) == nonempty(s@),
{
    if s.as_str().is_empty() { None } else { Some(s.clone()) }
}

/// The credits for `hex` from a sector's assembled metadata and worlds.
pub fn credits_at(meta: &SectorMetadata, worlds: &Vec<World>, milieu: &str, hex: &str) -> (r: CreditsResult)
    ensures
        credits_for(r, *meta, worlds@, milieu@, hex@),
{
    let df = &meta.data_file;
    let mut r = CreditsResult {
        credits: copy_opt(&meta.credits_text),
        sector_x: meta.x,
        sector_y: meta.y,
        sector_name: if meta.names.len() > 0 { Some(meta.names[0].text.clone()) } else { None },
        sector_author: copy_opt(&df.author),
        sector_source: copy_opt(&df.source),
        sector_publisher: copy_opt(&df.publisher),
        sector_copyright: copy_opt(&df.copyright),
        sector_ref: copy_opt(&df.reference),
        sector_milieu: match &df.milieu {
            Some(v) => Some(v.clone()),
            None => Some(milieu.to_string()),
        },
        sector_tags: nonempty_copy(&meta.tags),
        route_credits: None,
        subsector_name: None,
        subsector_index: None,
        subsector_credits: None,
        world_name: None,
        world_hex: None,
        world_uwp: None,
        world_remarks: None,
        world_ix: None,
        world_ex: None,
        world_cx: None,
        world_pbg: None,
        world_allegiance: None,
        world_credits: None,
        product_publisher: None,
        product_title: None,
        product_author: None,
        product_ref: None,
    };
    if meta.products.len() > 0 {
        let p = &meta.products[0];
        r.product_publisher = copy_opt(&p.publisher);
        r.product_title = copy_opt(&p.title);
        r.product_author = copy_opt(&p.author);
        r.product_ref = copy_opt(&p.reference);
    }
    let c = crate::astrometrics::subsector_letter(hex);
    let mut lv: Vec<char> = Vec::new();
    lv.push(c);
    let letter = string_from_chars(&lv);
    assert(letter@ =~= seq![(65 + spec_subsector_index(hex@)) as char]);
    match find_subsector(&meta.subsectors, letter.as_str()) {
        Some(i) => {
            r.subsector_name = nonempty_copy(&meta.subsectors[i].name);
            r.subsector_index = nonempty_copy(&meta.subsectors[i].index);
        },
        None => {},
    }
    match find_world(worlds, hex) {
        Some(k) => {
            let w = &worlds[k];
            r.world_name = nonempty_copy(&w.name);
            r.world_hex = nonempty_copy(&w.hex);
            r.world_uwp = nonempty_copy(&w.uwp);
            r.world_remarks = nonempty_copy(&w.remarks);
            r.world_ix = copy_opt(&w.importance);
            r.world_ex = copy_opt(&w.economic);
            r.world_cx = copy_opt(&w.cultural);
            r.world_pbg = nonempty_copy(&w.pbg);
            r.world_allegiance = nonempty_copy(&w.allegiance);
        },
        None => {},
    }
    r
}

fn find_subsector(subs: &Vec<MetaSubsector>, letter: &str) -> (r: Option<usize>)
    ensures
        match r {
            Some(i) => subsector_by_letter(subs@, letter@, subs@.len() as int) == Some(i as int) && i < subs@.len(),
            None => subsector_by_letter(subs@, letter@, subs@.len() as int) is None,
        },
{
    let mut i: usize = 0;
    while i < subs.len()
        invariant
            i <= subs@.len(),
            subsector_by_letter(subs@, letter@, i as int) is None,
        decreases subs@.len() - i,
    {
        if str_eq(subs[i].index.as_str(), letter) {
            assert(subsector_by_letter(subs@, letter@, i + 1) == Some(i as int));
            proof { lemma_subsector_stable(subs@, letter@, i + 1, subs@.len() as int); }
            return Some(i);
        }
        i += 1;
    }
    None
}

fn find_world(worlds: &Vec<World>, hex: &str) -> (r: Option<usize>)
    ensures
        match r {
            Some(i) => world_at_hex(worlds@, hex@, worlds@.len() as int) == Some(i as int) && i < worlds@.len(),
            None => world_at_hex(worlds@, hex@, worlds@.len() as int) is None,
        },
{
    let mut i: usize = 0;
    while i < worlds.len()
        invariant
            i <= worlds@.len(),
            world_at_hex(worlds@, hex@, i as int) is None,
        decreases worlds@.len() - i,
    {
        if str_eq(worlds[i].hex.as_str(), hex) {
            assert(world_at_hex(worlds@, hex@, i + 1) == Some(i as int));
            proof { lemma_world_stable(worlds@, hex@, i + 1, worlds@.len() as int); }
            return Some(i);
        }
        i += 1;
    }
    None
}

proof fn lemma_subsector_stable(subs: Seq<MetaSubsector>, letter: Seq<char>, k1: int, k2: int)
    requires
        0 <= k1 <= k2,
        subsector_by_letter(subs, letter, k1) is Some,
    ensures
        subsector_by_letter(subs, letter, k2) == subsector_by_letter(subs, letter, k1),
    decreases k2 - k1,
{
    if k1 < k2 {
        lemma_subsector_stable(subs, letter, k1, k2 - 1);
    }
}

proof fn lemma_world_stable(worlds: Seq<World>, hex: Seq<char>, k1: int, k2: int)
    requires
        0 <= k1 <= k2,
        world_at_hex(worlds, hex, k1) is Some,
    ensures
        world_at_hex(worlds, hex, k2) == world_at_hex(worlds, hex, k1),
    decreases k2 - k1,
{
    if k1 < k2 {
        lemma_world_stable(worlds, hex, k1, k2 - 1);
    }
}

} // verus!

verus! {

// ── Assembling a sector's metadata ──────────────────────────────────────────

/// The allegiance codes used by the worlds and by the borders and regions,
/// sorted, each once.
pub open spec fn border_codes(codes: Seq<Seq<char>>, bs: Seq<MetaBorder>) -> Seq<Seq<char>>
    decreases bs.len(),
{
    if bs.len() == 0 {
        codes
    } else {
        let prev = border_codes(codes, bs.drop_last());
        match bs.last().allegiance {
            Some(a) => add_code(prev, a@),
            None => prev,
        }
    }
}

pub open spec fn used_codes(worlds: Seq<World>, borders: Seq<MetaBorder>, regions: Seq<MetaBorder>) -> Seq<Seq<char>> {
    border_codes(border_codes(codes_upto(worlds, worlds.len() as int), borders), regions)
}

/// The last of the sector's own allegiance entries with this code.
pub open spec fn last_local(local: Seq<MetaAllegiance>, code: Seq<char>) -> Option<int>
    decreases local.len(),
{
    if local.len() == 0 {
        None
    } else if local.last().code@ == code {
        Some(local.len() - 1)
    } else {
        last_local(local.drop_last(), code)
    }
}

/// A code resolved to (name, code, base): the sector's own last entry for it,
/// else the stock table's name and base; none when neither knows it.
pub open spec fn resolved_allegiance(code: Seq<char>, local: Seq<MetaAllegiance>, table: Seq<AllegianceCode>)
    -> Option<(Seq<char>, Seq<char>, Option<Seq<char>>)>
{
    match last_local(local, code) {
        Some(i) => Some((local[i].name@, code, opt_string_view(local[i].base))),
        None => match allegiance_name_of(table_view(table), code) {
            Some(n) => Some((n, code, base_of(table, code))),
            None => None,
        },
    }
}

pub open spec fn resolved_upto(codes: Seq<Seq<char>>, local: Seq<MetaAllegiance>, table: Seq<AllegianceCode>, k: int)
    -> Seq<(Seq<char>, Seq<char>, Option<Seq<char>>)>
    decreases k,
{
    if k <= 0 {
        Seq::empty()
    } else {
        resolved_upto(codes, local, table, k - 1) + match resolved_allegiance(codes[k - 1], local, table) {
            Some(a) => seq![a],
            None => Seq::empty(),
        }
    }
}

pub open spec fn allegiance_triples(v: Seq<MetaAllegiance>) -> Seq<(Seq<char>, Seq<char>, Option<Seq<char>>)> {
    v.map_values(|a: MetaAllegiance| (a.name@, a.code@, opt_string_view(a.base)))
}

fn add_border_codes(acc: &mut Vec<String>, bs: &Vec<MetaBorder>)
    ensures
        final(acc)@.map_values(|s: String| s@) == border_codes(old(acc)@.map_values(|s: String| s@), bs@),
{
    let ghost start = acc@.map_values(|s: String| s@);
    let mut i: usize = 0;
    while i < bs.len()
        invariant
            i <= bs@.len(),
            start == old(acc)@.map_values(|s: String| s@),
            acc@.map_values(|s: String| s@) == border_codes(start, bs@.take(i as int)),
        decreases bs@.len() - i,
    {
        assert(bs@.take(i + 1).drop_last() =~= bs@.take(i as int));
        assert(bs@.take(i + 1).last() == bs@[i as int]);
        match &bs[i].allegiance {
            Some(a) => add_code_to(acc, a.as_str()),
            None => {},
        }
        i += 1;
    }
    assert(bs@.take(bs@.len() as int) =~= bs@);
}

fn last_local_of(local: &Vec<MetaAllegiance>, code: &str) -> (r: Option<usize>)
    ensures
        match r {
            Some(i) => last_local(local@, code@) == Some(i as int) && i < local@.len(),
            None => last_local(local@, code@) is None,
        },
{
    let mut k = local.len();
    assert(local@.take(k as int) =~= local@);
    while k > 0
        invariant
            k <= local@.len(),
            last_local(local@, code@) == last_local(local@.take(k as int), code@),
        decreases k,
    {
        assert(local@.take(k as int).last() == local@[k - 1]);
        assert(local@.take(k as int).drop_last() =~= local@.take(k - 1));
        if str_eq(local[k - 1].code.as_str(), code) {
            return Some(k - 1);
        }
        k -= 1;
    }
    None
}

/// The `Allegiances` of a sector's metadata: every code its worlds, borders
/// and regions use (sorted, each once) that the sector's own entries (the
/// last for a code) or the stock table name, with its base code.
pub fn metadata_allegiances(worlds: &Vec<World>, borders: &Vec<MetaBorder>, regions: &Vec<MetaBorder>,
    local: &Vec<MetaAllegiance>, table: &Vec<AllegianceCode>) -> (r: Vec<MetaAllegiance>)
    ensures
        allegiance_triples(r@) == ({
            let codes = used_codes(worlds@, borders@, regions@);
            resolved_upto(codes, local@, table@, codes.len() as int)
        }),
{
    let mut codes = allegiance_codes(worlds);
    add_border_codes(&mut codes, borders);
    add_border_codes(&mut codes, regions);
    let ghost cv = codes@.map_values(|s: String| s@);
    let mut out: Vec<MetaAllegiance> = Vec::new();
    let mut i: usize = 0;
    while i < codes.len()
        invariant
            i <= codes@.len(),
            cv == codes@.map_values(|s: String| s@),
            allegiance_triples(out@) == resolved_upto(cv, local@, table@, i as int),
        decreases codes@.len() - i,
    {
        let ghost before = allegiance_triples(out@);
        let code = &codes[i];
        assert(cv[i as int] == code@);
        let found = match last_local_of(local, code.as_str()) {
            Some(k) => Some(MetaAllegiance { name: local[k].name.clone(), code: code.clone(), base: copy_opt(&local[k].base) }),
            None => match allegiance_name(table, code.as_str()) {
                Some(n) => Some(MetaAllegiance { name: n, code: code.clone(), base: allegiance_base(table, code.as_str()) }),
                None => None,
            },
        };
        match found {
            Some(a) => {
                out.push(a);
                assert(allegiance_triples(out@) =~= before + seq![(a.name@, a.code@, opt_string_view(a.base))]);
            },
            None => {
                assert(before + Seq::empty() =~= before);
            },
        }
        i += 1;
    }
    out
}

/// The review tags of an assembled sector: its own and the milieu's, those
/// that are not empty, joined by a space.
pub open spec fn joined_tags(own: Seq<char>, milieu_tag: Option<Seq<char>>) -> Seq<char> {
    let m = match milieu_tag {
        Some(t) => t,
        None => Seq::empty(),
    };
    if own.len() > 0 && m.len() > 0 {
        own + " "@ + m
    } else if own.len() > 0 {
        own
    } else {
        m
    }
}

/// What assembling gives: the sector's own document, each of its empty
/// collections (subsectors, borders, regions, routes, products, labels) and a
/// missing stylesheet or label filled from the inline block; identity (grid
/// position, names when the index has them, abbreviation) from the index
/// entry; tags as [`joined_tags`]; the data file's provenance with the
/// milieu; and the allegiances the worlds and borders use.
pub open spec fn assembled(r: SectorMetadata, own: SectorMetadata, inline: SectorMetadata, e: SectorIndexEntry,
    milieu: Seq<char>, milieu_tag: Option<Seq<char>>, df: DataFileMeta, worlds: Seq<World>, table: Seq<AllegianceCode>) -> bool
{
    let local = own.local_allegiances@ + inline.local_allegiances@;
    &&& r.subsectors == (if own.subsectors@.len() > 0 { own.subsectors } else { inline.subsectors })
    &&& r.borders == (if own.borders@.len() > 0 { own.borders } else { inline.borders })
    &&& r.regions == (if own.regions@.len() > 0 { own.regions } else { inline.regions })
    &&& r.routes == (if own.routes@.len() > 0 { own.routes } else { inline.routes })
    &&& r.products == (if own.products@.len() > 0 { own.products } else { inline.products })
    &&& r.labels == (if own.labels@.len() > 0 { own.labels } else { inline.labels })
    &&& r.stylesheet == (if own.stylesheet is Some { own.stylesheet } else { inline.stylesheet })
    &&& r.label == (if own.label is Some { own.label } else { inline.label })
    &&& r.selected == (own.selected || inline.selected)
    &&& r.x == e.location.x && r.y == e.location.y
    &&& r.names@ == (if e.names@.len() > 0 { e.names@ } else { own.names@ })
    &&& r.tags@ == joined_tags(e.tags@, milieu_tag)
    &&& r.abbreviation == e.abbreviation
    &&& r.credits == own.credits && r.credits_text == own.credits_text
    &&& r.local_allegiances == own.local_allegiances
    &&& r.data_file.title == df.title && r.data_file.author == df.author && r.data_file.source == df.source
    &&& r.data_file.publisher == df.publisher && r.data_file.copyright == df.copyright
    &&& r.data_file.reference == df.reference
    &&& opt_string_view(r.data_file.milieu) == Some(milieu)
    &&& allegiance_triples(r.allegiances@) == ({
        let codes = used_codes(worlds, r.borders@, r.regions@);
        resolved_upto(codes, local, table, codes.len() as int)
    })
}

fn concat_allegiances(a: &Vec<MetaAllegiance>, b: &Vec<MetaAllegiance>) -> (r: Vec<MetaAllegiance>)
    ensures
        r@.len() == a@.len() + b@.len(),
        forall|i: int| 0 <= i < r@.len() ==> (#[trigger] r@[i]).code@ == (if i < a@.len() { a@[i].code@ } else { b@[i - a@.len()].code@ })
            && r@[i].name@ == (if i < a@.len() { a@[i].name@ } else { b@[i - a@.len()].name@ })
            && r@[i].base == (if i < a@.len() { a@[i].base } else { b@[i - a@.len()].base }),
{
    let mut out: Vec<MetaAllegiance> = Vec::new();
    let mut i: usize = 0;
    while i < a.len()
        invariant
            i <= a@.len(),
            out@.len() == i,
            forall|k: int| 0 <= k < i ==> (#[trigger] out@[k]).code@ == a@[k].code@ && out@[k].name@ == a@[k].name@ && out@[k].base == a@[k].base,
        decreases a@.len() - i,
    {
        out.push(MetaAllegiance { name: a[i].name.clone(), code: a[i].code.clone(), base: copy_opt(&a[i].base) });
        i += 1;
    }
    let mut j: usize = 0;
    while j < b.len()
        invariant
            j <= b@.len(),
            out@.len() == a@.len() + j,
            forall|k: int| 0 <= k < a@.len() ==> (#[trigger] out@[k]).code@ == a@[k].code@ && out@[k].name@ == a@[k].name@ && out@[k].base == a@[k].base,
            forall|k: int| a@.len() <= k < out@.len() ==> (#[trigger] out@[k]).code@ == b@[k - a@.len()].code@
                && out@[k].name@ == b@[k - a@.len()].name@ && out@[k].base == b@[k - a@.len()].base,
        decreases b@.len() - j,
    {
        out.push(MetaAllegiance { name: b[j].name.clone(), code: b[j].code.clone(), base: copy_opt(&b[j].base) });
        j += 1;
    }
    out
}

proof fn lemma_last_local_same(x: Seq<MetaAllegiance>, y: Seq<MetaAllegiance>, code: Seq<char>)
    requires
        x.len() == y.len(),
        forall|i: int| 0 <= i < x.len() ==> (#[trigger] x[i]).code@ == y[i].code@ && x[i].name@ == y[i].name@ && x[i].base == y[i].base,
    ensures
        last_local(x, code) == last_local(y, code),
        last_local(x, code) matches Some(i) ==> 0 <= i < x.len() && x[i].name@ == y[i].name@ && x[i].base == y[i].base,
    decreases x.len(),
{
    if x.len() > 0 {
        let n = x.len() - 1;
        assert(x[n].code@ == y[n].code@ && x[n].name@ == y[n].name@ && x[n].base == y[n].base);
        assert(x.last() == x[n] && y.last() == y[n]);
        assert forall|i: int| 0 <= i < x.drop_last().len() implies (#[trigger] x.drop_last()[i]).code@ == y.drop_last()[i].code@
            && x.drop_last()[i].name@ == y.drop_last()[i].name@ && x.drop_last()[i].base == y.drop_last()[i].base by {
            assert(x.drop_last()[i] == x[i] && y.drop_last()[i] == y[i]);
        }
        lemma_last_local_same(x.drop_last(), y.drop_last(), code);
        if let Some(i) = last_local(x.drop_last(), code) {
            assert(x.drop_last()[i] == x[i] && y.drop_last()[i] == y[i]);
        }
    }
}

proof fn lemma_resolved_same(codes: Seq<Seq<char>>, x: Seq<MetaAllegiance>, y: Seq<MetaAllegiance>, table: Seq<AllegianceCode>, k: int)
    requires
        x.len() == y.len(),
        forall|i: int| 0 <= i < x.len() ==> (#[trigger] x[i]).code@ == y[i].code@ && x[i].name@ == y[i].name@ && x[i].base == y[i].base,
    ensures
        resolved_upto(codes, x, table, k) == resolved_upto(codes, y, table, k),
    decreases k,
{
    if k > 0 {
        lemma_resolved_same(codes, x, y, table, k - 1);
        lemma_last_local_same(x, y, codes[k - 1]);
    }
}

fn join_tags(own: &str, mt: &str) -> (r: String)
    ensures
        r@ == joined_tags(own@, Some(mt@)),
{
    if !own.is_empty() && !mt.is_empty() {
        let mut v: Vec<char> = Vec::new();
        crate::text::push_str_chars(&mut v, own);
        crate::text::push_str_chars(&mut v, " ");
        crate::text::push_str_chars(&mut v, mt);
        assert(v@ =~= own@ + " "@ + mt@);
        string_from_chars(&v)
    } else if !own.is_empty() {
        own.to_string()
    } else {
        mt.to_string()
    }
}

/// Assemble a sector's metadata from its own document `own` and the inline
/// block of the milieu's region list, with the identity and provenance the
/// caller has (see [`assembled`]).
pub fn merge_metadata(own: SectorMetadata, inline: SectorMetadata, entry: &SectorIndexEntry, milieu: &str,
    milieu_tag: Option<&str>, df: &DataFileMeta, worlds: &Vec<World>, table: &Vec<AllegianceCode>) -> (r: SectorMetadata)
    ensures
        assembled(r, own, inline, *entry, milieu@, crate::text::opt_str_view(milieu_tag), *df, worlds@, table@),
{
    let local = concat_allegiances(&own.local_allegiances, &inline.local_allegiances);
    let ghost own0 = own;
    let ghost inline0 = inline;
    let mut m = own;
    let inline = inline;
    if m.subsectors.len() == 0 { m.subsectors = inline.subsectors; }
    if m.borders.len() == 0 { m.borders = inline.borders; }
    if m.regions.len() == 0 { m.regions = inline.regions; }
    if m.routes.len() == 0 { m.routes = inline.routes; }
    if m.products.len() == 0 { m.products = inline.products; }
    if m.labels.len() == 0 { m.labels = inline.labels; }
    if m.stylesheet.is_none() { m.stylesheet = inline.stylesheet; }
    if m.label.is_none() { m.label = inline.label; }
    m.selected = m.selected || inline.selected;
    m.x = entry.location.x;
    m.y = entry.location.y;
    if entry.names.len() > 0 {
        m.names = copy_names(&entry.names);
    }
    let own_tags = entry.tags.as_str();
    let mt: &str = match milieu_tag {
        Some(t) => t,
        None => "",
    };
    proof {
        if milieu_tag is None {
            reveal_strlit("");
        }
    }
    m.tags = join_tags(own_tags, mt);
    assert(joined_tags(entry.tags@, Some(mt@)) == joined_tags(entry.tags@, crate::text::opt_str_view(milieu_tag)));
    m.abbreviation = copy_opt(&entry.abbreviation);
    m.data_file = crate::metadata::MetaDataFile {
        title: copy_opt(&df.title),
        author: copy_opt(&df.author),
        source: copy_opt(&df.source),
        publisher: copy_opt(&df.publisher),
        copyright: copy_opt(&df.copyright),
        milieu: Some(milieu.to_string()),
        reference: copy_opt(&df.reference),
    };
    m.allegiances = metadata_allegiances(worlds, &m.borders, &m.regions, &local, table);
    proof {
        let codes = used_codes(worlds@, m.borders@, m.regions@);
        lemma_resolved_same(codes, local@, own0.local_allegiances@ + inline0.local_allegiances@, table@, codes.len() as int);
    }
    m
}

} // verus!
