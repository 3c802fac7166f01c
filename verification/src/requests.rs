//! Request options and small text helpers of the data endpoints.
use vstd::prelude::*;

use crate::dto::{Subsector, World, SectorIndexEntry};
use crate::endpoints::{located, locate_sector, LookupError};
use crate::like::{ascii_lower, ascii_upper};
use crate::text::{chars_of, string_from_chars, str_eq, trim, trim_chars, ws_tokens, split_ws, text_lines, lines_of,
    split_on, split_chars, lemma_split_on_len, strip_lead, opt_str_view};
use crate::world_util::find_from;
use crate::parse::opt_string_view;
use crate::astrometrics::{Coord, spec_reference_hex_distance, reference_hex_distance, spec_subsector_index,
    spec_quadrant_index, subsector_index, quadrant_index, spec_parse_hex, parse_hex, spec_location_to_coordinates,
    location_to_coordinates, spec_coordinates_to_location, coordinates_to_location};
use crate::text::push_str_chars;

verus! {

/// The default jump distance of a route request.
pub fn default_jump() -> (j: i32)
    ensures
        j == 2,
{
    2
}

/// The default jump range of a jump-worlds request.
pub fn default_jumpworlds_jump() -> (j: i32)
    ensures
        j == 6,
{
    6
}

/// The default level of detail of a sector request.
pub fn default_lod() -> (s: String)
    ensures
        s@ == "full"@,
{
    "full".to_owned()
}

/// The default tile size, in pixels.
pub fn default_dim() -> (d: u32)
    ensures
        d == 256,
{
    256
}

/// A boolean option: `1`/`true`/`True` and `0`/`false`/`False`; anything else
/// (or nothing) means the default.
pub open spec fn bool_option(v: Option<Seq<char>>, default: bool) -> bool {
    match v {
        Some(s) => if s == "1"@ || s == "true"@ || s == "True"@ {
            true
        } else if s == "0"@ || s == "false"@ || s == "False"@ {
            false
        } else {
            default
        },
        None => default,
    }
}

pub fn bool_opt(v: &Option<String>, default: bool) -> (b: bool)
    ensures
        b == bool_option(opt_string_view(*v), default),
{
    match v {
        Some(s) => {
            let t = s.as_str();
            if str_eq(t, "1") || str_eq(t, "true") || str_eq(t, "True") {
                true
            } else if str_eq(t, "0") || str_eq(t, "false") || str_eq(t, "False") {
                false
            } else {
                default
            }
        },
        None => default,
    }
}

pub open spec fn lower_all(s: Seq<char>) -> Seq<char> {
    s.map_values(|c: char| ascii_lower(c))
}

fn lower_chars(s: &str) -> (r: String)
    ensures
        r@ == lower_all(s@),
{
    let cs = chars_of(s);
    let mut v: Vec<char> = Vec::new();
    let mut i: usize = 0;
    while i < cs.len()
        invariant
            i <= cs@.len(),
            v@ == lower_all(cs@.subrange(0, i as int)),
        decreases cs@.len() - i,
    {
        v.push(crate::like::lower_ascii(cs[i]));
        i += 1;
        assert(v@ =~= lower_all(cs@.subrange(0, i as int)));
    }
    assert(cs@.subrange(0, cs@.len() as int) =~= cs@);
    string_from_chars(&v)
}

/// The quadrant named `alpha`, `beta`, `gamma` or `delta` (any ASCII case).
pub open spec fn quadrant_of(label: Seq<char>) -> Option<int> {
    let l = lower_all(label);
    if l == "alpha"@ {
        Some(0)
    } else if l == "beta"@ {
        Some(1)
    } else if l == "gamma"@ {
        Some(2)
    } else if l == "delta"@ {
        Some(3)
    } else {
        None
    }
}

pub fn quadrant_index_for(label: &str) -> (r: Option<usize>)
    ensures
        match r {
            Some(i) => quadrant_of(label@) == Some(i as int),
            None => quadrant_of(label@) is None,
        },
{
    let l = lower_chars(label);
    let t = l.as_str();
    if str_eq(t, "alpha") {
        Some(0)
    } else if str_eq(t, "beta") {
        Some(1)
    } else if str_eq(t, "gamma") {
        Some(2)
    } else if str_eq(t, "delta") {
        Some(3)
    } else {
        None
    }
}

/// Equal ignoring ASCII case.
pub open spec fn eq_ignore_case(a: Seq<char>, b: Seq<char>) -> bool {
    lower_all(a) == lower_all(b)
}

pub(crate) fn eq_ignore_ascii_case(a: &str, b: &str) -> (r: bool)
    ensures
        r == eq_ignore_case(a@, b@),
{
    let x = lower_chars(a);
    let y = lower_chars(b);
    str_eq(x.as_str(), y.as_str())
}

/// The first subsector with a name equal to `label` (ignoring ASCII case).
pub open spec fn named_subsector(label: Seq<char>, subs: Seq<(Seq<char>, Seq<char>)>) -> Option<int>
    decreases subs.len(),
{
    if subs.len() == 0 {
        None
    } else {
        match named_subsector(label, subs.drop_last()) {
            Some(i) => Some(i),
            None => if subs.last().1.len() > 0 && eq_ignore_case(subs.last().1, label) {
                Some(subs.len() - 1)
            } else {
                None
            },
        }
    }
}

pub open spec fn sub_view(s: Seq<Subsector>) -> Seq<(Seq<char>, Seq<char>)> {
    s.map_values(|x: Subsector| (x.index@, x.name@))
}

/// The index `0..16` a letter's byte stands for, counted from `A`.
pub open spec fn letter_index(c: char) -> int {
    (ascii_upper(c) as int) % 256 - 'A' as int
}

/// A subsector letter `A`–`P` (any case) reads directly; otherwise the first
/// subsector named `label` gives its letter. `None` when neither applies.
pub open spec fn subsector_for(label: Seq<char>, subs: Seq<(Seq<char>, Seq<char>)>) -> Option<int> {
    if label.len() == 1 && 'A' <= ascii_upper(label[0]) && ascii_upper(label[0]) <= 'P' {
        Some(ascii_upper(label[0]) as int - 'A' as int)
    } else {
        match named_subsector(label, subs) {
            Some(i) => if subs[i].0.len() > 0 { Some(letter_index(subs[i].0[0])) } else { None },
            None => None,
        }
    }
}

/// The named subsector's letter counts from `A` (the index letters of real
/// data always do).
pub open spec fn subsector_letters_ok(label: Seq<char>, subs: Seq<(Seq<char>, Seq<char>)>) -> bool {
    match named_subsector(label, subs) {
        Some(i) => subs[i].0.len() > 0 ==> letter_index(subs[i].0[0]) >= 0,
        None => true,
    }
}

/// The subsector index `0..16` for a letter `A`–`P` or a subsector name.
pub fn subsector_index_for(label: &str, subsectors: &Vec<Subsector>) -> (r: Option<usize>)
    requires
        subsector_letters_ok(label@, sub_view(subsectors@)),
    ensures
        match r {
            Some(i) => subsector_for(label@, sub_view(subsectors@)) == Some(i as int),
            None => subsector_for(label@, sub_view(subsectors@)) is None,
        },
{
    let cs = chars_of(label);
    if cs.len() == 1 {
        let c = crate::like::upper_ascii(cs[0]);
        if 'A' <= c && c <= 'P' {
            return Some((c as u32 - 'A' as u32) as usize);
        }
    }
    assert(!(label@.len() == 1 && 'A' <= ascii_upper(label@[0]) && ascii_upper(label@[0]) <= 'P'));
    let ghost sv = sub_view(subsectors@);
    let mut i: usize = 0;
    while i < subsectors.len()
        invariant
            i <= subsectors@.len(),
            sv == sub_view(subsectors@),
            named_subsector(label@, sv.subrange(0, i as int)) is None,
            subsector_letters_ok(label@, sv),
            !(label@.len() == 1 && 'A' <= ascii_upper(label@[0]) && ascii_upper(label@[0]) <= 'P'),
        decreases subsectors@.len() - i,
    {
        let s = &subsectors[i];
        assert(sv.subrange(0, i + 1).drop_last() =~= sv.subrange(0, i as int));
        assert(sv.subrange(0, i + 1).last() == (s.index@, s.name@));
        if !s.name.as_str().is_empty() && eq_ignore_ascii_case(s.name.as_str(), label) {
            proof {
                assert(named_subsector(label@, sv.subrange(0, i + 1)) == Some(i as int));
                lemma_named_prefix(label@, sv, i as int + 1);
            }
            let ic = chars_of(s.index.as_str());
            if ic.len() == 0 {
                return None;
            }
            let u = crate::like::upper_ascii(ic[0]);
            let b: u32 = (u as u32) % 256;
            assert(b as int == (ascii_upper(sv[i as int].0[0]) as int) % 256);
            return Some((b - 65) as usize);
        }
        i += 1;
    }
    proof { lemma_named_prefix(label@, sv, sv.len() as int); }
    assert(sv.subrange(0, sv.len() as int) =~= sv);
    None
}

proof fn lemma_named_prefix(label: Seq<char>, subs: Seq<(Seq<char>, Seq<char>)>, n: int)
    requires
        0 <= n <= subs.len(),
        named_subsector(label, subs.subrange(0, n)) is Some || n == subs.len(),
    ensures
        named_subsector(label, subs.subrange(0, n)) is Some ==> named_subsector(label, subs) == named_subsector(label, subs.subrange(0, n)),
    decreases subs.len() - n,
{
    if n < subs.len() && named_subsector(label, subs.subrange(0, n)) is Some {
        assert(subs.subrange(0, n + 1).drop_last() =~= subs.subrange(0, n));
        lemma_named_prefix(label, subs, n + 1);
    }
    if n == subs.len() {
        assert(subs.subrange(0, n) =~= subs);
    }
}

/// A four-digit hex (a single world rather than a region).
pub fn is_hex_tail(tail: &str) -> (b: bool)
    ensures
        b == crate::system_gen::hex_pair_of(tail@) is Some,
{
    crate::system_gen::parse_hex_pair(tail).is_some()
}

/// `s` without its tags: every `<` opens a tag and every `>` closes one.
pub open spec fn untagged(s: Seq<char>, in_tag: bool) -> Seq<char>
    decreases s.len(),
{
    if s.len() == 0 {
        Seq::empty()
    } else if s[0] == '<' {
        untagged(s.drop_first(), true)
    } else if s[0] == '>' {
        untagged(s.drop_first(), false)
    } else if in_tag {
        untagged(s.drop_first(), true)
    } else {
        seq![s[0]] + untagged(s.drop_first(), false)
    }
}

/// Tags stripped, whitespace runs collapsed to single spaces, trimmed.
pub fn strip_html_collapse(s: &str) -> (r: String)
    ensures
        r@ == crate::search_index::join_spaces(ws_tokens(untagged(s@, false))),
{
    let cs = chars_of(s);
    let mut v: Vec<char> = Vec::new();
    let mut in_tag = false;
    let mut i: usize = 0;
    assert(cs@.subrange(0, cs@.len() as int) =~= cs@);
    while i < cs.len()
        invariant
            i <= cs@.len(),
            cs@ == s@,
            untagged(s@, false) == v@ + untagged(cs@.subrange(i as int, cs@.len() as int), in_tag),
        decreases cs@.len() - i,
    {
        let ghost rest = cs@.subrange(i as int, cs@.len() as int);
        assert(rest.drop_first() =~= cs@.subrange(i + 1, cs@.len() as int));
        let c = cs[i];
        if c == '<' {
            in_tag = true;
        } else if c == '>' {
            in_tag = false;
        } else if !in_tag {
            v.push(c);
            assert(v@ + untagged(rest.drop_first(), false) =~= v@.drop_last() + (seq![c] + untagged(rest.drop_first(), false)));
        }
        i += 1;
    }
    assert(v@ + untagged(cs@.subrange(i as int, cs@.len() as int), in_tag) =~= v@);
    let t = string_from_chars(&v);
    crate::search_index::sanify_label(t.as_str())
}

/// How many tabs `s` holds.
pub open spec fn tab_count(s: Seq<char>) -> int
    decreases s.len(),
{
    if s.len() == 0 { 0 } else { tab_count(s.drop_last()) + if s.last() == '\t' { 1int } else { 0int } }
}

/// What follows the first `open … close` group of `s`.
pub open spec fn after_group(s: Seq<char>, open: char, close: char) -> Option<Seq<char>> {
    match find_from(s, open, 0) {
        Some(o) => match find_from(s, close, o + 1) {
            Some(c) => Some(s.subrange(c + 1, s.len() as int)),
            None => None,
        },
        None => None,
    }
}

/// `s` without its leading spaces, when there was at least one.
pub open spec fn after_spaces(s: Seq<char>) -> Option<Seq<char>> {
    let t = strip_lead(s, ' ');
    if t.len() < s.len() { Some(t) } else { None }
}

/// A `{…}` group, spaces, a `(…)` group, spaces, then a `[…]` group: the
/// Second Survey extensions in order.
pub open spec fn t5_extensions(line: Seq<char>) -> bool {
    match after_group(line, '{', '}') {
        Some(a) => match after_spaces(a) {
            Some(b) => match after_group(b, '(', ')') {
                Some(c) => match after_spaces(c) {
                    Some(d) => after_group(d, '[', ']') is Some,
                    None => false,
                },
                None => false,
            },
            None => false,
        },
        None => false,
    }
}

fn find_char_in(s: &Vec<char>, c: char, j: usize) -> (r: Option<usize>)
    requires
        j <= s@.len(),
    ensures
        match r {
            Some(k) => find_from(s@, c, j as int) == Some(k as int) && j <= k < s@.len(),
            None => find_from(s@, c, j as int) is None,
        },
{
    let mut k = j;
    while k < s.len()
        invariant
            j <= k <= s@.len(),
            find_from(s@, c, j as int) == find_from(s@, c, k as int),
        decreases s@.len() - k,
    {
        if s[k] == c {
            return Some(k);
        }
        k += 1;
    }
    None
}

fn after_group_exec(s: &Vec<char>, open: char, close: char) -> (r: Option<Vec<char>>)
    ensures
        match r {
            Some(v) => after_group(s@, open, close) == Some(v@),
            None => after_group(s@, open, close) is None,
        },
{
    let _n = s.len();
    match find_char_in(s, open, 0) {
        Some(o) => match find_char_in(s, close, o + 1) {
            Some(c) => Some(crate::text::slice_to_vec(s, c + 1, s.len())),
            None => None,
        },
        None => None,
    }
}

fn after_spaces_exec(s: &Vec<char>) -> (r: Option<Vec<char>>)
    ensures
        match r {
            Some(v) => after_spaces(s@) == Some(v@),
            None => after_spaces(s@) is None,
        },
{
    let t = crate::text::strip_lead_chars(s, ' ');
    if t.len() < s.len() { Some(t) } else { None }
}

/// Does the line carry the `{Ix} (Ex) [Cx]` extensions?
pub fn has_t5_extensions(line: &str) -> (b: bool)
    ensures
        b == t5_extensions(line@),
{
    let cs = chars_of(line);
    match after_group_exec(&cs, '{', '}') {
        Some(a) => match after_spaces_exec(&a) {
            Some(b) => match after_group_exec(&b, '(', ')') {
                Some(c) => match after_spaces_exec(&c) {
                    Some(d) => after_group_exec(&d, '[', ']').is_some(),
                    None => false,
                },
                None => false,
            },
            None => false,
        },
        None => false,
    }
}

/// The format of a world-data file from the first line (not blank, not a
/// `#`, `$` or `@` comment) that decides it: nine or more tabs mean
/// tab-delimited, the extension triple means Second Survey; otherwise SEC.
pub open spec fn sniffed(lines: Seq<Seq<char>>) -> Seq<char>
    decreases lines.len(),
{
    if lines.len() == 0 {
        "SEC"@
    } else {
        let l = lines[0];
        if l.len() == 0 || l[0] == '#' || l[0] == '$' || l[0] == '@' {
            sniffed(lines.drop_first())
        } else if tab_count(l) >= 9 {
            "TabDelimited"@
        } else if t5_extensions(l) {
            "SecondSurvey"@
        } else {
            sniffed(lines.drop_first())
        }
    }
}

fn tab_count_exec(s: &Vec<char>) -> (n: usize)
    ensures
        n as int == tab_count(s@),
{
    let mut n: usize = 0;
    let mut i: usize = 0;
    while i < s.len()
        invariant
            i <= s@.len(),
            n <= i,
            n as int == tab_count(s@.subrange(0, i as int)),
        decreases s@.len() - i,
    {
        assert(s@.subrange(0, i + 1).drop_last() =~= s@.subrange(0, i as int));
        if s[i] == '\t' {
            n += 1;
        }
        i += 1;
    }
    assert(s@.subrange(0, s@.len() as int) =~= s@);
    n
}

/// Detect a world-data file's format: `TabDelimited`, `SecondSurvey` or `SEC`.
pub fn sniff_world_format(text: &str) -> (r: &'static str)
    ensures
        r@ == sniffed(text_lines(text@)),
{
    let lines = lines_of(text);
    let ghost lv = lines@.map_values(|v: Vec<char>| v@);
    let mut i: usize = 0;
    assert(lv.subrange(0, lv.len() as int) =~= lv);
    while i < lines.len()
        invariant
            i <= lines@.len(),
            lv == lines@.map_values(|v: Vec<char>| v@),
            lv == text_lines(text@),
            sniffed(lv) == sniffed(lv.subrange(i as int, lv.len() as int)),
        decreases lines@.len() - i,
    {
        let l = &lines[i];
        let ghost rest = lv.subrange(i as int, lv.len() as int);
        assert(rest[0] == l@);
        assert(rest.drop_first() =~= lv.subrange(i + 1, lv.len() as int));
        if l.len() == 0 || l[0] == '#' || l[0] == '$' || l[0] == '@' {
            i += 1;
            continue;
        }
        if tab_count_exec(l) >= 9 {
            return "TabDelimited";
        }
        let ls = string_from_chars(l);
        if has_t5_extensions(ls.as_str()) {
            return "SecondSurvey";
        }
        i += 1;
    }
    assert(lv.subrange(i as int, lv.len() as int) =~= Seq::<Seq<char>>::empty());
    "SEC"
}

} // verus!

verus! {

/// The options of a sector-data request.
#[derive(Debug)]
pub struct SecQuery {
    pub milieu: String,
    /// The sector, by name or abbreviation.
    pub sector: Option<String>,
    pub sx: Option<i32>,
    pub sy: Option<i32>,
    /// Only this subsector (a letter or a name).
    pub subsector: Option<String>,
    /// Only this quadrant (`alpha`, `beta`, `gamma`, `delta`).
    pub quadrant: Option<String>,
    /// `SEC`, `TabDelimited` or `SecondSurvey`.
    pub type_: Option<String>,
    pub metadata: Option<String>,
    pub header: Option<String>,
    pub sscoords: Option<String>,
}

/// A whole-sector request of the given format, all else defaulted.
pub fn data_sec_query(sector: String, type_: &str) -> (q: SecQuery)
    ensures
        q.milieu@ == "M1105"@,
        q.sector matches Some(s) && s@ == sector@,
        q.type_ matches Some(t) && t@ == type_@,
        q.sx is None && q.sy is None && q.subsector is None && q.quadrant is None,
        q.metadata is None && q.header is None && q.sscoords is None,
{
    SecQuery {
        milieu: crate::compat::default_milieu(),
        sector: Some(sector),
        sx: None,
        sy: None,
        subsector: None,
        quadrant: None,
        type_: Some(type_.to_owned()),
        metadata: None,
        header: None,
        sscoords: None,
    }
}

/// A request for a quadrant (when `region` names one) or else a subsector of
/// the sector, without the metadata block.
pub fn region_sec_query(sector: String, region: &str, type_: &str) -> (q: SecQuery)
    ensures
        q.milieu@ == "M1105"@,
        q.sector matches Some(s) && s@ == sector@,
        q.type_ matches Some(t) && t@ == type_@,
        q.sx is None && q.sy is None && q.header is None && q.sscoords is None,
        q.metadata matches Some(m) && m@ == "0"@,
        quadrant_of(region@) is Some ==> (q.quadrant matches Some(r) && r@ == region@) && q.subsector is None,
        quadrant_of(region@) is None ==> (q.subsector matches Some(r) && r@ == region@) && q.quadrant is None,
{
    let mut q = data_sec_query(sector, type_);
    q.metadata = Some("0".to_owned());
    if quadrant_index_for(region).is_some() {
        q.quadrant = Some(region.to_owned());
    } else {
        q.subsector = Some(region.to_owned());
    }
    q
}

/// What reading posted world data gives: the worlds the sniffed format's
/// parser reads, or its error as `Bad data file: …`.
pub open spec fn world_text_read(text: Seq<char>, r: Result<Vec<World>, String>) -> bool {
    exists|o: Result<crate::parse::ParseOutcome, crate::parse::ParseError>| {
        &&& #[trigger] format_parsed(text, o)
        &&& match (o, r) {
            (Ok(out), Ok(ws)) => ws == out.worlds,
            (Err(e), Err(m)) => m@ == "Bad data file: "@ + e.message@,
            _ => false,
        }
    }
}

/// `o` is what the parser of the sniffed format gives for `text`.
pub open spec fn format_parsed(text: Seq<char>, o: Result<crate::parse::ParseOutcome, crate::parse::ParseError>) -> bool {
    let fmt = sniffed(text_lines(text));
    if fmt == "TabDelimited"@ {
        crate::parse::tab_parsed(text, o)
    } else if fmt == "SecondSurvey"@ {
        crate::parse::column_parsed(text, o)
    } else {
        crate::parse::sec_parsed(text, o)
    }
}

/// Read posted world data in whichever format it is in (see
/// [`sniff_world_format`]).
pub fn parse_world_text(text: &str) -> (r: Result<Vec<World>, String>)
    ensures
        world_text_read(text@, r),
{
    let fmt = sniff_world_format(text);
    let o = if str_eq(fmt, "TabDelimited") {
        crate::parse::parse_tab(text)
    } else if str_eq(fmt, "SecondSurvey") {
        crate::parse::parse_column(text)
    } else {
        crate::parse::parse_sec(text)
    };
    assert(format_parsed(text@, o));
    match o {
        Ok(out) => Ok(out.worlds),
        Err(e) => Err(crate::text::cat("Bad data file: ", e.message.as_str())),
    }
}

/// The format a data file is read as: the one its index entry declares,
/// else the one its content sniffs as.
pub open spec fn data_format_of(declared: Option<Seq<char>>, text: Seq<char>) -> Seq<char> {
    match declared {
        Some(f) => f,
        None => sniffed(text_lines(text)),
    }
}

/// `o` is what the parser of format `fmt` gives for `text`: legacy SEC,
/// Second Survey columns, or else tab-delimited.
pub open spec fn parsed_as(fmt: Seq<char>, text: Seq<char>, o: Result<crate::parse::ParseOutcome, crate::parse::ParseError>) -> bool {
    if fmt == "SEC"@ {
        crate::parse::sec_parsed(text, o)
    } else if fmt == "SecondSurvey"@ {
        crate::parse::column_parsed(text, o)
    } else {
        crate::parse::tab_parsed(text, o)
    }
}

/// What reading a sector's data file gives: its parser's outcome, or
/// nothing (no worlds, no notes) when the parser fails.
pub open spec fn data_file_read(text: Seq<char>, declared: Option<Seq<char>>, out: crate::parse::ParseOutcome) -> bool {
    exists|o: Result<crate::parse::ParseOutcome, crate::parse::ParseError>| {
        &&& #[trigger] parsed_as(data_format_of(declared, text), text, o)
        &&& match o {
            Ok(x) => out == x,
            Err(_) => out.worlds@.len() == 0 && out.warnings@.len() == 0,
        }
    }
}

/// Read a sector's data file `text` in its declared format (`None`: sniff
/// it); a file its parser rejects reads as no worlds.
pub fn parse_data_file(text: &str, declared: Option<&str>) -> (out: crate::parse::ParseOutcome)
    ensures
        data_file_read(text@, opt_str_view(declared), out),
{
    let fmt: &str = match declared {
        Some(f) => f,
        None => sniff_world_format(text),
    };
    let o = if str_eq(fmt, "SEC") {
        crate::parse::parse_sec(text)
    } else if str_eq(fmt, "SecondSurvey") {
        crate::parse::parse_column(text)
    } else {
        crate::parse::parse_tab(text)
    };
    assert(parsed_as(data_format_of(opt_str_view(declared), text@), text@, o));
    match o {
        Ok(x) => x,
        Err(_) => crate::parse::ParseOutcome { worlds: Vec::new(), warnings: Vec::new() },
    }
}

/// The world-table formats a sector-data request can ask for.
#[derive(Debug, Clone, Copy, PartialEq, Eq, Structural)]
pub enum SecFormat {
    /// The Second Survey columns (the default).
    SecondSurvey,
    /// Tab-separated columns.
    TabDelimited,
    /// The legacy fixed-column layout.
    Legacy,
}

/// Why a sector-data request is refused.
#[derive(Debug, Clone, PartialEq, Eq)]
pub enum SecError {
    /// The `type` names no known format.
    UnsupportedType(String),
    /// No subsector by that letter or name.
    SubsectorNotFound(String),
    /// Not one of `alpha`, `beta`, `gamma`, `delta`.
    QuadrantInvalid(String),
}

/// What a [`SecError`] says, over plain text.
pub enum SecFailure {
    UnsupportedType(Seq<char>),
    SubsectorNotFound(Seq<char>),
    QuadrantInvalid(Seq<char>),
}

impl View for SecError {
    type V = SecFailure;

    open spec fn view(&self) -> SecFailure {
        match self {
            SecError::UnsupportedType(t) => SecFailure::UnsupportedType(t@),
            SecError::SubsectorNotFound(t) => SecFailure::SubsectorNotFound(t@),
            SecError::QuadrantInvalid(t) => SecFailure::QuadrantInvalid(t@),
        }
    }
}

impl SecError {
    /// The HTTP status: not found for an unknown subsector, a bad request
    /// otherwise.
    pub fn status(&self) -> (s: u16)
        ensures
            s == (match *self {
                SecError::SubsectorNotFound(_) => 404u16,
                _ => 400u16,
            }),
    {
        match self {
            SecError::SubsectorNotFound(_) => 404,
            _ => 400,
        }
    }

    /// The response text.
    pub fn message(&self) -> (s: String)
        ensures
            s@ == (match self@ {
                SecFailure::UnsupportedType(t) => "type '"@ + t
                    + "' not supported; use type=SEC, type=TabDelimited or type=SecondSurvey"@,
                SecFailure::SubsectorNotFound(t) => "subsector '"@ + t + "' not found"@,
                SecFailure::QuadrantInvalid(t) => "quadrant '"@ + t + "' is invalid"@,
            }),
    {
        let mut v: Vec<char> = Vec::new();
        match self {
            SecError::UnsupportedType(t) => {
                push_str_chars(&mut v, "type '");
                push_str_chars(&mut v, t.as_str());
                push_str_chars(&mut v, "' not supported; use type=SEC, type=TabDelimited or type=SecondSurvey");
            },
            SecError::SubsectorNotFound(t) => {
                push_str_chars(&mut v, "subsector '");
                push_str_chars(&mut v, t.as_str());
                push_str_chars(&mut v, "' not found");
            },
            SecError::QuadrantInvalid(t) => {
                push_str_chars(&mut v, "quadrant '");
                push_str_chars(&mut v, t.as_str());
                push_str_chars(&mut v, "' is invalid");
            },
        }
        string_from_chars(&v)
    }
}

/// The format a `type` parameter asks for: Second Survey when absent.
pub open spec fn format_of(t: Option<Seq<char>>) -> Result<SecFormat, SecFailure> {
    match t {
        None => Ok(SecFormat::SecondSurvey),
        Some(s) => if s == "TabDelimited"@ {
            Ok(SecFormat::TabDelimited)
        } else if s == "SecondSurvey"@ {
            Ok(SecFormat::SecondSurvey)
        } else if s == "SEC"@ {
            Ok(SecFormat::Legacy)
        } else {
            Err(SecFailure::UnsupportedType(s))
        },
    }
}

/// The format a sector-data request asks for, or why it is refused.
pub fn sec_format(type_: &Option<String>) -> (r: Result<SecFormat, SecError>)
    ensures
        match r {
            Ok(f) => format_of(opt_string_view(*type_)) == Ok::<SecFormat, SecFailure>(f),
            Err(e) => format_of(opt_string_view(*type_)) == Err::<SecFormat, SecFailure>(e@),
        },
{
    match type_ {
        None => Ok(SecFormat::SecondSurvey),
        Some(t) => {
            if str_eq(t.as_str(), "TabDelimited") {
                Ok(SecFormat::TabDelimited)
            } else if str_eq(t.as_str(), "SecondSurvey") {
                Ok(SecFormat::SecondSurvey)
            } else if str_eq(t.as_str(), "SEC") {
                Ok(SecFormat::Legacy)
            } else {
                Err(SecError::UnsupportedType(string_from_chars(&chars_of(t.as_str()))))
            }
        },
    }
}

/// The subsector (or, when `quadrant`, the quadrant) a world's hex lies in.
pub open spec fn region_of(w: World, quadrant: bool) -> int {
    if quadrant { spec_quadrant_index(w.hex@) } else { spec_subsector_index(w.hex@) }
}

/// The worlds of `ws` in region `k`, in order.
pub open spec fn in_region(ws: Seq<World>, k: int, quadrant: bool) -> Seq<World>
    decreases ws.len(),
{
    if ws.len() == 0 {
        Seq::empty()
    } else {
        let rest = in_region(ws.drop_last(), k, quadrant);
        if region_of(ws.last(), quadrant) == k { rest.push(ws.last()) } else { rest }
    }
}

/// The worlds a request selects: those of the subsector it names (by letter
/// or name), else of the quadrant it names, else all of them.
pub open spec fn selected_worlds(ws: Seq<World>, subsector: Option<Seq<char>>, quadrant: Option<Seq<char>>,
    subs: Seq<(Seq<char>, Seq<char>)>) -> Result<Seq<World>, SecFailure>
{
    match subsector {
        Some(sub) => match subsector_for(sub, subs) {
            Some(k) => Ok(in_region(ws, k, false)),
            None => Err(SecFailure::SubsectorNotFound(sub)),
        },
        None => match quadrant {
            Some(qd) => match quadrant_of(qd) {
                Some(k) => Ok(in_region(ws, k, true)),
                None => Err(SecFailure::QuadrantInvalid(qd)),
            },
            None => Ok(ws),
        },
    }
}

fn copy_world(w: &World) -> (r: World)
    ensures
        r == *w,
{
    World {
        hex: w.hex.clone(),
        name: w.name.clone(),
        uwp: w.uwp.clone(),
        bases: w.bases.clone(),
        remarks: w.remarks.clone(),
        zone: w.zone.clone(),
        pbg: w.pbg.clone(),
        allegiance: w.allegiance.clone(),
        stellar: w.stellar.clone(),
        importance: crate::endpoints::copy_opt(&w.importance),
        economic: crate::endpoints::copy_opt(&w.economic),
        cultural: crate::endpoints::copy_opt(&w.cultural),
        nobility: crate::endpoints::copy_opt(&w.nobility),
        worlds: w.worlds,
        resource_units: w.resource_units,
    }
}

fn worlds_in_region(worlds: &Vec<World>, k: usize, quadrant: bool) -> (r: Vec<World>)
    ensures
        r@ == in_region(worlds@, k as int, quadrant),
{
    let mut out: Vec<World> = Vec::new();
    let mut i: usize = 0;
    while i < worlds.len()
        invariant
            i <= worlds@.len(),
            out@ == in_region(worlds@.take(i as int), k as int, quadrant),
        decreases worlds@.len() - i,
    {
        let w = &worlds[i];
        assert(worlds@.take(i + 1).drop_last() =~= worlds@.take(i as int));
        let idx = if quadrant { quadrant_index(w.hex.as_str()) } else { subsector_index(w.hex.as_str()) };
        if idx == k {
            out.push(copy_world(w));
        }
        i += 1;
    }
    assert(worlds@.take(worlds@.len() as int) =~= worlds@);
    out
}

fn copy_worlds(worlds: &Vec<World>) -> (r: Vec<World>)
    ensures
        r@ == worlds@,
{
    let mut out: Vec<World> = Vec::new();
    let mut i: usize = 0;
    while i < worlds.len()
        invariant
            i <= worlds@.len(),
            out@ == worlds@.take(i as int),
        decreases worlds@.len() - i,
    {
        out.push(copy_world(&worlds[i]));
        assert(out@ =~= worlds@.take(i + 1));
        i += 1;
    }
    assert(worlds@.take(worlds@.len() as int) =~= worlds@);
    out
}

/// The worlds a sector-data request selects, in order: those of the named
/// subsector (a letter `A`–`P` or a name from `subsectors`), else those of
/// the named quadrant, else all.
pub fn select_worlds(worlds: &Vec<World>, subsector: &Option<String>, quadrant: &Option<String>,
    subsectors: &Vec<Subsector>) -> (r: Result<Vec<World>, SecError>)
    requires
        subsector matches Some(sub) ==> subsector_letters_ok(sub@, sub_view(subsectors@)),
    ensures
        match r {
            Ok(v) => selected_worlds(worlds@, opt_string_view(*subsector), opt_string_view(*quadrant), sub_view(subsectors@))
                == Ok::<Seq<World>, SecFailure>(v@),
            Err(e) => selected_worlds(worlds@, opt_string_view(*subsector), opt_string_view(*quadrant), sub_view(subsectors@))
                == Err::<Seq<World>, SecFailure>(e@),
        },
{
    match subsector {
        Some(sub) => match subsector_index_for(sub.as_str(), subsectors) {
            Some(k) => Ok(worlds_in_region(worlds, k, false)),
            None => Err(SecError::SubsectorNotFound(string_from_chars(&chars_of(sub.as_str())))),
        },
        None => match quadrant {
            Some(qd) => match quadrant_index_for(qd.as_str()) {
                Some(k) => Ok(worlds_in_region(worlds, k, true)),
                None => Err(SecError::QuadrantInvalid(string_from_chars(&chars_of(qd.as_str())))),
            },
            None => Ok(copy_worlds(worlds)),
        },
    }
}

/// Calls `std::path::Path::new(s).components().count()`. How a path splits
/// into components depends on the platform, so nothing is stated of the count.
#[verifier::external_body]
fn path_component_count(s: &str) -> usize {
    std::path::Path::new(s).components().count()
}

pub open spec fn plain_segment(s: Seq<char>) -> bool {
    s.len() > 0 && s != ".."@ && !s.contains('/') && !s.contains('\\')
}

/// Not empty, not `..`, and without a `/` or `\\`.
fn is_plain_segment(s: &str) -> (b: bool)
    ensures
        b == plain_segment(s@),
{
    let cs = chars_of(s);
    !s.is_empty() && !str_eq(s, "..") && !crate::searchlang::contains_char(&cs, '/')
        && !crate::searchlang::contains_char(&cs, '\\')
}

/// The verdict on a path segment given the number of path components the
/// platform splits it into: harmless when it is plain and one component.
pub fn segment_verdict(s: &str, components: usize) -> (b: bool)
    ensures
        b == (plain_segment(s@) && components == 1),
{
    is_plain_segment(s) && components == 1
}

/// A single harmless path segment: not empty, not `..`, no separators, and
/// one path component. The number of components is the platform's
/// (`Path::components`), so what is promised beyond a plain segment is only
/// that a segment that is not plain is refused; `segment_verdict` states the
/// verdict for each component count.
pub fn is_safe_segment(s: &str) -> (b: bool)
    ensures
        b ==> plain_segment(s@),
{
    if !is_plain_segment(s) {
        return false;
    }
    segment_verdict(s, path_component_count(s))
}

/// The lines after a header line.
pub open spec fn after_header(lines: Seq<Seq<char>>) -> Seq<Seq<char>> {
    if lines.len() > 0 { lines.drop_first() } else { Seq::empty() }
}

/// The first path segment (before any `/`).
pub open spec fn first_segment(path: Seq<char>) -> Seq<char> {
    split_on(path, '/')[0]
}

/// The tag of the first milieu line (`path <tab> tag ...`) whose path starts
/// with the milieu's directory and whose tag is not blank.
pub open spec fn milieu_tag_of(lines: Seq<Seq<char>>, milieu: Seq<char>) -> Option<Seq<char>>
    decreases lines.len(),
{
    if lines.len() == 0 {
        None
    } else {
        let f = split_on(lines[0], '\t');
        if f.len() >= 2 && first_segment(f[0]) == milieu && trim(f[1]).len() > 0 {
            Some(trim(f[1]))
        } else {
            milieu_tag_of(lines.drop_first(), milieu)
        }
    }
}

/// The tag the milieu list (`milieu.tab` text) gives a milieu, e.g. `OTU`.
pub fn milieu_tag(milieu_tab: &str, milieu: &str) -> (r: Option<String>)
    ensures
        opt_string_view(r) == milieu_tag_of(after_header(text_lines(milieu_tab@)), milieu@),
{
    let lines = lines_of(milieu_tab);
    let ghost lv = lines@.map_values(|v: Vec<char>| v@);
    let ghost body = after_header(lv);
    if lines.len() == 0 {
        return None;
    }
    let mut i: usize = 1;
    assert(lv.subrange(1, lv.len() as int) =~= body);
    while i < lines.len()
        invariant
            1 <= i <= lines@.len(),
            lv == lines@.map_values(|v: Vec<char>| v@),
            lv == text_lines(milieu_tab@),
            body == after_header(lv),
            milieu_tag_of(body, milieu@) == milieu_tag_of(lv.subrange(i as int, lv.len() as int), milieu@),
        decreases lines@.len() - i,
    {
        let ghost rest = lv.subrange(i as int, lv.len() as int);
        assert(rest[0] == lines@[i as int]@);
        assert(rest.drop_first() =~= lv.subrange(i + 1, lv.len() as int));
        let f = split_chars(&lines[i], '\t');
        proof { lemma_split_on_len(lines@[i as int]@, '\t'); }
        if f.len() >= 2 {
            let segs = split_chars(&f[0], '/');
            proof { lemma_split_on_len(f@[0]@, '/'); }
            let seg = string_from_chars(&segs[0]);
            let tag = trim_chars(&f[1]);
            if str_eq(seg.as_str(), milieu) && tag.len() > 0 {
                return Some(string_from_chars(&tag));
            }
        }
        i += 1;
    }
    None
}

/// The `(path, tags)` of each milieu line with a path (tags may be empty).
pub open spec fn metafiles_of(lines: Seq<Seq<char>>) -> Seq<(Seq<char>, Seq<char>)>
    decreases lines.len(),
{
    if lines.len() == 0 {
        Seq::empty()
    } else {
        let l = lines.last();
        let f = split_on(l, '\t');
        metafiles_of(lines.drop_last()) + if trim(f[0]).len() > 0 {
            seq![(trim(f[0]), if f.len() >= 2 { trim(f[1]) } else { Seq::empty() })]
        } else {
            Seq::empty()
        }
    }
}

/// The `(metafile path, tags)` entries of the milieu list (`milieu.tab` text).
pub fn milieu_metafiles(milieu_tab: &str) -> (r: Vec<(String, String)>)
    ensures
        r@.map_values(|e: (String, String)| (e.0@, e.1@)) == metafiles_of(after_header(text_lines(milieu_tab@))),
{
    let lines = lines_of(milieu_tab);
    let ghost lv = lines@.map_values(|v: Vec<char>| v@);
    let mut out: Vec<(String, String)> = Vec::new();
    if lines.len() == 0 {
        assert(out@.map_values(|e: (String, String)| (e.0@, e.1@)) =~= Seq::<(Seq<char>, Seq<char>)>::empty());
        return out;
    }
    let mut i: usize = 1;
    assert(lv.subrange(1, 1) =~= Seq::<Seq<char>>::empty());
    while i < lines.len()
        invariant
            1 <= i <= lines@.len(),
            lv == lines@.map_values(|v: Vec<char>| v@),
            out@.map_values(|e: (String, String)| (e.0@, e.1@)) == metafiles_of(lv.subrange(1, i as int)),
        decreases lines@.len() - i,
    {
        let ghost before = out@.map_values(|e: (String, String)| (e.0@, e.1@));
        assert(lv.subrange(1, i + 1).drop_last() =~= lv.subrange(1, i as int));
        assert(lv.subrange(1, i + 1).last() == lines@[i as int]@);
        let f = split_chars(&lines[i], '\t');
        proof { lemma_split_on_len(lines@[i as int]@, '\t'); }
        let path = trim_chars(&f[0]);
        if path.len() > 0 {
            let tags: Vec<char> = if f.len() >= 2 { trim_chars(&f[1]) } else { Vec::new() };
            out.push((string_from_chars(&path), string_from_chars(&tags)));
            assert(out@.map_values(|e: (String, String)| (e.0@, e.1@)) =~= before.push((path@, tags@)));
        } else {
            assert(before + Seq::<(Seq<char>, Seq<char>)>::empty() =~= before);
        }
        i += 1;
    }
    assert(lv.subrange(1, lv.len() as int) =~= after_header(lv));
    out
}

} // verus!

verus! {

// ── Jump worlds ─────────────────────────────────────────────────────────────

/// The first world placed at `(x, y)`, if any.
pub open spec fn first_at(placed: Seq<(i32, i32)>, x: int, y: int, k: int) -> Option<int>
    decreases k,
{
    if k <= 0 {
        None
    } else {
        match first_at(placed, x, y, k - 1) {
            Some(i) => Some(i),
            None => if placed[k - 1].0 as int == x && placed[k - 1].1 as int == y { Some(k - 1) } else { None },
        }
    }
}

/// The world reported for the hex `(x, y)`: the first placed there, when the
/// hex is within `jump` of `center`.
pub open spec fn jump_cell(center: Coord, jump: int, placed: Seq<(i32, i32)>, x: int, y: int) -> Seq<int> {
    if spec_reference_hex_distance(center, Coord { x: x as i32, y: y as i32 }) <= jump {
        match first_at(placed, x, y, placed.len() as int) {
            Some(i) => seq![i],
            None => Seq::empty(),
        }
    } else {
        Seq::empty()
    }
}

/// The cells `x0 .. x` of row `y`, left to right.
pub open spec fn jump_row(center: Coord, jump: int, placed: Seq<(i32, i32)>, y: int, x0: int, x: int) -> Seq<int>
    decreases x - x0,
{
    if x <= x0 { Seq::empty() } else { jump_row(center, jump, placed, y, x0, x - 1) + jump_cell(center, jump, placed, x - 1, y) }
}

/// Rows `y0 .. y`, top to bottom, each over columns `x0 ..= x1`.
pub open spec fn jump_rows(center: Coord, jump: int, placed: Seq<(i32, i32)>, y0: int, y: int, x0: int, x1: int) -> Seq<int>
    decreases y - y0,
{
    if y <= y0 {
        Seq::empty()
    } else {
        jump_rows(center, jump, placed, y0, y - 1, x0, x1) + jump_row(center, jump, placed, y - 1, x0, x1 + 1)
    }
}

pub open spec fn clamped_jump(jump: int) -> int {
    if jump < 0 { 0 } else if jump > 12 { 12 } else { jump }
}

/// The worlds within `jump` (clamped to `0..=12`) of `center`, as positions
/// into `placed` (each world's absolute coordinates; where two share a hex,
/// the first counts), in raster order over the box `±(jump + 1)`.
pub open spec fn jump_scan(center: Coord, jump: int, placed: Seq<(i32, i32)>) -> Seq<int> {
    let j = clamped_jump(jump);
    jump_rows(center, j, placed, center.y - j - 1, center.y + j + 2, center.x - j - 1, center.x + j + 1)
}

fn first_placed_at(placed: &Vec<(i32, i32)>, x: i32, y: i32) -> (r: Option<usize>)
    ensures
        match r {
            Some(i) => first_at(placed@, x as int, y as int, placed@.len() as int) == Some(i as int),
            None => first_at(placed@, x as int, y as int, placed@.len() as int) is None,
        },
{
    let mut i: usize = 0;
    while i < placed.len()
        invariant
            i <= placed@.len(),
            first_at(placed@, x as int, y as int, i as int) is None,
        decreases placed@.len() - i,
    {
        if placed[i].0 == x && placed[i].1 == y {
            proof { lemma_first_at_stable(placed@, x as int, y as int, i + 1, placed@.len() as int); }
            return Some(i);
        }
        i += 1;
    }
    None
}

proof fn lemma_first_at_stable(placed: Seq<(i32, i32)>, x: int, y: int, k1: int, k2: int)
    requires
        k1 <= k2,
        first_at(placed, x, y, k1) is Some,
    ensures
        first_at(placed, x, y, k2) == first_at(placed, x, y, k1),
    decreases k2 - k1,
{
    if k1 < k2 {
        lemma_first_at_stable(placed, x, y, k1, k2 - 1);
    }
}

/// The worlds a jump-worlds request reports, in order: those within `jump`
/// (clamped to `0..=12`) of `center`, scanned row by row over the box
/// `±(jump + 1)` around it; `placed` holds each candidate world's absolute
/// coordinates, and the first world at a hex wins.
pub fn jump_world_order(center: Coord, jump: i32, placed: &Vec<(i32, i32)>) -> (r: Vec<usize>)
    requires
        i32::MIN + 14 <= center.x <= i32::MAX - 14,
        i32::MIN + 14 <= center.y <= i32::MAX - 14,
    ensures
        r@.map_values(|i: usize| i as int) == jump_scan(center, jump as int, placed@),
{
    let j: i32 = if jump < 0 { 0 } else if jump > 12 { 12 } else { jump };
    let x0 = center.x - j - 1;
    let x1 = center.x + j + 1;
    let y0 = center.y - j - 1;
    let y1 = center.y + j + 1;
    let mut out: Vec<usize> = Vec::new();
    let mut y = y0;
    while y <= y1
        invariant
            y0 <= y <= y1 + 1,
            x0 == center.x - j - 1,
            x1 == center.x + j + 1,
            y0 == center.y - j - 1,
            y1 == center.y + j + 1,
            0 <= j <= 12,
            j as int == clamped_jump(jump as int),
            i32::MIN + 14 <= center.x <= i32::MAX - 14,
            i32::MIN + 14 <= center.y <= i32::MAX - 14,
            out@.map_values(|i: usize| i as int) == jump_rows(center, j as int, placed@, y0 as int, y as int, x0 as int, x1 as int),
        decreases y1 + 1 - y,
    {
        let ghost row_start = out@.map_values(|i: usize| i as int);
        let mut x = x0;
        while x <= x1
            invariant
                x0 <= x <= x1 + 1,
                x0 == center.x - j - 1,
                x1 == center.x + j + 1,
                y0 <= y <= y1,
                y0 == center.y - j - 1,
                y1 == center.y + j + 1,
                0 <= j <= 12,
                i32::MIN + 14 <= center.x <= i32::MAX - 14,
                i32::MIN + 14 <= center.y <= i32::MAX - 14,
                out@.map_values(|i: usize| i as int) == row_start + jump_row(center, j as int, placed@, y as int, x0 as int, x as int),
            decreases x1 + 1 - x,
        {
            let here = Coord::new(x, y);
            let ghost before = out@.map_values(|i: usize| i as int);
            assert(spec_reference_hex_distance(center, here) <= 40);
            if reference_hex_distance(center, here) <= j {
                match first_placed_at(placed, x, y) {
                    Some(i) => {
                        out.push(i);
                        assert(out@.map_values(|k: usize| k as int) =~= before.push(i as int));
                    },
                    None => {},
                }
            }
            assert(jump_cell(center, j as int, placed@, x as int, y as int) == (if spec_reference_hex_distance(center, here) <= j {
                match first_at(placed@, x as int, y as int, placed@.len() as int) {
                    Some(i) => seq![i],
                    None => Seq::<int>::empty(),
                }
            } else {
                Seq::<int>::empty()
            }));
            assert(out@.map_values(|k: usize| k as int) =~= row_start + jump_row(center, j as int, placed@, y as int, x0 as int, x + 1));
            x += 1;
        }
        y += 1;
    }
    out
}

} // verus!

verus! {

proof fn lemma_first_at_props(placed: Seq<(i32, i32)>, x: int, y: int, k: int)
    requires
        0 <= k <= placed.len(),
    ensures
        first_at(placed, x, y, k) matches Some(i) ==> 0 <= i < k && placed[i].0 as int == x && placed[i].1 as int == y,
    decreases k,
{
    if k > 0 {
        lemma_first_at_props(placed, x, y, k - 1);
    }
}

/// A reported world sits within the jump of the center.
pub open spec fn within_jump(center: Coord, jump: int, placed: Seq<(i32, i32)>, i: int) -> bool {
    0 <= i < placed.len() && spec_reference_hex_distance(center, Coord { x: placed[i].0, y: placed[i].1 }) <= jump
}

proof fn lemma_row_within(center: Coord, jump: int, placed: Seq<(i32, i32)>, y: int, x0: int, x: int)
    requires
        i32::MIN <= y <= i32::MAX,
        i32::MIN <= x0,
        x <= i32::MAX + 1,
    ensures
        forall|k: int| 0 <= k < jump_row(center, jump, placed, y, x0, x).len()
            ==> within_jump(center, jump, placed, #[trigger] jump_row(center, jump, placed, y, x0, x)[k]),
    decreases x - x0,
{
    if x > x0 {
        lemma_row_within(center, jump, placed, y, x0, x - 1);
        lemma_first_at_props(placed, x - 1, y, placed.len() as int);
        let pre = jump_row(center, jump, placed, y, x0, x - 1);
        let cell = jump_cell(center, jump, placed, x - 1, y);
        let row = jump_row(center, jump, placed, y, x0, x);
        assert(row == pre + cell);
        assert forall|k: int| 0 <= k < row.len() implies within_jump(center, jump, placed, #[trigger] row[k]) by {
            if k < pre.len() {
                assert(row[k] == pre[k]);
            } else {
                let i = row[k];
                assert(cell.len() == 1 && cell[0] == i);
                assert(placed[i].0 as int == x - 1 && placed[i].1 as int == y);
                assert(Coord { x: placed[i].0, y: placed[i].1 } == Coord { x: (x - 1) as i32, y: y as i32 });
            }
        }
    }
}

proof fn lemma_rows_within(center: Coord, jump: int, placed: Seq<(i32, i32)>, y0: int, y: int, x0: int, x1: int)
    requires
        i32::MIN <= y0,
        y <= i32::MAX + 1,
        i32::MIN <= x0,
        x1 <= i32::MAX,
    ensures
        forall|k: int| 0 <= k < jump_rows(center, jump, placed, y0, y, x0, x1).len()
            ==> within_jump(center, jump, placed, #[trigger] jump_rows(center, jump, placed, y0, y, x0, x1)[k]),
    decreases y - y0,
{
    if y > y0 {
        lemma_rows_within(center, jump, placed, y0, y - 1, x0, x1);
        lemma_row_within(center, jump, placed, y - 1, x0, x1 + 1);
        let pre = jump_rows(center, jump, placed, y0, y - 1, x0, x1);
        let row = jump_row(center, jump, placed, y - 1, x0, x1 + 1);
        let all = jump_rows(center, jump, placed, y0, y, x0, x1);
        assert(all == pre + row);
        assert forall|k: int| 0 <= k < all.len() implies within_jump(center, jump, placed, #[trigger] all[k]) by {
            if k < pre.len() {
                assert(all[k] == pre[k]);
            } else {
                assert(all[k] == row[k - pre.len()]);
            }
        }
    }
}

/// Every world a jump-worlds request reports is one of the candidates and
/// lies within the (clamped) jump distance of the center hex.
pub proof fn law_jump_worlds_within_range(center: Coord, jump: int, placed: Seq<(i32, i32)>)
    requires
        i32::MIN + 14 <= center.x <= i32::MAX - 14,
        i32::MIN + 14 <= center.y <= i32::MAX - 14,
    ensures
        forall|k: int| 0 <= k < jump_scan(center, jump, placed).len()
            ==> within_jump(center, clamped_jump(jump), placed, #[trigger] jump_scan(center, jump, placed)[k]),
{
    let j = clamped_jump(jump);
    lemma_rows_within(center, j, placed, center.y - j - 1, center.y + j + 2, center.x - j - 1, center.x + j + 1);
}

} // verus!

verus! {

// ── The centre of a jump-worlds request ─────────────────────────────────────

/// The query of a jump-worlds request.
#[derive(Debug)]
pub struct JumpWorldsQuery {
    pub milieu: String,
    /// The sector, by name or abbreviation.
    pub sector: Option<String>,
    pub sx: Option<i32>,
    pub sy: Option<i32>,
    /// The centre hex within the sector.
    pub hex: Option<String>,
    pub jump: i32,
}

impl Default for JumpWorldsQuery {
    fn default() -> (q: Self)
        ensures
            q.milieu@ == "M1105"@,
            q.sector is None && q.sx is None && q.sy is None && q.hex is None,
            q.jump == 6,
    {
        JumpWorldsQuery {
            milieu: crate::compat::default_milieu(),
            sector: None,
            sx: None,
            sy: None,
            hex: None,
            jump: default_jumpworlds_jump(),
        }
    }
}

/// Why a jump-worlds request has no centre.
#[derive(Debug, Clone, PartialEq, Eq)]
pub enum JumpError {
    /// Neither a position nor a name was given.
    NoSector,
    /// No sector matches.
    SectorNotFound,
    /// No `hex` was given.
    NoHex,
    /// The `hex` is not four digits; carries it.
    InvalidHex(String),
}

/// What a [`JumpError`] says, over plain text.
pub enum JumpFailure {
    NoSector,
    SectorNotFound,
    NoHex,
    InvalidHex(Seq<char>),
}

impl View for JumpError {
    type V = JumpFailure;

    open spec fn view(&self) -> JumpFailure {
        match self {
            JumpError::NoSector => JumpFailure::NoSector,
            JumpError::SectorNotFound => JumpFailure::SectorNotFound,
            JumpError::NoHex => JumpFailure::NoHex,
            JumpError::InvalidHex(h) => JumpFailure::InvalidHex(h@),
        }
    }
}

impl JumpError {
    /// The HTTP status: not found for an unknown sector, a bad request
    /// otherwise.
    pub fn status(&self) -> (s: u16)
        ensures
            s == (match *self {
                JumpError::SectorNotFound => 404u16,
                _ => 400u16,
            }),
    {
        match self {
            JumpError::SectorNotFound => 404,
            _ => 400,
        }
    }

    /// The response text.
    pub fn message(&self) -> (s: String)
        ensures
            s@ == (match self@ {
                JumpFailure::NoSector => "No sector specified."@,
                JumpFailure::SectorNotFound => "The specified sector was not found."@,
                JumpFailure::NoHex => "No hex specified."@,
                JumpFailure::InvalidHex(h) => "Invalid hex: "@ + h,
            }),
    {
        match self {
            JumpError::NoSector => "No sector specified.".to_string(),
            JumpError::SectorNotFound => "The specified sector was not found.".to_string(),
            JumpError::NoHex => "No hex specified.".to_string(),
            JumpError::InvalidHex(h) => crate::text::cat("Invalid hex: ", h.as_str()),
        }
    }
}

/// Every sector's hexes have `i32` world-space coordinates.
pub open spec fn sectors_fit(sectors: Seq<SectorIndexEntry>) -> bool {
    forall|i: int| 0 <= i < sectors.len() ==>
        crate::search_index::sector_points_fit((#[trigger] sectors[i]).location.x as int, sectors[i].location.y as int)
}

/// The sector (its position in `sectors`) and the world-space centre a
/// jump-worlds request names, or why it names none: the sector first (by
/// grid position, else name), then the hex.
pub open spec fn jump_center_of(sectors: Seq<SectorIndexEntry>, q: JumpWorldsQuery) -> Result<(int, (int, int)), JumpFailure> {
    match located(sectors, q.sx, q.sy, opt_string_view(q.sector)) {
        Err(LookupError::NoSector) => Err(JumpFailure::NoSector),
        Err(LookupError::NotFound) => Err(JumpFailure::SectorNotFound),
        Ok(i) => match q.hex {
            None => Err(JumpFailure::NoHex),
            Some(h) => match spec_parse_hex(h@) {
                None => Err(JumpFailure::InvalidHex(h@)),
                Some((c, r)) => Ok((i, spec_location_to_coordinates(sectors[i].location.x as int,
                    sectors[i].location.y as int, c, r))),
            },
        },
    }
}

/// Find the sector and world-space centre of a jump-worlds request.
pub fn jump_center(sectors: &Vec<SectorIndexEntry>, q: &JumpWorldsQuery) -> (r: Result<(usize, Coord), JumpError>)
    requires
        sectors_fit(sectors@),
    ensures
        match r {
            Ok((i, c)) => jump_center_of(sectors@, *q) == Ok::<(int, (int, int)), JumpFailure>((i as int, (c.x as int, c.y as int))),
            Err(e) => jump_center_of(sectors@, *q) == Err::<(int, (int, int)), JumpFailure>(e@),
        },
{
    let name = match &q.sector {
        Some(s) => Some(s.as_str()),
        None => None,
    };
    assert(crate::text::opt_str_view(name) == opt_string_view(q.sector));
    let i = match locate_sector(sectors, q.sx, q.sy, name) {
        Ok(i) => i,
        Err(LookupError::NoSector) => return Err(JumpError::NoSector),
        Err(LookupError::NotFound) => return Err(JumpError::SectorNotFound),
    };
    let h = match &q.hex {
        Some(h) => h,
        None => return Err(JumpError::NoHex),
    };
    let (c, r) = match parse_hex(h.as_str()) {
        Some(p) => p,
        None => return Err(JumpError::InvalidHex(string_from_chars(&chars_of(h.as_str())))),
    };
    proof {
        crate::astrometrics::lemma_parse_hex_range(h@);
        assert(crate::search_index::sector_points_fit(sectors@[i as int].location.x as int, sectors@[i as int].location.y as int));
    }
    let (x, y) = location_to_coordinates(sectors[i].location.x, sectors[i].location.y, c, r);
    Ok((i, Coord::new(x, y)))
}

/// The jump distance a request asks for, clamped into `0..=12`.
pub open spec fn jump_clamped(jump: int) -> int {
    if jump < 0 { 0 } else if jump > 12 { 12 } else { jump }
}

/// The sector grid positions `(sx0, sy0, sx1, sy1)` spanned by the box of
/// hexes `±(jump + 1)` around `center` (`jump` clamped into `0..=12`): the
/// sectors of its top-left and bottom-right corners.
pub fn jump_sector_span(center: Coord, jump: i32) -> (r: (i32, i32, i32, i32))
    requires
        i32::MIN + 44 <= center.x <= i32::MAX - 14,
        i32::MIN + 14 <= center.y <= i32::MAX - 53,
    ensures
        ({
            let j = jump_clamped(jump as int);
            let a = spec_coordinates_to_location(center.x - j - 1, center.y - j - 1);
            let b = spec_coordinates_to_location(center.x + j + 1, center.y + j + 1);
            r.0 as int == a.0 && r.1 as int == a.1 && r.2 as int == b.0 && r.3 as int == b.1
        }),
{
    let j: i32 = if jump < 0 { 0 } else if jump > 12 { 12 } else { jump };
    let (sxa, sya, _, _) = coordinates_to_location(center.x - j - 1, center.y - j - 1);
    let (sxb, syb, _, _) = coordinates_to_location(center.x + j + 1, center.y + j + 1);
    (sxa, sya, sxb, syb)
}

} // verus!

verus! {

// ── Static assets and small switches ────────────────────────────────────────

/// A relative asset path that stays inside the asset tree: no empty, `.` or
/// `..` segment between `/`s, and no `\`.
pub open spec fn asset_path_ok(path: Seq<char>) -> bool {
    &&& forall|i: int| 0 <= i < split_on(path, '/').len() ==> {
        let seg = #[trigger] split_on(path, '/')[i];
        seg != ".."@ && seg != "."@ && seg.len() > 0
    }
    &&& !path.contains('\\')
}

/// May this path under the asset tree be served?
pub fn is_safe_asset_path(path: &str) -> (b: bool)
    ensures
        b == asset_path_ok(path@),
{
    let cs = chars_of(path);
    let segs = split_chars(cs.as_slice(), '/');
    let ghost sv = segs@.map_values(|v: Vec<char>| v@);
    assert(sv == split_on(path@, '/'));
    let mut i: usize = 0;
    while i < segs.len()
        invariant
            i <= segs@.len(),
            sv == segs@.map_values(|v: Vec<char>| v@),
            sv == split_on(path@, '/'),
            forall|j: int| 0 <= j < i ==> {
                let seg = #[trigger] sv[j];
                seg != ".."@ && seg != "."@ && seg.len() > 0
            },
        decreases segs@.len() - i,
    {
        let seg = string_from_chars(&segs[i]);
        if seg.as_str().is_empty() || str_eq(seg.as_str(), "..") || str_eq(seg.as_str(), ".") {
            assert(!({
                let s2 = sv[i as int];
                s2 != ".."@ && s2 != "."@ && s2.len() > 0
            }));
            return false;
        }
        i += 1;
    }
    let mut k: usize = 0;
    while k < cs.len()
        invariant
            k <= cs@.len(),
            cs@ == path@,
            forall|j: int| 0 <= j < k ==> cs@[j] != '\\',
        decreases cs@.len() - k,
    {
        if cs[k] == '\\' {
            assert(path@.contains('\\')) by { assert(path@[k as int] == '\\'); }
            return false;
        }
        k += 1;
    }
    true
}

/// The media type of an asset, by its file extension.
pub open spec fn media_type_of(ext: Option<Seq<char>>) -> Seq<char> {
    match ext {
        Some(e) => if e == "svg"@ {
            "image/svg+xml"@
        } else if e == "png"@ {
            "image/png"@
        } else if e == "jpg"@ || e == "jpeg"@ {
            "image/jpeg"@
        } else if e == "gif"@ {
            "image/gif"@
        } else if e == "css"@ {
            "text/css"@
        } else {
            "application/octet-stream"@
        },
        None => "application/octet-stream"@,
    }
}

/// The `Content-Type` an asset is served with.
pub fn media_type(ext: Option<&str>) -> (t: &'static str)
    ensures
        t@ == media_type_of(opt_str_view(ext)),
{
    match ext {
        Some(e) => if str_eq(e, "svg") {
            "image/svg+xml"
        } else if str_eq(e, "png") {
            "image/png"
        } else if str_eq(e, "jpg") || str_eq(e, "jpeg") {
            "image/jpeg"
        } else if str_eq(e, "gif") {
            "image/gif"
        } else if str_eq(e, "css") {
            "text/css"
        } else {
            "application/octet-stream"
        },
        None => "application/octet-stream",
    }
}

/// A switch value that turns something on: `1`, `true`, `yes` or `on`,
/// trimmed and in any ASCII case.
pub open spec fn truthy(v: Seq<char>) -> bool {
    let l = lower_all(trim(v));
    l == "1"@ || l == "true"@ || l == "yes"@ || l == "on"@
}

/// Is the (environment) switch `v` set to a true value? Absent is off.
pub fn switch_on(v: Option<&str>) -> (b: bool)
    ensures
        b == (v matches Some(s) && truthy(s@)),
{
    match v {
        Some(s) => {
            let t = string_from_chars(&trim_chars(chars_of(s).as_slice()));
            let l = lower_chars(t.as_str());
            str_eq(l.as_str(), "1") || str_eq(l.as_str(), "true") || str_eq(l.as_str(), "yes") || str_eq(l.as_str(), "on")
        },
        None => false,
    }
}

/// A cached response is still fresh for the client when its
/// `If-None-Match` is exactly the entity tag.
pub fn not_modified(if_none_match: Option<&str>, etag: &str) -> (b: bool)
    ensures
        b == (if_none_match matches Some(v) && v@ == etag@),
{
    match if_none_match {
        Some(v) => str_eq(v, etag),
        None => false,
    }
}

} // verus!

verus! {

/// The worlds among the first `k` whose hex parses, each with its world-space
/// position in sector `(sx, sy)`, in order.
pub open spec fn placed_worlds(ws: Seq<World>, sx: int, sy: int, k: int) -> Seq<(int, (int, int))>
    decreases k,
{
    if k <= 0 {
        Seq::empty()
    } else {
        placed_worlds(ws, sx, sy, k - 1) + match crate::astrometrics::spec_parse_hex(ws[k - 1].hex@) {
            Some((c, r)) => seq![(k - 1, crate::astrometrics::spec_location_to_coordinates(sx, sy, c, r))],
            None => Seq::empty(),
        }
    }
}

/// Where the worlds of sector `(sx, sy)` stand in world space: each world
/// whose hex parses, by its position in `worlds`, in order.
pub fn world_positions(worlds: &Vec<World>, sx: i32, sy: i32) -> (r: Vec<(usize, (i32, i32))>)
    requires
        crate::search_index::sector_points_fit(sx as int, sy as int),
    ensures
        r@.map_values(|e: (usize, (i32, i32))| (e.0 as int, (e.1.0 as int, e.1.1 as int)))
            == placed_worlds(worlds@, sx as int, sy as int, worlds@.len() as int),
{
    let mut out: Vec<(usize, (i32, i32))> = Vec::new();
    let mut k: usize = 0;
    while k < worlds.len()
        invariant
            k <= worlds@.len(),
            crate::search_index::sector_points_fit(sx as int, sy as int),
            out@.map_values(|e: (usize, (i32, i32))| (e.0 as int, (e.1.0 as int, e.1.1 as int)))
                == placed_worlds(worlds@, sx as int, sy as int, k as int),
        decreases worlds@.len() - k,
    {
        let ghost before = out@.map_values(|e: (usize, (i32, i32))| (e.0 as int, (e.1.0 as int, e.1.1 as int)));
        proof { crate::astrometrics::lemma_parse_hex_range(worlds@[k as int].hex@); }
        match crate::astrometrics::parse_hex(worlds[k].hex.as_str()) {
            Some((c, r)) => {
                let p = crate::astrometrics::location_to_coordinates(sx, sy, c, r);
                out.push((k, p));
                assert(out@.map_values(|e: (usize, (i32, i32))| (e.0 as int, (e.1.0 as int, e.1.1 as int)))
                    =~= before.push((k as int, (p.0 as int, p.1 as int))));
            },
            None => {
                assert(before + Seq::<(int, (int, int))>::empty() =~= before);
            },
        }
        k += 1;
    }
    out
}

} // verus!

verus! {

/// The name of the first subsector with index `idx`, if any.
pub open spec fn subsector_name_at(subs: Seq<Subsector>, idx: Seq<char>) -> Option<Seq<char>>
    decreases subs.len(),
{
    if subs.len() == 0 {
        None
    } else if subs[0].index@ == idx {
        Some(subs[0].name@)
    } else {
        subsector_name_at(subs.drop_first(), idx)
    }
}

pub open spec fn or_empty(o: Option<Seq<char>>) -> Seq<char> {
    match o {
        Some(s) => s,
        None => Seq::empty(),
    }
}

/// `r` is world `w` of the named sector as a jump-worlds answer lists it,
/// at world-space `(x, y)`: the world's own fields; its subsector letter,
/// index and name (the first of `subs` with that letter, else empty), its
/// quadrant; its nobility (empty when none), its world count (0 when
/// none); its allegiance's name from the table (empty when unknown); and
/// the given legacy base code.
pub open spec fn world_result_of(r: crate::dto::WorldResult, w: World, sector: Seq<char>, abbreviation: Option<Seq<char>>,
    subs: Seq<Subsector>, x: int, y: int, rows: Seq<(Seq<char>, Seq<char>, Seq<char>)>, legacy: Seq<char>) -> bool
{
    let letter = seq![('A' as int + spec_subsector_index(w.hex@)) as char];
    &&& r.name@ == w.name@ && r.hex@ == w.hex@ && r.uwp@ == w.uwp@ && r.pbg@ == w.pbg@ && r.zone@ == w.zone@
    &&& r.bases@ == w.bases@ && r.allegiance@ == w.allegiance@ && r.stellar@ == w.stellar@ && r.remarks@ == w.remarks@
    &&& r.ss@ == letter
    &&& r.subsector_name@ == or_empty(subsector_name_at(subs, letter))
    &&& opt_string_view(r.ix) == opt_string_view(w.importance)
    &&& opt_string_view(r.ex) == opt_string_view(w.economic)
    &&& opt_string_view(r.cx) == opt_string_view(w.cultural)
    &&& r.nobility@ == or_empty(opt_string_view(w.nobility))
    &&& r.worlds as int == (match w.worlds { Some(n) => n as int, None => 0 })
    &&& r.resource_units == w.resource_units
    &&& r.subsector as int == spec_subsector_index(w.hex@)
    &&& r.quadrant as int == spec_quadrant_index(w.hex@)
    &&& r.world_x as int == x && r.world_y as int == y
    &&& r.legacy_base_code@ == legacy
    &&& r.sector@ == sector
    &&& opt_string_view(r.sector_abbreviation) == abbreviation
    &&& r.allegiance_name@ == or_empty(crate::world_util::allegiance_name_of(rows, w.allegiance@))
}

fn subsector_name_exec(subs: &Vec<Subsector>, idx: &str) -> (r: String)
    ensures
        r@ == or_empty(subsector_name_at(subs@, idx@)),
{
    let mut k: usize = 0;
    assert(subs@.subrange(0, subs@.len() as int) =~= subs@);
    while k < subs.len()
        invariant
            k <= subs@.len(),
            subsector_name_at(subs@, idx@) == subsector_name_at(subs@.subrange(k as int, subs@.len() as int), idx@),
        decreases subs@.len() - k,
    {
        let ghost rest = subs@.subrange(k as int, subs@.len() as int);
        assert(rest[0] == subs@[k as int]);
        assert(rest.drop_first() =~= subs@.subrange(k + 1, subs@.len() as int));
        if str_eq(subs[k].index.as_str(), idx) {
            return subs[k].name.clone();
        }
        k += 1;
    }
    String::new()
}

fn owned_or_empty(o: &Option<String>) -> (r: String)
    ensures
        r@ == or_empty(opt_string_view(*o)),
{
    match o {
        Some(s) => s.clone(),
        None => String::new(),
    }
}

/// World `w` of sector `sector` as a jump-worlds answer lists it, at
/// world-space `(x, y)`; `legacy_bases` is its legacy base code.
pub fn world_result(w: &World, sector: &str, abbreviation: &Option<String>, subsectors: &Vec<Subsector>, x: i32, y: i32,
    table: &Vec<crate::world_util::AllegianceCode>, legacy_bases: &str) -> (r: crate::dto::WorldResult)
    ensures
        world_result_of(r, *w, sector@, opt_string_view(*abbreviation), subsectors@, x as int, y as int,
            table@.map_values(|a: crate::world_util::AllegianceCode| crate::world_util::alleg_view(a)), legacy_bases@),
{
    let c = crate::astrometrics::subsector_letter(w.hex.as_str());
    let letters = vec![c];
    let ss = string_from_chars(&letters);
    assert(ss@ =~= seq![('A' as int + spec_subsector_index(w.hex@)) as char]);
    let subsector_name = subsector_name_exec(subsectors, ss.as_str());
    proof {
        crate::astrometrics::lemma_parse_hex_range(w.hex@);
        assert(spec_quadrant_index(w.hex@) <= 0x7fff);
    }
    crate::dto::WorldResult {
        name: w.name.clone(),
        hex: w.hex.clone(),
        uwp: w.uwp.clone(),
        pbg: w.pbg.clone(),
        zone: w.zone.clone(),
        bases: w.bases.clone(),
        allegiance: w.allegiance.clone(),
        stellar: w.stellar.clone(),
        ss,
        ix: crate::endpoints::copy_opt(&w.importance),
        ex: crate::endpoints::copy_opt(&w.economic),
        cx: crate::endpoints::copy_opt(&w.cultural),
        nobility: owned_or_empty(&w.nobility),
        worlds: match w.worlds { Some(n) => n as i32, None => 0 },
        resource_units: w.resource_units,
        subsector: crate::astrometrics::subsector_index(w.hex.as_str()) as i32,
        quadrant: crate::astrometrics::quadrant_index(w.hex.as_str()) as i32,
        world_x: x,
        world_y: y,
        remarks: w.remarks.clone(),
        legacy_base_code: string_from_chars(&chars_of(legacy_bases)),
        sector: string_from_chars(&chars_of(sector)),
        subsector_name,
        sector_abbreviation: crate::endpoints::copy_opt(abbreviation),
        allegiance_name: owned_or_empty(&crate::world_util::allegiance_name(table, w.allegiance.as_str())),
    }
}

} // verus!
