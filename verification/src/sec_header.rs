//! The `# …` comment block that heads a sector's SEC and Second Survey text:
//! generation note, names, position, abbreviation, milieu, credits, data-file
//! provenance, the sixteen subsectors and the allegiances its worlds use.
use vstd::prelude::*;

use crate::dto::{SectorIndexEntry, SectorName, Subsector, DataFileMeta, World};
use crate::metadata::MetaAllegiance;
use crate::world_util::{AllegianceCode, alleg_view, allegiance_name, allegiance_name_of};
use crate::requests::{eq_ignore_case, eq_ignore_ascii_case, untagged, strip_html_collapse};
use crate::search_index::join_spaces;
use crate::parse::opt_string_view;
use crate::endpoints::copy_opt;
use crate::text::{chars_of, string_from_chars, str_eq, push_str_chars, int_decimal, int_to_string, ws_tokens};

verus! {

// ── Allegiance codes in order ───────────────────────────────────────────────

/// `a` sorts before `b` (`str`'s order: by characters, a prefix first).
pub open spec fn str_lt(a: Seq<char>, b: Seq<char>) -> bool
    decreases a.len(),
{
    if a.len() == 0 {
        b.len() > 0
    } else if b.len() == 0 {
        false
    } else if a[0] != b[0] {
        a[0] < b[0]
    } else {
        str_lt(a.drop_first(), b.drop_first())
    }
}

/// Where `c` goes in the sorted list `acc`: before the first element not
/// less than it.
pub open spec fn sorted_pos(acc: Seq<Seq<char>>, c: Seq<char>, k: int) -> int
    decreases k,
{
    if k <= 0 {
        0
    } else if str_lt(acc[k - 1], c) {
        k
    } else {
        sorted_pos(acc, c, k - 1)
    }
}

/// `acc` with `c` added in order, unless it is empty or already there.
pub open spec fn add_code(acc: Seq<Seq<char>>, c: Seq<char>) -> Seq<Seq<char>> {
    let p = sorted_pos(acc, c, acc.len() as int);
    if c.len() == 0 || (p < acc.len() && acc[p] == c) {
        acc
    } else {
        acc.take(p) + seq![c] + acc.skip(p)
    }
}

/// The distinct non-empty allegiance codes of the first `k` worlds, sorted.
pub open spec fn codes_upto(worlds: Seq<World>, k: int) -> Seq<Seq<char>>
    decreases k,
{
    if k <= 0 { Seq::empty() } else { add_code(codes_upto(worlds, k - 1), worlds[k - 1].allegiance@) }
}

pub(crate) fn less_than(a: &str, b: &str) -> (r: bool)
    ensures
        r == str_lt(a@, b@),
{
    let x = chars_of(a);
    let y = chars_of(b);
    let mut i: usize = 0;
    assert(a@.skip(0) =~= a@ && b@.skip(0) =~= b@);
    while i < x.len() && i < y.len() && x[i] == y[i]
        invariant
            i <= x@.len(),
            i <= y@.len(),
            x@ == a@,
            y@ == b@,
            str_lt(a@, b@) == str_lt(a@.skip(i as int), b@.skip(i as int)),
        decreases x@.len() - i,
    {
        assert(a@.skip(i as int).drop_first() =~= a@.skip(i + 1));
        assert(b@.skip(i as int).drop_first() =~= b@.skip(i + 1));
        i += 1;
    }
    if i == x.len() {
        i < y.len()
    } else if i == y.len() {
        false
    } else {
        x[i] < y[i]
    }
}

proof fn lemma_sorted_pos_range(acc: Seq<Seq<char>>, c: Seq<char>, k: int)
    requires
        0 <= k <= acc.len(),
    ensures
        0 <= sorted_pos(acc, c, k) <= k,
    decreases k,
{
    if k > 0 {
        lemma_sorted_pos_range(acc, c, k - 1);
    }
}

pub(crate) fn add_code_to(acc: &mut Vec<String>, c: &str)
    ensures
        final(acc)@.map_values(|s: String| s@) == add_code(old(acc)@.map_values(|s: String| s@), c@),
{
    let ghost av = acc@.map_values(|s: String| s@);
    if c.is_empty() {
        return;
    }
    let mut p = acc.len();
    while p > 0 && !less_than(acc[p - 1].as_str(), c)
        invariant
            p <= acc@.len(),
            acc@ == old(acc)@,
            av == acc@.map_values(|s: String| s@),
            sorted_pos(av, c@, acc@.len() as int) == sorted_pos(av, c@, p as int),
        decreases p,
    {
        assert(av[p - 1] == acc@[p - 1]@);
        p -= 1;
    }
    proof {
        if p > 0 {
            assert(av[p - 1] == acc@[p - 1]@);
        }
        lemma_sorted_pos_range(av, c@, p as int);
    }
    assert(sorted_pos(av, c@, av.len() as int) == p as int);
    if p < acc.len() && str_eq(acc[p].as_str(), c) {
        assert(av[p as int] == c@);
        return;
    }
    acc.insert(p, c.to_string());
    assert(acc@.map_values(|s: String| s@) =~= av.take(p as int) + seq![c@] + av.skip(p as int));
}

/// The distinct non-empty allegiance codes of `worlds`, sorted.
pub fn allegiance_codes(worlds: &Vec<World>) -> (r: Vec<String>)
    ensures
        r@.map_values(|s: String| s@) == codes_upto(worlds@, worlds@.len() as int),
{
    let mut acc: Vec<String> = Vec::new();
    let mut i: usize = 0;
    while i < worlds.len()
        invariant
            i <= worlds@.len(),
            acc@.map_values(|s: String| s@) == codes_upto(worlds@, i as int),
        decreases worlds@.len() - i,
    {
        add_code_to(&mut acc, worlds[i].allegiance.as_str());
        i += 1;
    }
    acc
}

} // verus!

verus! {

// ── The block ───────────────────────────────────────────────────────────────
//
// Each `with_…` function is the text so far followed by more lines, each line
// ending in CRLF.

pub open spec fn crlf() -> Seq<char> {
    "\r\n"@
}

pub open spec fn with_name_line(p: Seq<char>, n: SectorName) -> Seq<char> {
    match n.lang {
        Some(l) => p + "# Name: "@ + n.text@ + " ("@ + l@ + ")"@ + crlf(),
        None => p + "# Name: "@ + n.text@ + crlf(),
    }
}

pub open spec fn with_name_lines(p: Seq<char>, ns: Seq<SectorName>) -> Seq<char>
    decreases ns.len(),
{
    if ns.len() == 0 { p } else { with_name_line(with_name_lines(p, ns.drop_last()), ns.last()) }
}

pub open spec fn df_is_default(df: DataFileMeta) -> bool {
    df.title is None && df.author is None && df.publisher is None && df.copyright is None && df.source is None
        && df.reference is None
}

/// `label` and the value as a line, when there is a value.
pub open spec fn with_opt_line(p: Seq<char>, label: Seq<char>, v: Option<String>) -> Seq<char> {
    match v {
        Some(s) => p + label + s@ + crlf(),
        None => p,
    }
}

/// The provenance lines, after a blank one, unless there is no provenance.
pub open spec fn with_df_lines(p: Seq<char>, df: DataFileMeta) -> Seq<char> {
    if df_is_default(df) {
        p
    } else {
        with_opt_line(with_opt_line(with_opt_line(with_opt_line(with_opt_line(p + crlf(),
            "# Author:    "@, df.author), "# Publisher: "@, df.publisher), "# Copyright: "@, df.copyright),
            "# Source:    "@, df.source), "# Ref:       "@, df.reference)
    }
}

/// The `k`th subsector letter (`A` for 0).
pub open spec fn letter(k: int) -> char {
    (65 + k) as char
}

/// The name of the first subsector whose index is `c` (ignoring ASCII case).
pub open spec fn subsector_name_for(subs: Seq<Subsector>, c: char) -> Seq<char>
    decreases subs.len(),
{
    if subs.len() == 0 {
        Seq::empty()
    } else if eq_ignore_case(subs[0].index@, seq![c]) {
        subs[0].name@
    } else {
        subsector_name_for(subs.drop_first(), c)
    }
}

pub open spec fn with_subsector_lines(p: Seq<char>, subs: Seq<Subsector>, k: int) -> Seq<char>
    decreases k,
{
    if k <= 0 {
        p
    } else {
        with_subsector_lines(p, subs, k - 1) + "# Subsector "@ + seq![letter(k - 1)] + ": "@ + subsector_name_for(subs, letter(k - 1)) + crlf()
    }
}

pub open spec fn table_view(t: Seq<AllegianceCode>) -> Seq<(Seq<char>, Seq<char>, Seq<char>)> {
    t.map_values(|a: AllegianceCode| alleg_view(a))
}

/// The name of the first of the sector's own allegiances with this code.
pub open spec fn local_name(local: Seq<MetaAllegiance>, code: Seq<char>) -> Option<Seq<char>>
    decreases local.len(),
{
    if local.len() == 0 {
        None
    } else if local[0].code@ == code {
        Some(local[0].name@)
    } else {
        local_name(local.drop_first(), code)
    }
}

/// An allegiance's name: the sector's own entry first, else the stock table.
pub open spec fn alleg_name_for(local: Seq<MetaAllegiance>, table: Seq<AllegianceCode>, code: Seq<char>) -> Option<Seq<char>> {
    match local_name(local, code) {
        Some(n) => Some(n),
        None => allegiance_name_of(table_view(table), code),
    }
}

/// The legacy form of a current code: the table row's legacy code, else the
/// code itself.
pub open spec fn legacy_of(table: Seq<AllegianceCode>, code: Seq<char>) -> Seq<char>
    decreases table.len(),
{
    if table.len() == 0 {
        code
    } else if table[0].code@ == code {
        table[0].legacy@
    } else {
        legacy_of(table.drop_first(), code)
    }
}

pub open spec fn with_alleg_line(p: Seq<char>, code: Seq<char>, local: Seq<MetaAllegiance>, table: Seq<AllegianceCode>, legacy: bool) -> Seq<char> {
    match alleg_name_for(local, table, code) {
        Some(n) => p + "# Alleg: "@ + (if legacy { legacy_of(table, code) } else { code }) + ": \""@ + n + "\""@ + crlf(),
        None => p,
    }
}

pub open spec fn with_alleg_lines(p: Seq<char>, codes: Seq<Seq<char>>, local: Seq<MetaAllegiance>, table: Seq<AllegianceCode>, legacy: bool) -> Seq<char>
    decreases codes.len(),
{
    if codes.len() == 0 {
        p
    } else {
        with_alleg_line(with_alleg_lines(p, codes.drop_last(), local, table, legacy), codes.last(), local, table, legacy)
    }
}

/// The canonical name: the first `<Name>`, else the index name.
pub open spec fn first_name(e: SectorIndexEntry) -> Seq<char> {
    if e.names@.len() > 0 { e.names@[0].text@ } else { e.name@ }
}

/// The block: generation note and time, canonical name, position (`x,-y`),
/// every name (with its language), abbreviation, milieu, credits without
/// markup, provenance, the sixteen subsectors, and for each allegiance code
/// the worlds use (sorted) that has a name, `# Alleg: code: "name"` (the
/// legacy code when `legacy`); blank lines between the groups.
pub open spec fn header_text(e: SectorIndexEntry, abbreviation: Option<Seq<char>>, milieu: Seq<char>,
    credits: Option<Seq<char>>, df: DataFileMeta, subs: Seq<Subsector>, worlds: Seq<World>,
    local: Seq<MetaAllegiance>, table: Seq<AllegianceCode>, legacy: bool, generated: Seq<char>) -> Seq<char>
{
    let p0 = Seq::<char>::empty() + "# Generated by https://travellermap.com"@ + crlf() + "# "@ + generated + crlf() + crlf()
        + "# "@ + first_name(e) + crlf() + "# "@ + int_decimal(e.location.x as int) + ","@ + int_decimal(-(e.location.y as int))
        + crlf() + crlf();
    let p1 = with_name_lines(p0, e.names@);
    let p2 = match abbreviation {
        Some(a) => p1 + crlf() + "# Abbreviation: "@ + a + crlf(),
        None => p1,
    };
    let p3 = p2 + crlf() + "# Milieu: "@ + milieu + crlf();
    let p4 = match credits {
        Some(c) => p3 + crlf() + "# Credits: "@ + join_spaces(ws_tokens(untagged(c, false))) + crlf(),
        None => p3,
    };
    let p5 = with_df_lines(p4, df);
    let p6 = with_subsector_lines(p5 + crlf(), subs, 16);
    let p7 = with_alleg_lines(p6 + crlf(), codes_upto(worlds, worlds.len() as int), local, table, legacy);
    p7 + crlf()
}

fn push_line_end(out: &mut Vec<char>)
    ensures
        final(out)@ == old(out)@ + crlf(),
{
    push_str_chars(out, "\r\n");
}

fn push_name_line(out: &mut Vec<char>, n: &SectorName)
    ensures
        final(out)@ == with_name_line(old(out)@, *n),
{
    push_str_chars(out, "# Name: ");
    push_str_chars(out, n.text.as_str());
    match &n.lang {
        Some(l) => {
            push_str_chars(out, " (");
            push_str_chars(out, l.as_str());
            push_str_chars(out, ")");
        },
        None => {},
    }
    push_line_end(out);
}

fn push_opt_line(out: &mut Vec<char>, label: &str, v: &Option<String>)
    ensures
        final(out)@ == with_opt_line(old(out)@, label@, *v),
{
    match v {
        Some(s) => {
            push_str_chars(out, label);
            push_str_chars(out, s.as_str());
            push_line_end(out);
        },
        None => {},
    }
}

fn push_df_lines(out: &mut Vec<char>, df: &DataFileMeta)
    ensures
        final(out)@ == with_df_lines(old(out)@, *df),
{
    if df.title.is_none() && df.author.is_none() && df.publisher.is_none() && df.copyright.is_none()
        && df.source.is_none() && df.reference.is_none() {
        return;
    }
    push_line_end(out);
    push_opt_line(out, "# Author:    ", &df.author);
    push_opt_line(out, "# Publisher: ", &df.publisher);
    push_opt_line(out, "# Copyright: ", &df.copyright);
    push_opt_line(out, "# Source:    ", &df.source);
    push_opt_line(out, "# Ref:       ", &df.reference);
}

fn subsector_name_of(subs: &Vec<Subsector>, c: char) -> (r: String)
    ensures
        r@ == subsector_name_for(subs@, c),
{
    let mut one: Vec<char> = Vec::new();
    one.push(c);
    let key = string_from_chars(&one);
    assert(key@ =~= seq![c]);
    let mut i: usize = 0;
    assert(subs@.skip(0) =~= subs@);
    while i < subs.len()
        invariant
            i <= subs@.len(),
            key@ == seq![c],
            subsector_name_for(subs@, c) == subsector_name_for(subs@.skip(i as int), c),
        decreases subs@.len() - i,
    {
        assert(subs@.skip(i as int)[0] == subs@[i as int]);
        if eq_ignore_ascii_case(subs[i].index.as_str(), key.as_str()) {
            return subs[i].name.clone();
        }
        assert(subs@.skip(i as int).drop_first() =~= subs@.skip(i + 1));
        i += 1;
    }
    String::new()
}

fn local_name_of(local: &Vec<MetaAllegiance>, code: &str) -> (r: Option<String>)
    ensures
        opt_string_view(r) == local_name(local@, code@),
{
    let mut i: usize = 0;
    assert(local@.skip(0) =~= local@);
    while i < local.len()
        invariant
            i <= local@.len(),
            local_name(local@, code@) == local_name(local@.skip(i as int), code@),
        decreases local@.len() - i,
    {
        assert(local@.skip(i as int)[0] == local@[i as int]);
        if str_eq(local[i].code.as_str(), code) {
            return Some(local[i].name.clone());
        }
        assert(local@.skip(i as int).drop_first() =~= local@.skip(i + 1));
        i += 1;
    }
    None
}

fn legacy_code_of(table: &Vec<AllegianceCode>, code: &str) -> (r: String)
    ensures
        r@ == legacy_of(table@, code@),
{
    let mut i: usize = 0;
    assert(table@.skip(0) =~= table@);
    while i < table.len()
        invariant
            i <= table@.len(),
            legacy_of(table@, code@) == legacy_of(table@.skip(i as int), code@),
        decreases table@.len() - i,
    {
        assert(table@.skip(i as int)[0] == table@[i as int]);
        if str_eq(table[i].code.as_str(), code) {
            return table[i].legacy.clone();
        }
        assert(table@.skip(i as int).drop_first() =~= table@.skip(i + 1));
        i += 1;
    }
    code.to_string()
}

fn push_alleg_line(out: &mut Vec<char>, code: &str, local: &Vec<MetaAllegiance>, table: &Vec<AllegianceCode>, legacy: bool)
    ensures
        final(out)@ == with_alleg_line(old(out)@, code@, local@, table@, legacy),
{
    let name = match local_name_of(local, code) {
        Some(n) => Some(n),
        None => allegiance_name(table, code),
    };
    match name {
        Some(n) => {
            push_str_chars(out, "# Alleg: ");
            if legacy {
                let l = legacy_code_of(table, code);
                push_str_chars(out, l.as_str());
            } else {
                push_str_chars(out, code);
            }
            push_str_chars(out, ": \"");
            push_str_chars(out, n.as_str());
            push_str_chars(out, "\"");
            push_line_end(out);
        },
        None => {},
    }
}

/// The `# …` header of a sector's SEC or Second Survey text. `generated` is
/// the generation time as written in the second line; `local` holds the
/// sector's own allegiance names and `table` the stock allegiance table.
pub fn sec_metadata_block(entry: &SectorIndexEntry, abbreviation: Option<&str>, milieu: &str, credits: Option<&str>,
    df: &DataFileMeta, subsectors: &Vec<Subsector>, all_worlds: &Vec<World>, local: &Vec<MetaAllegiance>,
    table: &Vec<AllegianceCode>, legacy: bool, generated: &str) -> (s: String)
    requires
        entry.location.y != i32::MIN,
    ensures
        s@ == header_text(*entry, crate::text::opt_str_view(abbreviation), milieu@, crate::text::opt_str_view(credits), *df,
            subsectors@, all_worlds@, local@, table@, legacy, generated@),
{
    let mut out: Vec<char> = Vec::new();
    push_str_chars(&mut out, "# Generated by https://travellermap.com");
    push_line_end(&mut out);
    push_str_chars(&mut out, "# ");
    push_str_chars(&mut out, generated);
    push_line_end(&mut out);
    push_line_end(&mut out);
    push_str_chars(&mut out, "# ");
    if entry.names.len() > 0 {
        push_str_chars(&mut out, entry.names[0].text.as_str());
    } else {
        push_str_chars(&mut out, entry.name.as_str());
    }
    push_line_end(&mut out);
    push_str_chars(&mut out, "# ");
    let xs = int_to_string(entry.location.x as i64);
    push_str_chars(&mut out, xs.as_str());
    push_str_chars(&mut out, ",");
    let ys = int_to_string(-(entry.location.y as i64));
    push_str_chars(&mut out, ys.as_str());
    push_line_end(&mut out);
    push_line_end(&mut out);
    let ghost p0 = out@;
    let mut i: usize = 0;
    assert(entry.names@.take(0) =~= Seq::<SectorName>::empty());
    while i < entry.names.len()
        invariant
            i <= entry.names@.len(),
            out@ == with_name_lines(p0, entry.names@.take(i as int)),
        decreases entry.names@.len() - i,
    {
        push_name_line(&mut out, &entry.names[i]);
        assert(entry.names@.take(i + 1).drop_last() =~= entry.names@.take(i as int));
        i += 1;
    }
    assert(entry.names@.take(entry.names@.len() as int) =~= entry.names@);
    match abbreviation {
        Some(a) => {
            push_line_end(&mut out);
            push_str_chars(&mut out, "# Abbreviation: ");
            push_str_chars(&mut out, a);
            push_line_end(&mut out);
        },
        None => {},
    }
    push_line_end(&mut out);
    push_str_chars(&mut out, "# Milieu: ");
    push_str_chars(&mut out, milieu);
    push_line_end(&mut out);
    match credits {
        Some(c) => {
            push_line_end(&mut out);
            push_str_chars(&mut out, "# Credits: ");
            let plain = strip_html_collapse(c);
            push_str_chars(&mut out, plain.as_str());
            push_line_end(&mut out);
        },
        None => {},
    }
    push_df_lines(&mut out, df);
    push_line_end(&mut out);
    let ghost p5 = out@;
    let mut k: usize = 0;
    while k < 16
        invariant
            k <= 16,
            out@ == with_subsector_lines(p5, subsectors@, k as int),
        decreases 16 - k,
    {
        let c = (65u8 + k as u8) as char;
        assert(c == letter(k as int));
        push_str_chars(&mut out, "# Subsector ");
        out.push(c);
        push_str_chars(&mut out, ": ");
        let name = subsector_name_of(subsectors, c);
        push_str_chars(&mut out, name.as_str());
        push_line_end(&mut out);
        k += 1;
    }
    push_line_end(&mut out);
    let codes = allegiance_codes(all_worlds);
    let ghost cv = codes@.map_values(|s: String| s@);
    let ghost p6 = out@;
    let mut j: usize = 0;
    assert(cv.take(0) =~= Seq::<Seq<char>>::empty());
    while j < codes.len()
        invariant
            j <= codes@.len(),
            cv == codes@.map_values(|s: String| s@),
            out@ == with_alleg_lines(p6, cv.take(j as int), local@, table@, legacy),
        decreases codes@.len() - j,
    {
        push_alleg_line(&mut out, codes[j].as_str(), local, table, legacy);
        assert(cv.take(j + 1).drop_last() =~= cv.take(j as int));
        assert(cv.take(j + 1).last() == codes@[j as int]@);
        j += 1;
    }
    assert(cv.take(codes@.len() as int) =~= cv);
    push_line_end(&mut out);
    string_from_chars(&out)
}

} // verus!

verus! {

// ── The generation timestamp ────────────────────────────────────────────────

/// The UTC calendar date and time `(year, month, day, hour, minute, second)`
/// of `secs` seconds after the Unix epoch (proleptic Gregorian calendar,
/// counted in 400-year eras from 0000-03-01). `calendar::law_civil_time`
/// states what this keeps of the calendar.
pub open spec fn civil_time(secs: int) -> (int, int, int, int, int, int) {
    let days = secs / 86400;
    let tod = secs % 86400;
    let z = days + 719468;
    let era = z / 146097;
    let doe = z - era * 146097;
    let yoe = (doe - doe / 1460 + doe / 36524 - doe / 146096) / 365;
    let y = yoe + era * 400;
    let doy = doe - (365 * yoe + yoe / 4 - yoe / 100);
    let mp = (5 * doy + 2) / 153;
    let d = doy - (153 * mp + 2) / 5 + 1;
    let m = if mp < 10 { mp + 3 } else { mp - 9 };
    (if m <= 2 { y + 1 } else { y }, m, d, tod / 3600, (tod % 3600) / 60, tod % 60)
}

/// `n` written with at least `w` digits, zero-padded on the left.
pub open spec fn zero_padded(n: int, w: nat) -> Seq<char>
    decreases w,
{
    if w == 0 || int_decimal(n).len() >= w {
        int_decimal(n)
    } else {
        seq!['0'] + zero_padded(n, (w - 1) as nat).skip(0)
    }
}

/// `YYYY-MM-DDTHH:MM:SS+00:00`.
pub open spec fn iso8601_text(secs: int) -> Seq<char> {
    let (y, m, d, h, mi, s) = civil_time(secs);
    zero_padded(y, 4) + "-"@ + zero_padded(m, 2) + "-"@ + zero_padded(d, 2) + "T"@ + zero_padded(h, 2) + ":"@
        + zero_padded(mi, 2) + ":"@ + zero_padded(s, 2) + "+00:00"@
}

fn push_padded(out: &mut Vec<char>, n: i64, w: usize)
    requires
        n >= 0,
        w <= 4,
    ensures
        final(out)@ == old(out)@ + zero_padded(n as int, w as nat),
    decreases w,
{
    let digits = int_to_string(n);
    if w == 0 || digits.as_str().unicode_len() >= w {
        crate::text::push_str_chars(out, digits.as_str());
        return;
    }
    out.push('0');
    let ghost mid = out@;
    push_padded(out, n, w - 1);
    assert(zero_padded(n as int, (w - 1) as nat).skip(0) =~= zero_padded(n as int, (w - 1) as nat));
    assert(final(out)@ =~= old(out)@ + zero_padded(n as int, w as nat));
}

/// The ISO 8601 UTC time of `secs` seconds after the Unix epoch, as the SEC
/// header's generation line writes it, e.g. `2023-11-14T22:13:20+00:00`.
pub fn iso8601_utc(secs: i64) -> (s: String)
    requires
        secs >= 0,
    ensures
        s@ == iso8601_text(secs as int),
{
    let (y, m, d, h, mi, sec) = civil_exec(secs);
    let mut out: Vec<char> = Vec::new();
    push_padded(&mut out, y, 4);
    out.push('-');
    push_padded(&mut out, m, 2);
    out.push('-');
    push_padded(&mut out, d, 2);
    out.push('T');
    push_padded(&mut out, h, 2);
    out.push(':');
    push_padded(&mut out, mi, 2);
    out.push(':');
    push_padded(&mut out, sec, 2);
    crate::text::push_str_chars(&mut out, "+00:00");
    proof {
        reveal_strlit("-");
        reveal_strlit("T");
        reveal_strlit(":");
    }
    assert(out@ =~= iso8601_text(secs as int));
    string_from_chars(&out)
}

#[verifier::rlimit(40)]
fn civil_exec(secs: i64) -> (r: (i64, i64, i64, i64, i64, i64))
    requires
        secs >= 0,
    ensures
        (r.0 as int, r.1 as int, r.2 as int, r.3 as int, r.4 as int, r.5 as int) == civil_time(secs as int),
        r.0 >= 0 && r.1 >= 0 && r.2 >= 0 && r.3 >= 0 && r.4 >= 0 && r.5 >= 0,
{
    let days = secs / 86400;
    let tod = secs % 86400;
    let z = days + 719468;
    let era = z / 146097;
    let doe = z - era * 146097;
    assert(0 <= doe < 146097);
    let yoe = (doe - doe / 1460 + doe / 36524 - doe / 146096) / 365;
    assert(0 <= yoe <= 400);
    let y = yoe + era * 400;
    let doy = doe - (365 * yoe + yoe / 4 - yoe / 100);
    assert(0 <= doy < 366);
    let mp = (5 * doy + 2) / 153;
    let d = doy - (153 * mp + 2) / 5 + 1;
    let m = if mp < 10 { mp + 3 } else { mp - 9 };
    let y2 = if m <= 2 { y + 1 } else { y };
    (y2, m, d, tod / 3600, (tod % 3600) / 60, tod % 60)
}

} // verus!

verus! {

/// A sector metadata file's data-file facts as the header reads them:
/// (title, author, publisher, copyright, source, reference).
pub open spec fn data_file_facts(d: crate::metadata::MetaDataFile)
    -> (Option<Seq<char>>, Option<Seq<char>>, Option<Seq<char>>, Option<Seq<char>>, Option<Seq<char>>, Option<Seq<char>>)
{
    (opt_string_view(d.title), opt_string_view(d.author), opt_string_view(d.publisher), opt_string_view(d.copyright),
        opt_string_view(d.source), opt_string_view(d.reference))
}

pub open spec fn header_facts(d: DataFileMeta)
    -> (Option<Seq<char>>, Option<Seq<char>>, Option<Seq<char>>, Option<Seq<char>>, Option<Seq<char>>, Option<Seq<char>>)
{
    (opt_string_view(d.title), opt_string_view(d.author), opt_string_view(d.publisher), opt_string_view(d.copyright),
        opt_string_view(d.source), opt_string_view(d.reference))
}

pub open spec fn no_facts(d: crate::metadata::MetaDataFile) -> bool {
    data_file_facts(d) == (None::<Seq<char>>, None::<Seq<char>>, None::<Seq<char>>, None::<Seq<char>>, None::<Seq<char>>,
        None::<Seq<char>>)
}

/// What the header is built from besides the sector entry: the sector file's
/// credits, else the region list's; the region list's data-file facts when it
/// gives any, else the sector file's.
pub fn header_sources(meta: &crate::metadata::SectorMetadata, inline: &crate::metadata::SectorMetadata)
    -> (r: (Option<String>, DataFileMeta))
    ensures
        opt_string_view(r.0) == (if meta.credits_text is Some { opt_string_view(meta.credits_text) } else {
            opt_string_view(inline.credits_text) }),
        header_facts(r.1) == (if no_facts(inline.data_file) { data_file_facts(meta.data_file) } else {
            data_file_facts(inline.data_file) }),
{
    let credits = if meta.credits_text.is_some() { copy_opt(&meta.credits_text) } else { copy_opt(&inline.credits_text) };
    let i = &inline.data_file;
    let src = if i.title.is_none() && i.author.is_none() && i.publisher.is_none() && i.copyright.is_none()
        && i.source.is_none() && i.reference.is_none() {
        &meta.data_file
    } else {
        i
    };
    let df = DataFileMeta {
        title: copy_opt(&src.title),
        author: copy_opt(&src.author),
        publisher: copy_opt(&src.publisher),
        copyright: copy_opt(&src.copyright),
        source: copy_opt(&src.source),
        reference: copy_opt(&src.reference),
    };
    (credits, df)
}

} // verus!
