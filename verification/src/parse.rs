//! Parsers for sector data: the tab-delimited and column-delimited Second
//! Survey formats and the legacy SEC format, plus sector metadata helpers.
//!
//! Lenient by design: a file without a header is an error, while a malformed
//! row is skipped and reported in [`ParseOutcome::warnings`].
use vstd::prelude::*;

use crate::dto::{World, Subsector, Route, SectorName, SectorIndexEntry};
use crate::xml::{XmlNode, parse_xml, doc_nodes, opt_text_view, attr_of, attribute, root_element, first_child,
    find_root, find_child, text_within, collect_text, child_trimmed, find_child_trimmed, child_int, find_child_int,
    attr_int_or_zero, attribute_int_or_zero, attr_trimmed, attribute_trimmed, is_child, xml_document,
    byte_slice, slice_bytes};
use crate::world_util::{captures, regex_captures, caps_view, group, has_prefix};
use crate::astrometrics::{spec_parse_hex, parse_hex, is_digit};
use crate::text::{chars_of, string_from_chars, str_eq, slice_to_vec, split_on, split_chars, lemma_split_on_len, trim,
    trim_chars, spec_parse_in, parse_int_chars, nat_digits, push_digits, push_str_chars, text_lines, lines_of, trim_start,
    is_ws, is_whitespace, trim_bounds, lemma_trim_start_idx, trim_end};

verus! {

/// A structural parse failure (such as a file with no header row).
#[derive(Debug, Clone, PartialEq, Eq)]
pub struct ParseError {
    pub message: String,
}

/// The worlds that parsed, and a note for each row that was skipped.
#[derive(Debug, Clone, Default)]
pub struct ParseOutcome {
    pub worlds: Vec<World>,
    pub warnings: Vec<String>,
}

// ── Rows as named fields ────────────────────────────────────────────────────

/// The value of the last column named `k` (a later column of the same name
/// replaces an earlier one).
pub open spec fn lookup_last(names: Seq<Seq<char>>, vals: Seq<Seq<char>>, k: Seq<char>) -> Option<Seq<char>>
    decreases names.len(),
{
    if names.len() == 0 {
        None
    } else if names.last() == k {
        Some(vals[names.len() - 1])
    } else {
        lookup_last(names.drop_last(), vals, k)
    }
}

/// The value of the first of `keys` that names a column.
pub open spec fn field(names: Seq<Seq<char>>, vals: Seq<Seq<char>>, keys: Seq<Seq<char>>) -> Option<Seq<char>>
    decreases keys.len(),
{
    if keys.len() == 0 {
        None
    } else if lookup_last(names, vals, keys[0]) is Some {
        lookup_last(names, vals, keys[0])
    } else {
        field(names, vals, keys.drop_first())
    }
}

pub open spec fn or_empty(o: Option<Seq<char>>) -> Seq<char> {
    match o {
        Some(t) => t,
        None => Seq::empty(),
    }
}

/// A lone `-` means "none".
pub open spec fn dash(s: Seq<char>) -> Seq<char> {
    if s == "-"@ { Seq::empty() } else { s }
}

/// `None` for an absent or empty value.
pub open spec fn nonempty(o: Option<Seq<char>>) -> Option<Seq<char>> {
    match o {
        Some(s) => if s.len() > 0 { Some(s) } else { None },
        None => None,
    }
}

/// `s` without any `c`.
pub open spec fn drop_char(s: Seq<char>, c: char) -> Seq<char>
    decreases s.len(),
{
    if s.len() == 0 {
        Seq::empty()
    } else if s.last() == c {
        drop_char(s.drop_last(), c)
    } else {
        drop_char(s.drop_last(), c).push(s.last())
    }
}

pub open spec fn opt_string_view(o: Option<String>) -> Option<Seq<char>> {
    match o {
        Some(s) => Some(s@),
        None => None,
    }
}

/// A row names a world when it has a hex and a UWP.
pub open spec fn row_has_id(names: Seq<Seq<char>>, vals: Seq<Seq<char>>) -> bool {
    or_empty(field(names, vals, seq!["Hex"@])).len() > 0 && or_empty(field(names, vals, seq!["UWP"@])).len() > 0
}

/// The world count of a `W` column value.
pub open spec fn worlds_value(o: Option<Seq<char>>) -> Option<int> {
    match o {
        Some(v) => spec_parse_in(trim(v), false, 0, 255),
        None => None,
    }
}

/// The resource units of an `RU` column value (thousands separators ignored).
pub open spec fn ru_value(o: Option<Seq<char>>) -> Option<int> {
    match o {
        Some(v) => spec_parse_in(trim(drop_char(v, ',')), true, i32::MIN as int, i32::MAX as int),
        None => None,
    }
}

/// `w` is the world described by the named fields of a row, using the same
/// column names (and alternates) as the Second Survey files.
pub open spec fn world_fields(w: World, names: Seq<Seq<char>>, vals: Seq<Seq<char>>) -> bool {
    &&& w.hex@ == or_empty(field(names, vals, seq!["Hex"@]))
    &&& w.uwp@ == or_empty(field(names, vals, seq!["UWP"@]))
    &&& w.name@ == or_empty(field(names, vals, seq!["Name"@]))
    &&& w.bases@ == dash(or_empty(field(names, vals, seq!["B"@, "Bases"@])))
    &&& w.remarks@ == dash(or_empty(field(names, vals, seq!["Remarks"@, "Trade Codes"@, "Comments"@])))
    &&& w.zone@ == dash(or_empty(field(names, vals, seq!["Z"@, "Zone"@])))
    &&& w.pbg@ == or_empty(field(names, vals, seq!["PBG"@]))
    &&& w.allegiance@ == or_empty(field(names, vals, seq!["A"@, "Al"@, "Allegiance"@]))
    &&& w.stellar@ == or_empty(field(names, vals, seq!["Stellar"@, "Stars"@, "Stellar Data"@]))
    &&& opt_string_view(w.importance) == nonempty(field(names, vals, seq!["{Ix}"@, "{ Ix }"@, "Ix"@]))
    &&& opt_string_view(w.economic) == nonempty(field(names, vals, seq!["(Ex)"@, "( Ex )"@, "Ex"@]))
    &&& opt_string_view(w.cultural) == nonempty(field(names, vals, seq!["[Cx]"@, "[ Cx ]"@, "Cx"@]))
    &&& opt_string_view(w.nobility) == nonempty(match field(names, vals, seq!["N"@, "Nobility"@]) {
        Some(v) => Some(dash(v)),
        None => None,
    })
    &&& (match w.worlds {
        Some(n) => worlds_value(field(names, vals, seq!["W"@, "Worlds"@])) == Some(n as int),
        None => worlds_value(field(names, vals, seq!["W"@, "Worlds"@])) is None,
    })
    &&& (match w.resource_units {
        Some(n) => ru_value(field(names, vals, seq!["RU"@])) == Some(n as int),
        None => ru_value(field(names, vals, seq!["RU"@])) is None,
    })
}

/// Column `i` is the last column named `k`.
pub open spec fn last_column(names: Seq<Seq<char>>, k: Seq<char>, i: int) -> bool {
    &&& 0 <= i < names.len()
    &&& names[i] == k
    &&& forall|j: int| i < j < names.len() ==> #[trigger] names[j] != k
}

proof fn lemma_lookup_column(names: Seq<Seq<char>>, vals: Seq<Seq<char>>, k: Seq<char>, i: int)
    requires
        last_column(names, k, i),
    ensures
        lookup_last(names, vals, k) == Some(vals[i]),
    decreases names.len(),
{
    if names.len() - 1 != i {
        assert(names[names.len() - 1] != k);
        let d = names.drop_last();
        assert forall|j: int| i < j < d.len() implies #[trigger] d[j] != k by {
            assert(d[j] == names[j]);
        }
        lemma_lookup_column(d, vals, k, i);
    }
}

/// The value of a cell, `None` when empty.
pub open spec fn cell(vals: Seq<Seq<char>>, i: int) -> Option<Seq<char>> {
    if vals[i].len() > 0 { Some(vals[i]) } else { None }
}

/// A world read from a row takes each field from the column named for it:
/// its hex from `Hex`, UWP from `UWP`, name from `Name`, PBG from `PBG`,
/// importance from `{Ix}`, economic extension from `(Ex)` and cultural
/// extension from `[Cx]` (the last column of that name; an empty cell gives
/// no extension).
pub proof fn law_row_columns(w: World, names: Seq<Seq<char>>, vals: Seq<Seq<char>>,
    hex: int, uwp: int, name: int, pbg: int, ix: int, ex: int, cx: int)
    requires
        world_fields(w, names, vals),
        last_column(names, "Hex"@, hex),
        last_column(names, "UWP"@, uwp),
        last_column(names, "Name"@, name),
        last_column(names, "PBG"@, pbg),
        last_column(names, "{Ix}"@, ix),
        last_column(names, "(Ex)"@, ex),
        last_column(names, "[Cx]"@, cx),
    ensures
        w.hex@ == vals[hex],
        w.uwp@ == vals[uwp],
        w.name@ == vals[name],
        w.pbg@ == vals[pbg],
        opt_string_view(w.importance) == cell(vals, ix),
        opt_string_view(w.economic) == cell(vals, ex),
        opt_string_view(w.cultural) == cell(vals, cx),
{
    lemma_lookup_column(names, vals, "Hex"@, hex);
    lemma_lookup_column(names, vals, "UWP"@, uwp);
    lemma_lookup_column(names, vals, "Name"@, name);
    lemma_lookup_column(names, vals, "PBG"@, pbg);
    lemma_lookup_column(names, vals, "{Ix}"@, ix);
    lemma_lookup_column(names, vals, "(Ex)"@, ex);
    lemma_lookup_column(names, vals, "[Cx]"@, cx);
}

pub open spec fn rows_view(v: Seq<Vec<char>>) -> Seq<Seq<char>> {
    v.map_values(|x: Vec<char>| x@)
}

fn lookup_col(names: &Vec<Vec<char>>, vals: &Vec<Vec<char>>, k: &str) -> (r: Option<Vec<char>>)
    requires
        names@.len() <= vals@.len(),
    ensures
        match r {
            Some(v) => lookup_last(rows_view(names@), rows_view(vals@), k@) == Some(v@),
            None => lookup_last(rows_view(names@), rows_view(vals@), k@) is None,
        },
{
    let ghost nv = rows_view(names@);
    let ghost vv = rows_view(vals@);
    let kc = chars_of(k);
    let mut i: usize = names.len();
    assert(nv.subrange(0, nv.len() as int) =~= nv);
    while i > 0
        invariant
            i <= names@.len(),
            names@.len() <= vals@.len(),
            kc@ == k@,
            nv == rows_view(names@),
            vv == rows_view(vals@),
            lookup_last(nv, vv, k@) == lookup_last(nv.subrange(0, i as int), vv, k@),
        decreases i,
    {
        assert(nv.subrange(0, i as int).last() == names@[i - 1]@);
        assert(nv.subrange(0, i as int).drop_last() =~= nv.subrange(0, i - 1));
        if crate::searchlang::chars_eq(&names[i - 1], &kc) {
            return Some(slice_to_vec(&vals[i - 1], 0, vals[i - 1].len()));
        }
        i -= 1;
    }
    None
}

fn field1(names: &Vec<Vec<char>>, vals: &Vec<Vec<char>>, a: &str) -> (r: Option<Vec<char>>)
    requires
        names@.len() <= vals@.len(),
    ensures
        match r {
            Some(v) => field(rows_view(names@), rows_view(vals@), seq![a@]) == Some(v@),
            None => field(rows_view(names@), rows_view(vals@), seq![a@]) is None,
        },
{
    assert(seq![a@].drop_first() =~= Seq::<Seq<char>>::empty());
    proof { reveal_with_fuel(field, 2); }
    lookup_col(names, vals, a)
}

fn field2(names: &Vec<Vec<char>>, vals: &Vec<Vec<char>>, a: &str, b: &str) -> (r: Option<Vec<char>>)
    requires
        names@.len() <= vals@.len(),
    ensures
        match r {
            Some(v) => field(rows_view(names@), rows_view(vals@), seq![a@, b@]) == Some(v@),
            None => field(rows_view(names@), rows_view(vals@), seq![a@, b@]) is None,
        },
{
    assert(seq![a@, b@].drop_first() =~= seq![b@]);
    match lookup_col(names, vals, a) {
        Some(v) => Some(v),
        None => field1(names, vals, b),
    }
}

fn field3(names: &Vec<Vec<char>>, vals: &Vec<Vec<char>>, a: &str, b: &str, c: &str) -> (r: Option<Vec<char>>)
    requires
        names@.len() <= vals@.len(),
    ensures
        match r {
            Some(v) => field(rows_view(names@), rows_view(vals@), seq![a@, b@, c@]) == Some(v@),
            None => field(rows_view(names@), rows_view(vals@), seq![a@, b@, c@]) is None,
        },
{
    assert(seq![a@, b@, c@].drop_first() =~= seq![b@, c@]);
    match lookup_col(names, vals, a) {
        Some(v) => Some(v),
        None => field2(names, vals, b, c),
    }
}

fn text_or_empty(o: Option<Vec<char>>) -> (s: String)
    ensures
        s@ == or_empty(match o { Some(v) => Some(v@), None => None }),
{
    match o {
        Some(v) => string_from_chars(&v),
        None => String::new(),
    }
}

fn dash_text(o: Option<Vec<char>>) -> (s: String)
    ensures
        s@ == dash(or_empty(match o { Some(v) => Some(v@), None => None })),
{
    match o {
        Some(v) => {
            if v.len() == 1 && v[0] == '-' {
                assert(v@ =~= "-"@) by { reveal_strlit("-"); }
                String::new()
            } else {
                proof {
                    reveal_strlit("-");
                    if v@ == "-"@ {
                        assert(v@.len() == 1 && v@[0] == '-');
                    }
                }
                string_from_chars(&v)
            }
        },
        None => String::new(),
    }
}

fn nonempty_text(o: Option<Vec<char>>) -> (r: Option<String>)
    ensures
        opt_string_view(r) == nonempty(match o { Some(v) => Some(v@), None => None }),
{
    match o {
        Some(v) => if v.len() > 0 { Some(string_from_chars(&v)) } else { None },
        None => None,
    }
}

fn drop_commas(s: &Vec<char>) -> (r: Vec<char>)
    ensures
        r@ == drop_char(s@, ','),
{
    let mut out: Vec<char> = Vec::new();
    let mut i: usize = 0;
    while i < s.len()
        invariant
            i <= s@.len(),
            out@ == drop_char(s@.subrange(0, i as int), ','),
        decreases s@.len() - i,
    {
        assert(s@.subrange(0, i + 1).drop_last() =~= s@.subrange(0, i as int));
        if s[i] != ',' {
            out.push(s[i]);
        }
        i += 1;
    }
    assert(s@.subrange(0, s@.len() as int) =~= s@);
    out
}

/// Build a world from a row's named fields. Fails when the row has no hex or
/// no UWP.
pub fn world_from_row(names: &Vec<Vec<char>>, vals: &Vec<Vec<char>>) -> (r: Result<World, String>)
    requires
        names@.len() <= vals@.len(),
    ensures
        match r {
            Ok(w) => row_has_id(rows_view(names@), rows_view(vals@)) && world_fields(w, rows_view(names@), rows_view(vals@)),
            Err(m) => !row_has_id(rows_view(names@), rows_view(vals@)) && m@ == "missing Hex or UWP"@,
        },
{
    let hex = text_or_empty(field1(names, vals, "Hex"));
    let uwp = text_or_empty(field1(names, vals, "UWP"));
    if hex.as_str().is_empty() || uwp.as_str().is_empty() {
        return Err("missing Hex or UWP".to_owned());
    }
    let w_field = field2(names, vals, "W", "Worlds");
    let worlds: Option<u8> = match w_field {
        Some(v) => {
            let t = trim_chars(&v);
            match parse_int_chars(&t, false, 0, 255) {
                Some(n) => Some(n as u8),
                None => None,
            }
        },
        None => None,
    };
    let ru_field = field1(names, vals, "RU");
    let resource_units: Option<i32> = match ru_field {
        Some(v) => {
            let d = drop_commas(&v);
            let t = trim_chars(&d);
            match parse_int_chars(&t, true, i32::MIN as i64, i32::MAX as i64) {
                Some(n) => Some(n as i32),
                None => None,
            }
        },
        None => None,
    };
    let nob = match field2(names, vals, "N", "Nobility") {
        Some(v) => {
            let d = dash_text(Some(v));
            nonempty_text(Some(chars_of(d.as_str())))
        },
        None => None,
    };
    Ok(World {
        hex,
        name: text_or_empty(field1(names, vals, "Name")),
        uwp,
        bases: dash_text(field2(names, vals, "B", "Bases")),
        remarks: dash_text(field3(names, vals, "Remarks", "Trade Codes", "Comments")),
        zone: dash_text(field2(names, vals, "Z", "Zone")),
        pbg: text_or_empty(field1(names, vals, "PBG")),
        allegiance: text_or_empty(field3(names, vals, "A", "Al", "Allegiance")),
        stellar: text_or_empty(field3(names, vals, "Stellar", "Stars", "Stellar Data")),
        importance: nonempty_text(field3(names, vals, "{Ix}", "{ Ix }", "Ix")),
        economic: nonempty_text(field3(names, vals, "(Ex)", "( Ex )", "Ex")),
        cultural: nonempty_text(field3(names, vals, "[Cx]", "[ Cx ]", "Cx")),
        nobility: nob,
        worlds,
        resource_units,
    })
}

} // verus!

verus! {

// ── Tab-delimited files ─────────────────────────────────────────────────────

/// A line that is neither blank nor a `#` comment.
pub open spec fn is_tab_data_line(l: Seq<char>) -> bool {
    !(trim_start(l).len() > 0 && trim_start(l)[0] == '#') && trim(l).len() > 0
}

/// The data lines with their 1-based line numbers, in order.
pub open spec fn tab_data_lines(lines: Seq<Seq<char>>) -> Seq<(int, Seq<char>)>
    decreases lines.len(),
{
    if lines.len() == 0 {
        Seq::empty()
    } else {
        tab_data_lines(lines.drop_last()) + if is_tab_data_line(lines.last()) {
            seq![(lines.len() as int, lines.last())]
        } else {
            Seq::empty()
        }
    }
}

/// `"line <n>: "`.
pub open spec fn line_prefix(n: int) -> Seq<char> {
    "line "@ + nat_digits(n as nat) + ": "@
}

/// The note for a data row, or `None` when it is a world: a row whose column
/// count differs from the header's, or one with no hex or UWP.
pub open spec fn tab_row_note(header: Seq<Seq<char>>, n: int, line: Seq<char>) -> Option<Seq<char>> {
    let cols = split_on(line, '\t');
    if cols.len() != header.len() {
        Some(line_prefix(n) + nat_digits(cols.len()) + " columns, expected "@ + nat_digits(header.len()))
    } else if !row_has_id(header, cols) {
        Some(line_prefix(n) + "missing Hex or UWP"@)
    } else {
        None
    }
}

/// The notes of the rows that are skipped, in order.
pub open spec fn tab_notes(header: Seq<Seq<char>>, rows: Seq<(int, Seq<char>)>) -> Seq<Seq<char>>
    decreases rows.len(),
{
    if rows.len() == 0 {
        Seq::empty()
    } else {
        tab_notes(header, rows.drop_last()) + match tab_row_note(header, rows.last().0, rows.last().1) {
            Some(m) => seq![m],
            None => Seq::empty(),
        }
    }
}

/// The columns of the rows that are worlds, in order.
pub open spec fn tab_world_rows(header: Seq<Seq<char>>, rows: Seq<(int, Seq<char>)>) -> Seq<Seq<Seq<char>>>
    decreases rows.len(),
{
    if rows.len() == 0 {
        Seq::empty()
    } else {
        tab_world_rows(header, rows.drop_last()) + if tab_row_note(header, rows.last().0, rows.last().1) is None {
            seq![split_on(rows.last().1, '\t')]
        } else {
            Seq::empty()
        }
    }
}

/// `out` holds, in order, a world for each of `world_rows` (by the names in
/// `header`) and the notes `notes`.
pub open spec fn outcome_is(out: ParseOutcome, header: Seq<Seq<char>>, world_rows: Seq<Seq<Seq<char>>>, notes: Seq<Seq<char>>) -> bool {
    &&& out.warnings@.map_values(|m: String| m@) == notes
    &&& out.worlds@.len() == world_rows.len()
    &&& forall|k: int| 0 <= k < world_rows.len() ==> world_fields(#[trigger] out.worlds@[k], header, world_rows[k])
}

proof fn lemma_rows_split(header: Seq<Seq<char>>, rows: Seq<(int, Seq<char>)>)
    ensures
        tab_world_rows(header, rows).len() + tab_notes(header, rows).len() == rows.len(),
    decreases rows.len(),
{
    if rows.len() > 0 {
        lemma_rows_split(header, rows.drop_last());
    }
}

/// A tab-delimited file is refused exactly when it holds only blank lines and
/// `#` comments; otherwise every data row after the header gives either a
/// world or a note.
pub proof fn law_tab_rows_accounted(input: Seq<char>, r: Result<ParseOutcome, ParseError>)
    requires
        tab_parsed(input, r),
    ensures
        r is Err <==> tab_data_lines(text_lines(input)).len() == 0,
        r matches Ok(out) ==> out.worlds@.len() + out.warnings@.len() == tab_data_lines(text_lines(input)).len() - 1,
{
    if let Ok(out) = r {
        let rows = tab_data_lines(text_lines(input));
        let header = split_on(rows[0].1, '\t');
        lemma_rows_split(header, rows.drop_first());
        assert(out.warnings@.len() == out.warnings@.map_values(|m: String| m@).len());
    }
}

fn is_data_line_exec(l: &Vec<char>) -> (b: bool)
    ensures
        b == is_tab_data_line(l@),
{
    let (b, e) = trim_bounds(l);
    proof { lemma_trim_start_idx(l@); }
    let ts = slice_to_vec(l, b, l.len());
    let comment = ts.len() > 0 && ts[0] == '#';
    let blank = b >= e;
    !comment && !blank
}

/// `"line <n>: "` followed by `rest`.
fn line_note(n: usize, rest: &Vec<char>) -> (s: String)
    ensures
        s@ == line_prefix(n as int) + rest@,
{
    let mut v: Vec<char> = Vec::new();
    push_str_chars(&mut v, "line ");
    push_digits(&mut v, n as u128);
    push_str_chars(&mut v, ": ");
    let ghost pre = v@;
    let mut i: usize = 0;
    while i < rest.len()
        invariant
            i <= rest@.len(),
            v@ == pre + rest@.subrange(0, i as int),
        decreases rest@.len() - i,
    {
        v.push(rest[i]);
        i += 1;
        assert(v@ =~= pre + rest@.subrange(0, i as int));
    }
    assert(rest@.subrange(0, rest@.len() as int) =~= rest@);
    assert(v@ =~= line_prefix(n as int) + rest@);
    string_from_chars(&v)
}

/// What [`parse_tab`] gives for `input`: no header row is an error; else the
/// worlds and notes of the rows after the header.
pub open spec fn tab_parsed(input: Seq<char>, r: Result<ParseOutcome, ParseError>) -> bool {
    match r {
        Err(e) => tab_data_lines(text_lines(input)).len() == 0
            && e.message@ == "no header row (file is empty or all comments)"@,
        Ok(out) => {
            let rows = tab_data_lines(text_lines(input));
            let header = split_on(rows[0].1, '\t');
            &&& rows.len() > 0
            &&& outcome_is(out, header, tab_world_rows(header, rows.drop_first()), tab_notes(header, rows.drop_first()))
        },
    }
}

/// Parse a tab-delimited Second Survey file. Blank lines and `#` comments are
/// skipped; the first remaining line is the header, whose names say which
/// column holds which field. Rows with the wrong number of columns, or with no
/// hex or UWP, are skipped with a note.
pub fn parse_tab(input: &str) -> (r: Result<ParseOutcome, ParseError>)
    ensures
        tab_parsed(input@, r),
{
    let lines = lines_of(input);
    let ghost lv = rows_view(lines@);
    let ghost all = tab_data_lines(lv);
    // Find the header.
    let mut i: usize = 0;
    assert(tab_data_lines(lv.subrange(0, 0)) =~= Seq::<(int, Seq<char>)>::empty());
    while i < lines.len() && !is_data_line_exec(&lines[i])
        invariant
            i <= lines@.len(),
            lv == rows_view(lines@),
            tab_data_lines(lv.subrange(0, i as int)) =~= Seq::<(int, Seq<char>)>::empty(),
        decreases lines@.len() - i,
    {
        assert(lv.subrange(0, i + 1).drop_last() =~= lv.subrange(0, i as int));
        i += 1;
    }
    if i == lines.len() {
        assert(lv.subrange(0, lv.len() as int) =~= lv);
        return Err(ParseError { message: "no header row (file is empty or all comments)".to_owned() });
    }
    let header = split_chars(&lines[i], '\t');
    let ghost hv = rows_view(header@);
    assert(lv.subrange(0, i + 1).drop_last() =~= lv.subrange(0, i as int));
    assert(tab_data_lines(lv.subrange(0, i + 1)) =~= seq![(i + 1, lv[i as int])]);
    let mut out = ParseOutcome { worlds: Vec::new(), warnings: Vec::new() };
    let mut j: usize = i + 1;
    proof {
        let rows = tab_data_lines(lv.subrange(0, j as int));
        assert(rows.drop_first() =~= Seq::<(int, Seq<char>)>::empty());
        assert(out.warnings@.map_values(|m: String| m@) =~= Seq::<Seq<char>>::empty());
    }
    while j < lines.len()
        invariant
            i < j <= lines@.len(),
            lv == rows_view(lines@),
            hv == rows_view(header@),
            hv == split_on(lv[i as int], '\t'),
            tab_data_lines(lv.subrange(0, j as int)).len() > 0,
            tab_data_lines(lv.subrange(0, j as int))[0] == (i + 1, lv[i as int]),
            outcome_is(out, hv, tab_world_rows(hv, tab_data_lines(lv.subrange(0, j as int)).drop_first()),
                tab_notes(hv, tab_data_lines(lv.subrange(0, j as int)).drop_first())),
        decreases lines@.len() - j,
    {
        let ghost prev_rows = tab_data_lines(lv.subrange(0, j as int));
        assert(lv.subrange(0, j + 1).drop_last() =~= lv.subrange(0, j as int));
        assert(lv.subrange(0, j + 1).last() == lv[j as int]);
        let ghost before_notes = out.warnings@.map_values(|m: String| m@);
        let ghost before_worlds = out.worlds@;
        if is_data_line_exec(&lines[j]) {
            let ghost n = j + 1;
            let ghost new_rows = tab_data_lines(lv.subrange(0, j + 1));
            assert(new_rows =~= prev_rows.push((n as int, lv[j as int])));
            assert(new_rows.drop_first() =~= prev_rows.drop_first().push((n as int, lv[j as int])));
            assert(new_rows.drop_first().drop_last() =~= prev_rows.drop_first());
            let cols = split_chars(&lines[j], '\t');
            let ghost cv = rows_view(cols@);
            if cols.len() != header.len() {
                let mut rest: Vec<char> = Vec::new();
                push_digits(&mut rest, cols.len() as u128);
                push_str_chars(&mut rest, " columns, expected ");
                push_digits(&mut rest, header.len() as u128);
                let note = line_note(j + 1, &rest);
                assert(note@ =~= line_prefix(n as int) + nat_digits(cv.len()) + " columns, expected "@ + nat_digits(hv.len()));
                out.warnings.push(note);
                assert(out.warnings@.map_values(|m: String| m@) =~= before_notes.push(note@));
                assert(tab_row_note(hv, n as int, lv[j as int]) == Some(note@));
                assert(tab_notes(hv, new_rows.drop_first()) =~= tab_notes(hv, prev_rows.drop_first()).push(note@));
                assert(tab_world_rows(hv, new_rows.drop_first()) =~= tab_world_rows(hv, prev_rows.drop_first()));
            } else {
                match world_from_row(&header, &cols) {
                    Ok(w) => {
                        assert(tab_row_note(hv, n as int, lv[j as int]) is None);
                        assert(tab_notes(hv, new_rows.drop_first()) =~= tab_notes(hv, prev_rows.drop_first()));
                        assert(tab_world_rows(hv, new_rows.drop_first()) =~= tab_world_rows(hv, prev_rows.drop_first()).push(cv));
                        out.worlds.push(w);
                        assert(out.warnings@.map_values(|m: String| m@) =~= before_notes);
                        assert forall|k: int| 0 <= k < out.worlds@.len() implies world_fields(#[trigger] out.worlds@[k], hv,
                            tab_world_rows(hv, new_rows.drop_first())[k]) by {
                            if k < before_worlds.len() {
                                assert(out.worlds@[k] == before_worlds[k]);
                            }
                        }
                    },
                    Err(m) => {
                        let mc = chars_of(m.as_str());
                        let note = line_note(j + 1, &mc);
                        assert(tab_row_note(hv, n as int, lv[j as int]) == Some(note@));
                        assert(tab_notes(hv, new_rows.drop_first()) =~= tab_notes(hv, prev_rows.drop_first()).push(note@));
                        assert(tab_world_rows(hv, new_rows.drop_first()) =~= tab_world_rows(hv, prev_rows.drop_first()));
                        out.warnings.push(note);
                        assert(out.warnings@.map_values(|m: String| m@) =~= before_notes.push(note@));
                    },
                }
            }
        } else {
            assert(tab_data_lines(lv.subrange(0, j + 1)) =~= prev_rows);
        }
        j += 1;
    }
    assert(lv.subrange(0, lv.len() as int) =~= lv);
    Ok(out)
}

} // verus!

verus! {

// ── Column-delimited files ──────────────────────────────────────────────────

/// The column spans `(start, length)` of a separator line: one per run of `-`,
/// for the runs of `sep[i..]` (`start` is where the run being read began, or
/// `-1` between runs).
pub open spec fn spans_from(sep: Seq<char>, i: int, start: int) -> Seq<(int, int)>
    decreases sep.len() - i,
{
    if i < 0 || i >= sep.len() {
        if 0 <= start <= sep.len() { seq![(start, sep.len() - start)] } else { Seq::empty() }
    } else if sep[i] == '-' {
        spans_from(sep, i + 1, if start >= 0 { start } else { i })
    } else if 0 <= start <= i {
        seq![(start, i - start)] + spans_from(sep, i + 1, -1)
    } else {
        spans_from(sep, i + 1, -1)
    }
}

pub open spec fn column_spans_of(sep: Seq<char>) -> Seq<(int, int)> {
    spans_from(sep, 0, -1)
}

pub open spec fn min_int(a: int, b: int) -> int {
    if a <= b { a } else { b }
}

/// The trimmed header text over a column (empty when the header is shorter).
pub open spec fn column_name(header: Seq<char>, start: int, len: int) -> Seq<char> {
    let end = min_int(start + len, header.len() as int);
    if start <= end { trim(header.subrange(start, end)) } else { Seq::empty() }
}

/// The trimmed text of a row over a column (empty past the row's end).
pub open spec fn column_cell(row: Seq<char>, start: int, len: int) -> Seq<char> {
    if start >= row.len() { Seq::empty() } else { trim(row.subrange(start, min_int(start + len, row.len() as int))) }
}

pub open spec fn column_names(header: Seq<char>, spans: Seq<(int, int)>) -> Seq<Seq<char>> {
    spans.map_values(|sp: (int, int)| column_name(header, sp.0, sp.1))
}

pub open spec fn column_cells(row: Seq<char>, spans: Seq<(int, int)>) -> Seq<Seq<char>> {
    spans.map_values(|sp: (int, int)| column_cell(row, sp.0, sp.1))
}

/// Columns `(name, start, length)` from the dash separator line: each run of
/// `-` is a column, named by the header text above it.
fn column_spans(separator: &Vec<char>, header: &Vec<char>) -> (r: Vec<(Vec<char>, usize, usize)>)
    ensures
        r@.len() == column_spans_of(separator@).len(),
        forall|k: int| 0 <= k < r@.len() ==> {
            &&& (#[trigger] r@[k]).1 as int == column_spans_of(separator@)[k].0
            &&& r@[k].2 as int == column_spans_of(separator@)[k].1
            &&& r@[k].0@ == column_name(header@, r@[k].1 as int, r@[k].2 as int)
        },
        forall|k: int| 0 <= k < r@.len() ==> (#[trigger] r@[k]).1 + r@[k].2 <= separator@.len(),
{
    let ghost spans = column_spans_of(separator@);
    let mut out: Vec<(Vec<char>, usize, usize)> = Vec::new();
    let mut i: usize = 0;
    let mut start: usize = 0;
    let mut in_run = false;
    while i < separator.len()
        invariant
            i <= separator@.len(),
            spans == column_spans_of(separator@),
            in_run ==> start < i,
            spans == out@.map_values(|c: (Vec<char>, usize, usize)| (c.1 as int, c.2 as int))
                + spans_from(separator@, i as int, if in_run { start as int } else { -1 }),
            forall|k: int| 0 <= k < out@.len() ==> (#[trigger] out@[k]).0@ == column_name(header@, out@[k].1 as int, out@[k].2 as int),
            forall|k: int| 0 <= k < out@.len() ==> (#[trigger] out@[k]).1 + out@[k].2 <= separator@.len(),
        decreases separator@.len() - i,
    {
        if separator[i] == '-' {
            if !in_run {
                in_run = true;
                start = i;
            }
        } else {
            let ghost before = out@.map_values(|c: (Vec<char>, usize, usize)| (c.1 as int, c.2 as int));
            if in_run {
                let len = i - start;
                let name = column_name_text(header, start, len);
                out.push((name, start, len));
                assert(out@.map_values(|c: (Vec<char>, usize, usize)| (c.1 as int, c.2 as int)) =~= before.push((start as int, len as int)));
                assert(before + spans_from(separator@, i as int, start as int)
                    =~= out@.map_values(|c: (Vec<char>, usize, usize)| (c.1 as int, c.2 as int)) + spans_from(separator@, i + 1, -1));
            }
            in_run = false;
        }
        i += 1;
    }
    let ghost before = out@.map_values(|c: (Vec<char>, usize, usize)| (c.1 as int, c.2 as int));
    if in_run {
        let len = i - start;
        let name = column_name_text(header, start, len);
        out.push((name, start, len));
        assert(out@.map_values(|c: (Vec<char>, usize, usize)| (c.1 as int, c.2 as int)) =~= before.push((start as int, len as int)));
    } else {
        assert(before + spans_from(separator@, i as int, -1) =~= before);
    }
    out
}

fn column_name_text(header: &Vec<char>, start: usize, len: usize) -> (r: Vec<char>)
    ensures
        r@ == column_name(header@, start as int, len as int),
{
    let end = if len < header.len() && start < header.len() - len { start + len } else { header.len() };
    if start <= end {
        let piece = slice_to_vec(header, start, end);
        trim_chars(&piece)
    } else {
        Vec::new()
    }
}

/// A line of the fixed-width format with trailing whitespace removed, kept
/// when it is neither empty nor a `#` comment; with its 1-based line number.
pub open spec fn column_data_lines(lines: Seq<Seq<char>>) -> Seq<(int, Seq<char>)>
    decreases lines.len(),
{
    if lines.len() == 0 {
        Seq::empty()
    } else {
        let l = trim_end(lines.last());
        column_data_lines(lines.drop_last()) + if l.len() > 0 && l[0] != '#' {
            seq![(lines.len() as int, l)]
        } else {
            Seq::empty()
        }
    }
}

/// The cells of the data rows that are worlds, in order.
pub open spec fn column_world_rows(names: Seq<Seq<char>>, spans: Seq<(int, int)>, rows: Seq<(int, Seq<char>)>) -> Seq<Seq<Seq<char>>>
    decreases rows.len(),
{
    if rows.len() == 0 {
        Seq::empty()
    } else {
        column_world_rows(names, spans, rows.drop_last()) + if row_has_id(names, column_cells(rows.last().1, spans)) {
            seq![column_cells(rows.last().1, spans)]
        } else {
            Seq::empty()
        }
    }
}

/// The notes of the data rows that are not worlds, in order.
pub open spec fn column_notes(names: Seq<Seq<char>>, spans: Seq<(int, int)>, rows: Seq<(int, Seq<char>)>) -> Seq<Seq<char>>
    decreases rows.len(),
{
    if rows.len() == 0 {
        Seq::empty()
    } else {
        column_notes(names, spans, rows.drop_last()) + if row_has_id(names, column_cells(rows.last().1, spans)) {
            Seq::empty()
        } else {
            seq![line_prefix(rows.last().0) + "missing Hex or UWP"@]
        }
    }
}

fn trim_end_chars(l: &Vec<char>) -> (r: Vec<char>)
    ensures
        r@ == trim_end(l@),
{
    let (b, e) = trim_bounds(l);
    proof { crate::text::lemma_trim_end_idx(l@); }
    slice_to_vec(l, 0, e)
}

fn cell_text(row: &Vec<char>, start: usize, len: usize) -> (r: Vec<char>)
    ensures
        r@ == column_cell(row@, start as int, len as int),
{
    if start >= row.len() {
        Vec::new()
    } else {
        let end = if len < row.len() - start { start + len } else { row.len() };
        let piece = slice_to_vec(row, start, end);
        trim_chars(&piece)
    }
}

/// What [`parse_column`] gives for `input`: no header row, or no separator
/// row, is an error; else the worlds and notes of the rows after them.
pub open spec fn column_parsed(input: Seq<char>, r: Result<ParseOutcome, ParseError>) -> bool {
    match r {
        Err(e) => {
            let rows = column_data_lines(text_lines(input));
            ||| rows.len() == 0 && e.message@ == "no header row"@
            ||| rows.len() == 1 && e.message@ == "no column-separator row"@
        },
        Ok(out) => {
            let rows = column_data_lines(text_lines(input));
            let spans = column_spans_of(rows[1].1);
            let names = column_names(rows[0].1, spans);
            &&& rows.len() >= 2
            &&& outcome_is(out, names, column_world_rows(names, spans, rows.subrange(2, rows.len() as int)),
                column_notes(names, spans, rows.subrange(2, rows.len() as int)))
        },
    }
}

/// Parse the fixed-width Second Survey format: a header line, a separator of
/// dash runs that fixes each column's position, then the rows. Blank lines
/// and `#` comments are skipped; rows with no hex or UWP are skipped with a
/// note.
pub fn parse_column(input: &str) -> (r: Result<ParseOutcome, ParseError>)
    ensures
        column_parsed(input@, r),
{
    let raw = lines_of(input);
    let ghost rv = rows_view(raw@);
    // Trimmed data lines with their numbers.
    let mut rows: Vec<(usize, Vec<char>)> = Vec::new();
    let mut i: usize = 0;
    while i < raw.len()
        invariant
            i <= raw@.len(),
            rv == rows_view(raw@),
            rows@.map_values(|x: (usize, Vec<char>)| (x.0 as int, x.1@)) == column_data_lines(rv.subrange(0, i as int)),
            forall|k: int| 0 <= k < rows@.len() ==> (#[trigger] rows@[k]).0 <= i,
        decreases raw@.len() - i,
    {
        assert(rv.subrange(0, i + 1).drop_last() =~= rv.subrange(0, i as int));
        let l = trim_end_chars(&raw[i]);
        let ghost before = rows@.map_values(|x: (usize, Vec<char>)| (x.0 as int, x.1@));
        if l.len() > 0 && l[0] != '#' {
            rows.push((i + 1, l));
            assert(rows@.map_values(|x: (usize, Vec<char>)| (x.0 as int, x.1@)) =~= before.push(((i + 1) as int, trim_end(rv[i as int]))));
        } else {
            assert(before + Seq::<(int, Seq<char>)>::empty() =~= before);
        }
        i += 1;
    }
    assert(rv.subrange(0, rv.len() as int) =~= rv);
    let ghost all = column_data_lines(rv);
    assert(rows@.map_values(|x: (usize, Vec<char>)| (x.0 as int, x.1@)).len() == rows@.len());
    if rows.len() == 0 {
        return Err(ParseError { message: "no header row".to_owned() });
    }
    if rows.len() == 1 {
        return Err(ParseError { message: "no column-separator row".to_owned() });
    }
    assert(all[0].1 == rows@[0].1@);
    assert(all[1].1 == rows@[1].1@);
    let columns = column_spans(&rows[1].1, &rows[0].1);
    let ghost spans = column_spans_of(all[1].1);
    let mut names: Vec<Vec<char>> = Vec::new();
    let mut c: usize = 0;
    while c < columns.len()
        invariant
            c <= columns@.len(),
            columns@.len() == spans.len(),
            spans == column_spans_of(all[1].1),
            forall|k: int| 0 <= k < columns@.len() ==> {
                &&& (#[trigger] columns@[k]).1 as int == spans[k].0
                &&& columns@[k].2 as int == spans[k].1
                &&& columns@[k].0@ == column_name(all[0].1, columns@[k].1 as int, columns@[k].2 as int)
            },
            rows_view(names@) == column_names(all[0].1, spans.subrange(0, c as int)),
        decreases columns@.len() - c,
    {
        let ghost before = rows_view(names@);
        names.push(slice_to_vec(&columns[c].0, 0, columns[c].0.len()));
        assert(columns@[c as int].0@.subrange(0, columns@[c as int].0@.len() as int) =~= columns@[c as int].0@);
        assert(rows_view(names@) =~= before.push(column_name(all[0].1, spans[c as int].0, spans[c as int].1)));
        c += 1;
        assert(column_names(all[0].1, spans.subrange(0, c as int))
            =~= column_names(all[0].1, spans.subrange(0, c - 1)).push(column_name(all[0].1, spans[c - 1].0, spans[c - 1].1)));
    }
    assert(spans.subrange(0, spans.len() as int) =~= spans);
    let ghost nv = rows_view(names@);
    let mut out = ParseOutcome { worlds: Vec::new(), warnings: Vec::new() };
    let mut j: usize = 2;
    assert(all.subrange(2, 2) =~= Seq::<(int, Seq<char>)>::empty());
    assert(out.warnings@.map_values(|m: String| m@) =~= Seq::<Seq<char>>::empty());
    while j < rows.len()
        invariant
            2 <= j <= rows@.len(),
            all.len() == rows@.len(),
            all == rows@.map_values(|x: (usize, Vec<char>)| (x.0 as int, x.1@)),
            nv == rows_view(names@),
            nv == column_names(all[0].1, spans),
            names@.len() == spans.len(),
            columns@.len() == spans.len(),
            forall|k: int| 0 <= k < columns@.len() ==> {
                &&& (#[trigger] columns@[k]).1 as int == spans[k].0
                &&& columns@[k].2 as int == spans[k].1
            },
            forall|k: int| 0 <= k < columns@.len() ==> (#[trigger] columns@[k]).1 + columns@[k].2 <= rows@[1].1@.len(),
            outcome_is(out, nv, column_world_rows(nv, spans, all.subrange(2, j as int)), column_notes(nv, spans, all.subrange(2, j as int))),
        decreases rows@.len() - j,
    {
        let line = &rows[j].1;
        let mut vals: Vec<Vec<char>> = Vec::new();
        let mut c: usize = 0;
        while c < columns.len()
            invariant
                c <= columns@.len(),
                columns@.len() == spans.len(),
                forall|k: int| 0 <= k < columns@.len() ==> {
                    &&& (#[trigger] columns@[k]).1 as int == spans[k].0
                    &&& columns@[k].2 as int == spans[k].1
                },
                forall|k: int| 0 <= k < columns@.len() ==> (#[trigger] columns@[k]).1 + columns@[k].2 <= rows@[1].1@.len(),
                rows_view(vals@) == column_cells(line@, spans.subrange(0, c as int)),
            decreases columns@.len() - c,
        {
            let ghost before = rows_view(vals@);
            let cell = cell_text(line, columns[c].1, columns[c].2);
            vals.push(cell);
            assert(rows_view(vals@) =~= before.push(column_cell(line@, spans[c as int].0, spans[c as int].1)));
            c += 1;
            assert(column_cells(line@, spans.subrange(0, c as int))
                =~= column_cells(line@, spans.subrange(0, c - 1)).push(column_cell(line@, spans[c - 1].0, spans[c - 1].1)));
        }
        let ghost cv = rows_view(vals@);
        assert(cv == column_cells(all[j as int].1, spans));
        let ghost prev = all.subrange(2, j as int);
        let ghost next = all.subrange(2, j + 1);
        assert(next.drop_last() =~= prev);
        assert(next.last() == all[j as int]);
        let ghost before_notes = out.warnings@.map_values(|m: String| m@);
        let ghost before_worlds = out.worlds@;
        match world_from_row(&names, &vals) {
            Ok(w) => {
                out.worlds.push(w);
                assert(column_world_rows(nv, spans, next) =~= column_world_rows(nv, spans, prev).push(cv));
                assert(column_notes(nv, spans, next) =~= column_notes(nv, spans, prev));
                assert(out.warnings@.map_values(|m: String| m@) =~= before_notes);
                assert forall|k: int| 0 <= k < out.worlds@.len() implies world_fields(#[trigger] out.worlds@[k], nv,
                    column_world_rows(nv, spans, next)[k]) by {
                    if k < before_worlds.len() {
                        assert(out.worlds@[k] == before_worlds[k]);
                    }
                }
            },
            Err(m) => {
                let mc = chars_of(m.as_str());
                let note = line_note(rows[j].0, &mc);
                out.warnings.push(note);
                assert(out.warnings@.map_values(|m: String| m@) =~= before_notes.push(note@));
                assert(column_world_rows(nv, spans, next) =~= column_world_rows(nv, spans, prev));
                assert(column_notes(nv, spans, next) =~= column_notes(nv, spans, prev).push(note@));
            },
        }
        j += 1;
    }
    assert(all.subrange(2, all.len() as int) =~= all.subrange(2, rows@.len() as int));
    Ok(out)
}

} // verus!

verus! {

// ── Legacy SEC files ────────────────────────────────────────────────────────

/// The pattern of a SEC world line: name, hex, UWP, base, remarks, optional
/// zone, PBG, allegiance, and the stellar data after it.
pub open spec fn sec_world_pattern() -> Seq<char> {
    r"^[ \t]*(?P<name>.*)[ \t]*(?P<hex>[0-9]{4})[ \t]{1,2}(?P<uwp>[ABCDEX?][0-9A-Z?]{6}-[0-9A-Z?])[ \t]{1,2}(?P<base>[A-Zr1-9* -])[ \t]{1,2}(?P<codes>.{10,}?)(?:[ \t]+(?P<zone>[GARBFU -]))?[ \t]{1,2}(?P<pbg>[0-9X?][0-9A-FX?][0-9A-FX?])[ \t]{1,2}(?P<allegiance>[A-Za-z0-9][A-Za-z0-9?-]|--)[ \t]*(?P<rest>.*?)[ \t]*$"@
}

/// A UWP anywhere on a line: only such lines can be worlds.
pub open spec fn uwp_pattern() -> Seq<char> {
    r"[ABCDEX?][0-9A-Z?]{6}-[0-9A-Z?]"@
}

/// Group `k`, trimmed.
pub open spec fn sec_group(caps: Seq<Option<Seq<char>>>, k: int) -> Seq<char> {
    trim(group(caps, k))
}

/// `s` without its trailing `.` and `+` characters.
pub open spec fn strip_name_marks(s: Seq<char>) -> Seq<char>
    decreases s.len(),
{
    if s.len() > 0 && (s.last() == '.' || s.last() == '+') { strip_name_marks(s.drop_last()) } else { s }
}

/// A placeholder name like `A-1` … `P-99`.
pub open spec fn is_placeholder(name: Seq<char>) -> bool {
    3 <= name.len() <= 4 && 'A' <= name[0] && name[0] <= 'P' && name[1] == '-'
        && (forall|i: int| 2 <= i < name.len() ==> '0' <= #[trigger] name[i] && name[i] <= '9')
}

/// The current base letters for a legacy one-letter base code (two codes
/// read differently for Solomani allegiances, one for Sword Worlds ones);
/// empty for an unknown code.
pub open spec fn legacy_bases(alleg: Seq<char>, code: char) -> Seq<char> {
    if has_prefix(alleg, "So"@) && code == 'F' {
        "K"@
    } else if has_prefix(alleg, "So"@) && code == 'K' {
        "KM"@
    } else if has_prefix(alleg, "Sc"@) && code == 'H' {
        "H"@
    } else {
        match code {
            '2' | 'A' => "NS"@,
            'B' => "NW"@,
            'C' => "C"@,
            'D' | 'Y' => "D"@,
            'E' => "E"@,
            'F' => "KM"@,
            'G' | 'J' | 'K' | 'L' | 'P' => "K"@,
            'H' => "CK"@,
            'M' | 'Q' => "M"@,
            'N' => "N"@,
            'O' => "O"@,
            'R' => "R"@,
            'S' => "S"@,
            'T' => "T"@,
            'U' => "RT"@,
            'V' => "V"@,
            'W' | 'X' => "W"@,
            'Z' => "KM"@,
            'I' => "I"@,
            _ => Seq::empty(),
        }
    }
}

/// `w` is the world a SEC line's groups describe.
pub open spec fn sec_world(w: World, caps: Seq<Option<Seq<char>>>) -> bool {
    let hex = sec_group(caps, 2);
    let alleg = sec_group(caps, 8);
    let name0 = trim(strip_name_marks(sec_group(caps, 1)));
    let base = sec_group(caps, 4);
    let z = sec_group(caps, 6);
    &&& w.hex@ == hex
    &&& w.name@ == (if name0 == hex || is_placeholder(name0) { Seq::empty() } else { name0 })
    &&& w.uwp@ == sec_group(caps, 3)
    &&& w.bases@ == (if base.len() > 0 && base[0] != '-' && base[0] != '*' { legacy_bases(alleg, base[0]) } else { Seq::empty() })
    &&& w.remarks@ == sec_group(caps, 5)
    &&& w.zone@ == (if z == "-"@ || z == "G"@ || z == "U"@ { Seq::empty() } else { z })
    &&& w.pbg@ == sec_group(caps, 7)
    &&& w.allegiance@ == alleg
    &&& w.stellar@ == sec_group(caps, 9)
    &&& w.importance is None && w.economic is None && w.cultural is None && w.nobility is None
    &&& w.worlds is None && w.resource_units is None
}

/// Lines that cannot be worlds: blank, comment (`#`, `$`, `@`), or without a UWP.
pub open spec fn sec_skipped(line: Seq<char>) -> bool {
    let t = trim_start(line);
    t.len() == 0 || t[0] == '#' || t[0] == '$' || t[0] == '@' || regex_captures(uwp_pattern(), line) is None
}

/// The notes of the lines that look like worlds but do not parse.
pub open spec fn sec_notes(lines: Seq<Seq<char>>) -> Seq<Seq<char>>
    decreases lines.len(),
{
    if lines.len() == 0 {
        Seq::empty()
    } else {
        let l = lines.last();
        sec_notes(lines.drop_last()) + if !sec_skipped(l) && regex_captures(sec_world_pattern(), l) is None {
            seq![line_prefix(lines.len() as int) + "SEC parse failed: "@ + l]
        } else {
            Seq::empty()
        }
    }
}

/// The groups of the lines that parse as worlds.
pub open spec fn sec_world_groups(lines: Seq<Seq<char>>) -> Seq<Seq<Option<Seq<char>>>>
    decreases lines.len(),
{
    if lines.len() == 0 {
        Seq::empty()
    } else {
        let l = lines.last();
        sec_world_groups(lines.drop_last()) + if !sec_skipped(l) && regex_captures(sec_world_pattern(), l) is Some {
            seq![regex_captures(sec_world_pattern(), l).unwrap()]
        } else {
            Seq::empty()
        }
    }
}

/// Is `name` a placeholder like `A-1` … `P-99`?
pub fn is_placeholder_name(name: &str) -> (b: bool)
    ensures
        b == is_placeholder(name@),
{
    let cs = chars_of(name);
    if cs.len() < 3 || cs.len() > 4 || !('A' <= cs[0] && cs[0] <= 'P') || cs[1] != '-' {
        return false;
    }
    let mut i: usize = 2;
    while i < cs.len()
        invariant
            2 <= i <= cs@.len(),
            cs@ == name@,
            forall|k: int| 2 <= k < i ==> '0' <= #[trigger] cs@[k] && cs@[k] <= '9',
        decreases cs@.len() - i,
    {
        if !('0' <= cs[i] && cs[i] <= '9') {
            return false;
        }
        i += 1;
    }
    true
}

/// The current base letters for a legacy one-letter base code.
pub fn decode_legacy_bases(allegiance: &str, code: char) -> (r: String)
    ensures
        r@ == legacy_bases(allegiance@, code),
{
    let so = crate::world_util::starts_with_str(allegiance, "So");
    let sc = crate::world_util::starts_with_str(allegiance, "Sc");
    let s: &str = if so && code == 'F' {
        "K"
    } else if so && code == 'K' {
        "KM"
    } else if sc && code == 'H' {
        "H"
    } else {
        match code {
            '2' | 'A' => "NS",
            'B' => "NW",
            'C' => "C",
            'D' | 'Y' => "D",
            'E' => "E",
            'F' => "KM",
            'G' | 'J' | 'K' | 'L' | 'P' => "K",
            'H' => "CK",
            'M' | 'Q' => "M",
            'N' => "N",
            'O' => "O",
            'R' => "R",
            'S' => "S",
            'T' => "T",
            'U' => "RT",
            'V' => "V",
            'W' | 'X' => "W",
            'Z' => "KM",
            'I' => "I",
            _ => "",
        }
    };
    proof { reveal_strlit(""); }
    s.to_owned()
}

fn strip_name_marks_chars(s: &Vec<char>) -> (r: Vec<char>)
    ensures
        r@ == strip_name_marks(s@),
{
    let mut e: usize = s.len();
    assert(s@.subrange(0, s@.len() as int) =~= s@);
    while e > 0 && (s[e - 1] == '.' || s[e - 1] == '+')
        invariant
            e <= s@.len(),
            strip_name_marks(s@) == strip_name_marks(s@.subrange(0, e as int)),
        decreases e,
    {
        assert(s@.subrange(0, e as int).drop_last() =~= s@.subrange(0, e - 1));
        e -= 1;
    }
    slice_to_vec(s, 0, e)
}

fn group_trimmed(caps: &Vec<Option<String>>, k: usize) -> (r: Vec<char>)
    ensures
        r@ == sec_group(caps@.map_values(|g: Option<String>| crate::world_util::opt_string_view(g)), k as int),
{
    let t: Vec<char> = if k < caps.len() {
        match &caps[k] {
            Some(s) => chars_of(s.as_str()),
            None => Vec::new(),
        }
    } else {
        Vec::new()
    };
    trim_chars(&t)
}

/// The world a SEC line's regex groups describe (see [`sec_world`]).
pub fn world_from_sec_groups(caps: &Vec<Option<String>>) -> (w: World)
    ensures
        sec_world(w, caps@.map_values(|g: Option<String>| crate::world_util::opt_string_view(g))),
{
    let ghost cv = caps@.map_values(|g: Option<String>| crate::world_util::opt_string_view(g));
    let hex = group_trimmed(caps, 2);
    let alleg = group_trimmed(caps, 8);
    let raw_name = group_trimmed(caps, 1);
    let stripped = strip_name_marks_chars(&raw_name);
    let name0 = trim_chars(&stripped);
    let name0_s = string_from_chars(&name0);
    let hex_s = string_from_chars(&hex);
    let name: String = if str_eq(name0_s.as_str(), hex_s.as_str()) || is_placeholder_name(name0_s.as_str()) {
        String::new()
    } else {
        name0_s
    };
    let alleg_s = string_from_chars(&alleg);
    let base = group_trimmed(caps, 4);
    let bases: String = if base.len() > 0 && base[0] != '-' && base[0] != '*' {
        decode_legacy_bases(alleg_s.as_str(), base[0])
    } else {
        String::new()
    };
    let z = group_trimmed(caps, 6);
    let z_s = string_from_chars(&z);
    let zone: String = if str_eq(z_s.as_str(), "-") || str_eq(z_s.as_str(), "G") || str_eq(z_s.as_str(), "U") {
        String::new()
    } else {
        z_s
    };
    World {
        hex: hex_s,
        name,
        uwp: string_from_chars(&group_trimmed(caps, 3)),
        bases,
        remarks: string_from_chars(&group_trimmed(caps, 5)),
        zone,
        pbg: string_from_chars(&group_trimmed(caps, 7)),
        allegiance: alleg_s,
        stellar: string_from_chars(&group_trimmed(caps, 9)),
        importance: None,
        economic: None,
        cultural: None,
        nobility: None,
        worlds: None,
        resource_units: None,
    }
}

/// What [`parse_sec`] gives for `input`: always the worlds of the lines that
/// match the SEC pattern, and a note for each line that does not.
pub open spec fn sec_parsed(input: Seq<char>, r: Result<ParseOutcome, ParseError>) -> bool {
    r matches Ok(out) && {
        let lines = text_lines(input);
        let groups = sec_world_groups(lines);
        &&& out.warnings@.map_values(|m: String| m@) == sec_notes(lines)
        &&& out.worlds@.len() == groups.len()
        &&& forall|k: int| 0 <= k < groups.len() ==> sec_world(#[trigger] out.worlds@[k], groups[k])
    }
}

/// Parse the legacy SEC format: each line that holds a UWP is matched against
/// the SEC world pattern; lines that do not match are skipped with a note.
pub fn parse_sec(input: &str) -> (r: Result<ParseOutcome, ParseError>)
    ensures
        sec_parsed(input@, r),
{
    let lines = lines_of(input);
    let ghost lv = rows_view(lines@);
    let mut worlds: Vec<World> = Vec::new();
    let mut warnings: Vec<String> = Vec::new();
    let mut i: usize = 0;
    assert(warnings@.map_values(|m: String| m@) =~= Seq::<Seq<char>>::empty());
    while i < lines.len()
        invariant
            i <= lines@.len(),
            lv == rows_view(lines@),
            warnings@.map_values(|m: String| m@) == sec_notes(lv.subrange(0, i as int)),
            worlds@.len() == sec_world_groups(lv.subrange(0, i as int)).len(),
            forall|k: int| 0 <= k < worlds@.len() ==> sec_world(#[trigger] worlds@[k], sec_world_groups(lv.subrange(0, i as int))[k]),
        decreases lines@.len() - i,
    {
        let ghost prev = lv.subrange(0, i as int);
        let ghost next = lv.subrange(0, i + 1);
        assert(next.drop_last() =~= prev);
        assert(next.last() == lv[i as int]);
        let line = &lines[i];
        let line_s = string_from_chars(line);
        let (b, e) = trim_bounds(line);
        proof { lemma_trim_start_idx(line@); }
        let skip_mark = b < line.len() && (line[b] == '#' || line[b] == '$' || line[b] == '@');
        let ghost before_w = worlds@;
        let ghost before_n = warnings@.map_values(|m: String| m@);
        if b >= line.len() || skip_mark {
            assert(sec_skipped(lv[i as int]));
            assert(sec_notes(next) =~= sec_notes(prev));
            assert(sec_world_groups(next) =~= sec_world_groups(prev));
        } else {
            let has_uwp = captures(r"[ABCDEX?][0-9A-Z?]{6}-[0-9A-Z?]", line_s.as_str());
            if has_uwp.is_none() {
                assert(sec_notes(next) =~= sec_notes(prev));
                assert(sec_world_groups(next) =~= sec_world_groups(prev));
            } else {
                match captures(r"^[ \t]*(?P<name>.*)[ \t]*(?P<hex>[0-9]{4})[ \t]{1,2}(?P<uwp>[ABCDEX?][0-9A-Z?]{6}-[0-9A-Z?])[ \t]{1,2}(?P<base>[A-Zr1-9* -])[ \t]{1,2}(?P<codes>.{10,}?)(?:[ \t]+(?P<zone>[GARBFU -]))?[ \t]{1,2}(?P<pbg>[0-9X?][0-9A-FX?][0-9A-FX?])[ \t]{1,2}(?P<allegiance>[A-Za-z0-9][A-Za-z0-9?-]|--)[ \t]*(?P<rest>.*?)[ \t]*$", line_s.as_str()) {
                    Some(caps) => {
                        let w = world_from_sec_groups(&caps);
                        worlds.push(w);
                        assert(sec_notes(next) =~= sec_notes(prev));
                        assert(sec_world_groups(next) =~= sec_world_groups(prev).push(caps_view(Some(caps)).unwrap()));
                        assert forall|k: int| 0 <= k < worlds@.len() implies sec_world(#[trigger] worlds@[k], sec_world_groups(next)[k]) by {
                            if k < before_w.len() {
                                assert(worlds@[k] == before_w[k]);
                            }
                        }
                    },
                    None => {
                        let mut rest: Vec<char> = Vec::new();
                        push_str_chars(&mut rest, "SEC parse failed: ");
                        push_str_chars(&mut rest, line_s.as_str());
                        assert(rest@ =~= "SEC parse failed: "@ + lv[i as int]);
                        let note = line_note(i + 1, &rest);
                        assert(note@ =~= line_prefix(next.len() as int) + "SEC parse failed: "@ + lv[i as int]);
                        warnings.push(note);
                        assert(warnings@.map_values(|m: String| m@) =~= before_n.push(note@));
                        assert(sec_notes(next) =~= sec_notes(prev).push(note@));
                        assert(sec_world_groups(next) =~= sec_world_groups(prev));
                    },
                }
            }
        }
        i += 1;
    }
    assert(lv.subrange(0, lv.len() as int) =~= lv);
    Ok(ParseOutcome { worlds, warnings })
}

} // verus!

verus! {

// ── Sector metadata ─────────────────────────────────────────────────────────

/// The root element's `Tags` attribute, trimmed; empty when absent.
pub open spec fn tags_of(nodes: Seq<XmlNode>) -> Seq<char> {
    match root_element(nodes) {
        Some(r) => match attr_of(nodes[r].attributes@, "Tags"@) {
            Some(t) => trim(t),
            None => Seq::empty(),
        },
        None => Seq::empty(),
    }
}

/// The root element's `Tags` attribute (space-separated review tags),
/// trimmed; empty when absent or when the XML does not parse.
pub fn sector_tags(xml: &str) -> (r: String)
    ensures
        r@ == tags_of(doc_nodes(xml@)),
{
    match parse_xml(xml) {
        Ok(nodes) => tags_from(&nodes),
        Err(_) => String::new(),
    }
}

/// [`sector_tags`] over a parsed document.
pub fn tags_from(nodes: &Vec<XmlNode>) -> (r: String)
    ensures
        r@ == tags_of(nodes@),
{
    match find_root(nodes) {
        Some(root) => match attribute(&nodes[root], "Tags") {
            Some(t) => crate::text::trim_str(t.as_str()),
            None => String::new(),
        },
        None => String::new(),
    }
}

/// The trimmed text under the root element's first `<Credits>` child, when
/// that is not blank.
pub open spec fn credits_of(nodes: Seq<XmlNode>) -> Option<Seq<char>> {
    match root_element(nodes) {
        Some(r) => match first_child(nodes, r as usize, Some("Credits"@)) {
            Some(c) => {
                let t = trim(text_within(nodes, c, nodes.len() as int));
                if t.len() > 0 { Some(t) } else { None }
            },
            None => None,
        },
        None => None,
    }
}

/// The `<Credits>` child of the root `<Sector>` element, as trimmed text
/// (entities decoded, so `&lt;b&gt;` arrives as `<b>`). `None` if absent,
/// blank, or the XML doesn't parse.
pub fn sector_credits(xml: &str) -> (r: Option<String>)
    ensures
        opt_text_view(r) == credits_of(doc_nodes(xml@)),
{
    match parse_xml(xml) {
        Ok(nodes) => credits_from(&nodes),
        Err(_) => None,
    }
}

/// [`sector_credits`] over a parsed document.
pub fn credits_from(nodes: &Vec<XmlNode>) -> (r: Option<String>)
    ensures
        opt_text_view(r) == credits_of(nodes@),
{
    let root = match find_root(nodes) {
        Some(root) => root,
        None => return None,
    };
    let c = match find_child(nodes, root, Some("Credits")) {
        Some(c) => c,
        None => return None,
    };
    let all = collect_text(nodes, c);
    let t = trim_chars(&all);
    if t.len() > 0 {
        Some(string_from_chars(&t))
    } else {
        None
    }
}

/// A `<Subsector Index="A">name</Subsector>` element with a non-blank name,
/// as (trimmed index, trimmed name).
pub open spec fn subsector_entry(n: XmlNode) -> Seq<(Seq<char>, Seq<char>)> {
    if n.element && n.name@ == "Subsector"@ {
        match (attr_of(n.attributes@, "Index"@), opt_text_view(n.text)) {
            (Some(ix), Some(t)) => if trim(t).len() > 0 { seq![(trim(ix), trim(t))] } else { Seq::empty() },
            _ => Seq::empty(),
        }
    } else {
        Seq::empty()
    }
}

/// The named subsectors among `nodes`, in document order.
pub open spec fn subsector_list(nodes: Seq<XmlNode>) -> Seq<(Seq<char>, Seq<char>)>
    decreases nodes.len(),
{
    if nodes.len() == 0 {
        Seq::empty()
    } else {
        subsector_list(nodes.drop_last()) + subsector_entry(nodes.last())
    }
}

pub open spec fn subsector_views(v: Seq<Subsector>) -> Seq<(Seq<char>, Seq<char>)> {
    v.map_values(|s: Subsector| (s.index@, s.name@))
}

/// Named subsectors from a sector metadata `.xml`
/// (`<Subsector Index="A">Name</Subsector>`). Entries with a blank name are
/// skipped; empty when there are none or the XML doesn't parse.
pub fn sector_subsectors(xml: &str) -> (r: Vec<Subsector>)
    ensures
        subsector_views(r@) == subsector_list(doc_nodes(xml@)),
{
    match parse_xml(xml) {
        Ok(nodes) => subsectors_from(&nodes),
        Err(_) => Vec::new(),
    }
}

/// [`sector_subsectors`] over a parsed document.
pub fn subsectors_from(nodes: &Vec<XmlNode>) -> (r: Vec<Subsector>)
    ensures
        subsector_views(r@) == subsector_list(nodes@),
{
    let mut out: Vec<Subsector> = Vec::new();
    let mut j: usize = 0;
    while j < nodes.len()
        invariant
            j <= nodes@.len(),
            subsector_views(out@) == subsector_list(nodes@.subrange(0, j as int)),
        decreases nodes@.len() - j,
    {
        let ghost pre = nodes@.subrange(0, j as int);
        assert(nodes@.subrange(0, j + 1).drop_last() =~= pre);
        assert(nodes@.subrange(0, j + 1).last() == nodes@[j as int]);
        let n = &nodes[j];
        let ghost before = subsector_views(out@);
        if n.element && str_eq(n.name.as_str(), "Subsector") {
            match (attribute(n, "Index"), &n.text) {
                (Some(ix), Some(t)) => {
                    let name = crate::text::trim_str(t.as_str());
                    if !name.as_str().is_empty() {
                        let index = crate::text::trim_str(ix.as_str());
                        out.push(Subsector { index, name });
                        assert(subsector_views(out@) =~= before + subsector_entry(nodes@[j as int]));
                    } else {
                        assert(before + subsector_entry(nodes@[j as int]) =~= before);
                    }
                },
                _ => {
                    assert(before + subsector_entry(nodes@[j as int]) =~= before);
                },
            }
        } else {
            assert(before + subsector_entry(nodes@[j as int]) =~= before);
        }
        j += 1;
    }
    assert(nodes@.subrange(0, nodes@.len() as int) =~= nodes@);
    out
}

/// A capital/homeworld marker from `res/labels/Worlds.xml`, before its sector
/// name is resolved to coordinates. The biases default to +1 (label to the
/// right of and below the world).
#[derive(Debug, Clone, PartialEq, Eq)]
pub struct WorldLabelDef {
    pub name: String,
    pub sector: String,
    pub hex: String,
    pub bias_x: i8,
    pub bias_y: i8,
}

/// A `<LabelBias…>` child read as an `i8`, +1 when absent or not a number.
pub open spec fn bias_or_one(nodes: Seq<XmlNode>, w: usize, tag: Seq<char>) -> int {
    match child_int(nodes, w, tag, -128, 127) {
        Some(v) => v,
        None => 1,
    }
}

/// The marker a `<World>` element defines: it needs a non-blank `<Name>` and
/// a `<Location Sector= Hex=>`.
pub open spec fn world_label_at(nodes: Seq<XmlNode>, i: int) -> Seq<(Seq<char>, Seq<char>, Seq<char>, int, int)> {
    if nodes[i].element && nodes[i].name@ == "World"@ {
        let w = i as usize;
        match (child_trimmed(nodes, w, "Name"@), first_child(nodes, w, Some("Location"@))) {
            (Some(name), Some(loc)) => match (attr_of(nodes[loc].attributes@, "Sector"@), attr_of(nodes[loc].attributes@, "Hex"@)) {
                (Some(sector), Some(hex)) => seq![(name, trim(sector), trim(hex), bias_or_one(nodes, w, "LabelBiasX"@), bias_or_one(nodes, w, "LabelBiasY"@))],
                _ => Seq::empty(),
            },
            _ => Seq::empty(),
        }
    } else {
        Seq::empty()
    }
}

/// The markers defined by the first `k` nodes, in document order.
pub open spec fn world_labels_upto(nodes: Seq<XmlNode>, k: int) -> Seq<(Seq<char>, Seq<char>, Seq<char>, int, int)>
    decreases k,
{
    if k <= 0 {
        Seq::empty()
    } else {
        world_labels_upto(nodes, k - 1) + world_label_at(nodes, k - 1)
    }
}

pub open spec fn label_def_views(v: Seq<WorldLabelDef>) -> Seq<(Seq<char>, Seq<char>, Seq<char>, int, int)> {
    v.map_values(|d: WorldLabelDef| (d.name@, d.sector@, d.hex@, d.bias_x as int, d.bias_y as int))
}

/// Parse `res/labels/Worlds.xml` into capital/homeworld marker definitions
/// (`<World><Name/><Location Sector= Hex=/><LabelBiasX/><LabelBiasY/></World>`);
/// empty when the XML doesn't parse.
pub fn parse_world_labels(xml: &str) -> (r: Vec<WorldLabelDef>)
    ensures
        label_def_views(r@) == world_labels_upto(doc_nodes(xml@), doc_nodes(xml@).len() as int),
{
    match parse_xml(xml) {
        Ok(nodes) => world_labels_from(&nodes),
        Err(_) => Vec::new(),
    }
}

fn bias_from(nodes: &Vec<XmlNode>, w: usize, tag: &str) -> (r: i8)
    ensures
        r as int == bias_or_one(nodes@, w, tag@),
{
    match find_child_int(nodes, w, tag, -128, 127) {
        Some(v) => v as i8,
        None => 1,
    }
}

/// [`parse_world_labels`] over a parsed document.
pub fn world_labels_from(nodes: &Vec<XmlNode>) -> (r: Vec<WorldLabelDef>)
    ensures
        label_def_views(r@) == world_labels_upto(nodes@, nodes@.len() as int),
{
    let mut out: Vec<WorldLabelDef> = Vec::new();
    let mut j: usize = 0;
    while j < nodes.len()
        invariant
            j <= nodes@.len(),
            label_def_views(out@) == world_labels_upto(nodes@, j as int),
        decreases nodes@.len() - j,
    {
        let ghost before = label_def_views(out@);
        let ghost item = world_label_at(nodes@, j as int);
        let mut found: Option<WorldLabelDef> = None;
        if nodes[j].element && str_eq(nodes[j].name.as_str(), "World") {
            if let Some(name) = find_child_trimmed(nodes, j, "Name") {
                if let Some(loc) = find_child(nodes, j, Some("Location")) {
                    if let (Some(sector), Some(hex)) = (attribute(&nodes[loc], "Sector"), attribute(&nodes[loc], "Hex")) {
                        found = Some(WorldLabelDef {
                            name,
                            sector: crate::text::trim_str(sector.as_str()),
                            hex: crate::text::trim_str(hex.as_str()),
                            bias_x: bias_from(nodes, j, "LabelBiasX"),
                            bias_y: bias_from(nodes, j, "LabelBiasY"),
                        });
                    }
                }
            }
        }
        match found {
            Some(d) => {
                out.push(d);
                assert(label_def_views(out@) =~= before + item);
            },
            None => {
                assert(before + item =~= before);
            },
        }
        j += 1;
    }
    out
}

/// The route a `<Route Start= End=>` element defines, as (start, end, start
/// offset x, y, end offset x, y, allegiance, color); offsets count sectors and
/// are zero when absent or not a number.
pub open spec fn route_at(nodes: Seq<XmlNode>, i: int) -> Seq<(Seq<char>, Seq<char>, int, int, int, int, Option<Seq<char>>, Option<Seq<char>>)> {
    let a = nodes[i].attributes@;
    if nodes[i].element && nodes[i].name@ == "Route"@ {
        match (attr_of(a, "Start"@), attr_of(a, "End"@)) {
            (Some(start), Some(end)) => seq![(trim(start), trim(end),
                attr_int_or_zero(a, "StartOffsetX"@, i32::MIN as int, i32::MAX as int),
                attr_int_or_zero(a, "StartOffsetY"@, i32::MIN as int, i32::MAX as int),
                attr_int_or_zero(a, "EndOffsetX"@, i32::MIN as int, i32::MAX as int),
                attr_int_or_zero(a, "EndOffsetY"@, i32::MIN as int, i32::MAX as int),
                attr_of(a, "Allegiance"@), attr_of(a, "Color"@))],
            _ => Seq::empty(),
        }
    } else {
        Seq::empty()
    }
}

/// The routes among the first `k` nodes, in document order.
pub open spec fn routes_upto(nodes: Seq<XmlNode>, k: int) -> Seq<(Seq<char>, Seq<char>, int, int, int, int, Option<Seq<char>>, Option<Seq<char>>)>
    decreases k,
{
    if k <= 0 {
        Seq::empty()
    } else {
        routes_upto(nodes, k - 1) + route_at(nodes, k - 1)
    }
}

pub open spec fn route_views(v: Seq<Route>) -> Seq<(Seq<char>, Seq<char>, int, int, int, int, Option<Seq<char>>, Option<Seq<char>>)> {
    v.map_values(|r: Route| (r.start@, r.end@, r.start_offset.0 as int, r.start_offset.1 as int,
        r.end_offset.0 as int, r.end_offset.1 as int, opt_text_view(r.allegiance), opt_text_view(r.color)))
}

/// Per-sector routes from a sector metadata `.xml` (`<Route Start="…" End="…"
/// [StartOffsetX/Y EndOffsetX/Y Allegiance Color]/>`); empty when the XML
/// doesn't parse.
pub fn sector_routes(xml: &str) -> (r: Vec<Route>)
    ensures
        route_views(r@) == routes_upto(doc_nodes(xml@), doc_nodes(xml@).len() as int),
{
    match parse_xml(xml) {
        Ok(nodes) => routes_from(&nodes),
        Err(_) => Vec::new(),
    }
}

fn offset_from(n: &XmlNode, name: &str) -> (r: i32)
    ensures
        r as int == attr_int_or_zero(n.attributes@, name@, i32::MIN as int, i32::MAX as int),
{
    attribute_int_or_zero(n, name, -2147483648, 2147483647) as i32
}

/// [`sector_routes`] over a parsed document.
pub fn routes_from(nodes: &Vec<XmlNode>) -> (r: Vec<Route>)
    ensures
        route_views(r@) == routes_upto(nodes@, nodes@.len() as int),
{
    let mut out: Vec<Route> = Vec::new();
    let mut j: usize = 0;
    while j < nodes.len()
        invariant
            j <= nodes@.len(),
            route_views(out@) == routes_upto(nodes@, j as int),
        decreases nodes@.len() - j,
    {
        let ghost before = route_views(out@);
        let ghost item = route_at(nodes@, j as int);
        let n = &nodes[j];
        let mut found: Option<Route> = None;
        if n.element && str_eq(n.name.as_str(), "Route") {
            if let (Some(start), Some(end)) = (attribute(n, "Start"), attribute(n, "End")) {
                found = Some(Route {
                    start: crate::text::trim_str(start.as_str()),
                    end: crate::text::trim_str(end.as_str()),
                    start_offset: (offset_from(n, "StartOffsetX"), offset_from(n, "StartOffsetY")),
                    end_offset: (offset_from(n, "EndOffsetX"), offset_from(n, "EndOffsetY")),
                    allegiance: attribute(n, "Allegiance"),
                    color: attribute(n, "Color"),
                });
            }
        }
        match found {
            Some(rt) => {
                out.push(rt);
                assert(route_views(out@) =~= before + item);
            },
            None => {
                assert(before + item =~= before);
            },
        }
        j += 1;
    }
    out
}

/// A sector name as read: text, language, source.
pub struct NameSpec {
    pub text: Seq<char>,
    pub lang: Option<Seq<char>>,
    pub source: Option<Seq<char>>,
}

/// An index entry as read (its metafile tag is never set by a reader).
pub struct EntrySpec {
    pub name: Seq<char>,
    pub abbreviation: Option<Seq<char>>,
    pub x: int,
    pub y: int,
    pub names: Seq<NameSpec>,
    pub tags: Seq<char>,
    pub data_file: Option<Seq<char>>,
    pub data_format: Option<Seq<char>>,
    pub metadata_file: Option<Seq<char>>,
    pub milieu: Option<Seq<char>>,
}

pub open spec fn name_spec(n: SectorName) -> NameSpec {
    NameSpec { text: n.text@, lang: opt_text_view(n.lang), source: opt_text_view(n.source) }
}

pub open spec fn names_view(v: Seq<SectorName>) -> Seq<NameSpec> {
    v.map_values(|n: SectorName| name_spec(n))
}

pub open spec fn entry_spec(e: SectorIndexEntry) -> EntrySpec {
    EntrySpec {
        name: e.name@,
        abbreviation: opt_text_view(e.abbreviation),
        x: e.location.x as int,
        y: e.location.y as int,
        names: names_view(e.names@),
        tags: e.tags@,
        data_file: opt_text_view(e.data_file),
        data_format: opt_text_view(e.data_format),
        metadata_file: opt_text_view(e.metadata_file),
        milieu: opt_text_view(e.milieu),
    }
}

/// Node `j`, when it is a `<Name>` child of `p` with non-blank text.
pub open spec fn name_at(nodes: Seq<XmlNode>, p: usize, j: int) -> Seq<NameSpec> {
    if is_child(nodes, j, p, Some("Name"@)) {
        match opt_text_view(nodes[j].text) {
            Some(t) => if trim(t).len() > 0 {
                seq![NameSpec {
                    text: trim(t),
                    lang: attr_trimmed(nodes[j].attributes@, "Lang"@),
                    source: attr_trimmed(nodes[j].attributes@, "Source"@),
                }]
            } else {
                Seq::empty()
            },
            None => Seq::empty(),
        }
    } else {
        Seq::empty()
    }
}

/// The `<Name>`s of element `p` among the first `k` nodes, canonical first.
pub open spec fn names_upto(nodes: Seq<XmlNode>, p: usize, k: int) -> Seq<NameSpec>
    decreases k,
{
    if k <= 0 {
        Seq::empty()
    } else {
        names_upto(nodes, p, k - 1) + name_at(nodes, p, k - 1)
    }
}

/// A sector's milieu: its own `Milieu` attribute, else its `<DataFile>`'s.
pub open spec fn milieu_of(nodes: Seq<XmlNode>, p: usize) -> Option<Seq<char>> {
    match attr_trimmed(nodes[p as int].attributes@, "Milieu"@) {
        Some(m) => Some(m),
        None => match first_child(nodes, p, Some("DataFile"@)) {
            Some(d) => attr_trimmed(nodes[d].attributes@, "Milieu"@),
            None => None,
        },
    }
}

/// What a `<Sector>` element `p` says of itself, with the given position and
/// canonical name and no data file.
pub open spec fn sector_fields(nodes: Seq<XmlNode>, p: usize, x: int, y: int, name: Seq<char>) -> EntrySpec {
    EntrySpec {
        name,
        abbreviation: attr_of(nodes[p as int].attributes@, "Abbreviation"@),
        x,
        y,
        names: names_upto(nodes, p, nodes.len() as int),
        tags: match attr_of(nodes[p as int].attributes@, "Tags"@) {
            Some(t) => trim(t),
            None => Seq::empty(),
        },
        data_file: None,
        data_format: None,
        metadata_file: None,
        milieu: milieu_of(nodes, p),
    }
}

/// Every `<Name>` child of element `p` with non-blank text, in order.
fn names_from(nodes: &Vec<XmlNode>, p: usize) -> (r: Vec<SectorName>)
    ensures
        names_view(r@) == names_upto(nodes@, p, nodes@.len() as int),
{
    let mut out: Vec<SectorName> = Vec::new();
    let mut j: usize = 0;
    while j < nodes.len()
        invariant
            j <= nodes@.len(),
            names_view(out@) == names_upto(nodes@, p, j as int),
        decreases nodes@.len() - j,
    {
        let ghost before = names_view(out@);
        let ghost item = name_at(nodes@, p, j as int);
        let n = &nodes[j];
        let mut found: Option<SectorName> = None;
        if n.parent == Some(p) && n.element && str_eq(n.name.as_str(), "Name") {
            if let Some(t) = &n.text {
                let text = crate::text::trim_str(t.as_str());
                if !text.as_str().is_empty() {
                    found = Some(SectorName {
                        text,
                        lang: attribute_trimmed(n, "Lang"),
                        source: attribute_trimmed(n, "Source"),
                    });
                }
            }
        }
        match found {
            Some(nm) => {
                out.push(nm);
                assert(names_view(out@) =~= before + item);
            },
            None => {
                assert(before + item =~= before);
            },
        }
        j += 1;
    }
    out
}

/// A `<Sector>` element's own fields (see [`sector_fields`]).
fn sector_entry_from(nodes: &Vec<XmlNode>, p: usize, x: i32, y: i32, name: String) -> (e: SectorIndexEntry)
    requires
        p < nodes@.len(),
    ensures
        entry_spec(e) == sector_fields(nodes@, p, x as int, y as int, name@),
        e.metafile_tag is None,
{
    let n = &nodes[p];
    let milieu = match attribute_trimmed(n, "Milieu") {
        Some(m) => Some(m),
        None => match find_child(nodes, p, Some("DataFile")) {
            Some(d) => attribute_trimmed(&nodes[d], "Milieu"),
            None => None,
        },
    };
    let tags = match attribute(n, "Tags") {
        Some(t) => crate::text::trim_str(t.as_str()),
        None => String::new(),
    };
    let e = SectorIndexEntry {
        name,
        abbreviation: attribute(n, "Abbreviation"),
        location: crate::astrometrics::Coord::new(x, y),
        names: names_from(nodes, p),
        tags,
        data_file: None,
        data_format: None,
        metadata_file: None,
        milieu,
        metafile_tag: None,
    };
    assert(entry_spec(e) =~~= sector_fields(nodes@, p, x as int, y as int, name@));
    e
}

/// What the head of a per-sector metadata document says: the root must be a
/// `<Sector>` with integer `<X>`/`<Y>` children and a non-blank `<Name>`;
/// otherwise the message of the first thing missing.
pub open spec fn index_entry_of(nodes: Seq<XmlNode>) -> Result<EntrySpec, Seq<char>> {
    let root_name = match root_element(nodes) {
        Some(r) => nodes[r].name@,
        None => Seq::empty(),
    };
    match root_element(nodes) {
        Some(r) if nodes[r].name@ == "Sector"@ => {
            let p = r as usize;
            match (child_int(nodes, p, "X"@, i32::MIN as int, i32::MAX as int), child_int(nodes, p, "Y"@, i32::MIN as int, i32::MAX as int)) {
                (Some(x), Some(y)) => match child_trimmed(nodes, p, "Name"@) {
                    Some(name) => Ok(sector_fields(nodes, p, x, y, name)),
                    None => Err("missing <Name>"@),
                },
                _ => Err("missing <X>/<Y>"@),
            }
        },
        _ => Err("root is <"@ + root_name + ">, not <Sector>"@),
    }
}

/// [`index_entry_of`] for a text: a parse failure is its message.
pub open spec fn index_entry_in(xml: Seq<char>) -> Result<EntrySpec, Seq<char>> {
    match xml_document(xml) {
        Ok(nodes) => index_entry_of(nodes),
        Err(m) => Err(m),
    }
}

/// Parse the head of a sector metadata `.xml` (`<Sector>` root) into an index
/// entry: names, abbreviation, review tags, milieu and grid `(X, Y)`.
///
/// Fails for files whose root isn't a `<Sector>` with `X`/`Y`/`Name` (such as
/// a milieu's region list), so a directory scan can skip them.
pub fn sector_index_entry(xml: &str) -> (r: Result<SectorIndexEntry, ParseError>)
    ensures
        match r {
            Ok(e) => index_entry_in(xml@) == Ok::<EntrySpec, Seq<char>>(entry_spec(e)) && e.metafile_tag is None,
            Err(err) => index_entry_in(xml@) == Err::<EntrySpec, Seq<char>>(err.message@),
        },
{
    match parse_xml(xml) {
        Ok(nodes) => index_entry_from(&nodes),
        Err(m) => Err(ParseError { message: m }),
    }
}

/// [`sector_index_entry`] over a parsed document.
pub fn index_entry_from(nodes: &Vec<XmlNode>) -> (r: Result<SectorIndexEntry, ParseError>)
    ensures
        match r {
            Ok(e) => index_entry_of(nodes@) == Ok::<EntrySpec, Seq<char>>(entry_spec(e)) && e.metafile_tag is None,
            Err(err) => index_entry_of(nodes@) == Err::<EntrySpec, Seq<char>>(err.message@),
        },
{
    let root = find_root(nodes);
    let is_sector = match root {
        Some(r) => str_eq(nodes[r].name.as_str(), "Sector"),
        None => false,
    };
    if !is_sector {
        let mut msg: Vec<char> = Vec::new();
        push_str_chars(&mut msg, "root is <");
        match root {
            Some(r) => push_str_chars(&mut msg, nodes[r].name.as_str()),
            None => {},
        }
        push_str_chars(&mut msg, ">, not <Sector>");
        proof {
            let root_name = match root_element(nodes@) {
                Some(r) => nodes@[r].name@,
                None => Seq::<char>::empty(),
            };
            assert(msg@ =~= "root is <"@ + root_name + ">, not <Sector>"@);
        }
        return Err(ParseError { message: string_from_chars(&msg) });
    }
    let p = match root {
        Some(r) => r,
        None => return Err(ParseError { message: String::new() }),
    };
    let x = find_child_int(nodes, p, "X", -2147483648, 2147483647);
    let y = find_child_int(nodes, p, "Y", -2147483648, 2147483647);
    let (x, y) = match (x, y) {
        (Some(x), Some(y)) => (x as i32, y as i32),
        _ => return Err(ParseError { message: "missing <X>/<Y>".to_string() }),
    };
    let name = match find_child_trimmed(nodes, p, "Name") {
        Some(name) => name,
        None => return Err(ParseError { message: "missing <Name>".to_string() }),
    };
    Ok(sector_entry_from(nodes, p, x, y, name))
}

/// The index entry a `<Sector>` element of a milieu's region list gives: it
/// needs integer `<X>`/`<Y>`, a non-blank `<Name>` and a `<DataFile>` naming a
/// file; the `<DataFile Type=…>` is the format and `<MetadataFile>` the
/// metadata file.
pub open spec fn milieu_entry_at(nodes: Seq<XmlNode>, i: int) -> Seq<EntrySpec> {
    if nodes[i].element && nodes[i].name@ == "Sector"@ {
        let p = i as usize;
        match (child_int(nodes, p, "X"@, i32::MIN as int, i32::MAX as int), child_int(nodes, p, "Y"@, i32::MIN as int, i32::MAX as int),
            child_trimmed(nodes, p, "Name"@), first_child(nodes, p, Some("DataFile"@))) {
            (Some(x), Some(y), Some(name), Some(d)) => match opt_text_view(nodes[d].text) {
                Some(t) => if trim(t).len() > 0 {
                    let f = sector_fields(nodes, p, x, y, name);
                    seq![EntrySpec {
                        data_file: Some(trim(t)),
                        data_format: attr_of(nodes[d].attributes@, "Type"@),
                        metadata_file: child_trimmed(nodes, p, "MetadataFile"@),
                        ..f
                    }]
                } else {
                    Seq::empty()
                },
                None => Seq::empty(),
            },
            _ => Seq::empty(),
        }
    } else {
        Seq::empty()
    }
}

/// The entries of the first `k` nodes, in document order.
pub open spec fn milieu_entries_upto(nodes: Seq<XmlNode>, k: int) -> Seq<EntrySpec>
    decreases k,
{
    if k <= 0 {
        Seq::empty()
    } else {
        milieu_entries_upto(nodes, k - 1) + milieu_entry_at(nodes, k - 1)
    }
}

pub open spec fn entries_view(v: Seq<SectorIndexEntry>) -> Seq<EntrySpec> {
    v.map_values(|e: SectorIndexEntry| entry_spec(e))
}

/// Parse a milieu's region list (such as `M1105.xml`) into index entries:
/// `<Sector>` elements with `<X>/<Y>/<Name>` and a `<DataFile Type="…">file</>`.
/// Entries without a data file (named regions with no data) are skipped;
/// empty when the XML doesn't parse.
pub fn parse_milieu_index(xml: &str) -> (r: Vec<SectorIndexEntry>)
    ensures
        entries_view(r@) == milieu_entries_upto(doc_nodes(xml@), doc_nodes(xml@).len() as int),
        forall|i: int| 0 <= i < r@.len() ==> (#[trigger] r@[i]).metafile_tag is None,
{
    match parse_xml(xml) {
        Ok(nodes) => milieu_index_from(&nodes),
        Err(_) => Vec::new(),
    }
}

/// [`parse_milieu_index`] over a parsed document.
pub fn milieu_index_from(nodes: &Vec<XmlNode>) -> (r: Vec<SectorIndexEntry>)
    ensures
        entries_view(r@) == milieu_entries_upto(nodes@, nodes@.len() as int),
        forall|i: int| 0 <= i < r@.len() ==> (#[trigger] r@[i]).metafile_tag is None,
{
    let mut out: Vec<SectorIndexEntry> = Vec::new();
    let mut j: usize = 0;
    while j < nodes.len()
        invariant
            j <= nodes@.len(),
            entries_view(out@) == milieu_entries_upto(nodes@, j as int),
            forall|i: int| 0 <= i < out@.len() ==> (#[trigger] out@[i]).metafile_tag is None,
        decreases nodes@.len() - j,
    {
        let ghost before = entries_view(out@);
        let ghost item = milieu_entry_at(nodes@, j as int);
        let found = milieu_entry_from(nodes, j);
        match found {
            Some(e) => {
                out.push(e);
                assert(entries_view(out@) =~= before + item);
            },
            None => {
                assert(before + item =~= before);
            },
        }
        j += 1;
    }
    out
}

fn milieu_entry_from(nodes: &Vec<XmlNode>, p: usize) -> (r: Option<SectorIndexEntry>)
    requires
        p < nodes@.len(),
    ensures
        match r {
            Some(e) => milieu_entry_at(nodes@, p as int) == seq![entry_spec(e)] && e.metafile_tag is None,
            None => milieu_entry_at(nodes@, p as int) == Seq::<EntrySpec>::empty(),
        },
{
    if !(nodes[p].element && str_eq(nodes[p].name.as_str(), "Sector")) {
        return None;
    }
    let x = find_child_int(nodes, p, "X", -2147483648, 2147483647);
    let y = find_child_int(nodes, p, "Y", -2147483648, 2147483647);
    let name = find_child_trimmed(nodes, p, "Name");
    let data = find_child(nodes, p, Some("DataFile"));
    match (x, y, name, data) {
        (Some(x), Some(y), Some(name), Some(d)) => {
            let file = match &nodes[d].text {
                Some(t) => crate::text::trim_str(t.as_str()),
                None => return None,
            };
            if file.as_str().is_empty() {
                return None;
            }
            let mut e = sector_entry_from(nodes, p, x as i32, y as i32, name);
            e.data_file = Some(file);
            e.data_format = attribute(&nodes[d], "Type");
            e.metadata_file = find_child_trimmed(nodes, p, "MetadataFile");
            assert(seq![entry_spec(e)] =~~= milieu_entry_at(nodes@, p as int));
            Some(e)
        },
        _ => None,
    }
}

/// Among the first `k` nodes, is there a `<Name>` child of `p` whose trimmed
/// text is `name`?
pub open spec fn has_name_upto(nodes: Seq<XmlNode>, p: usize, name: Seq<char>, k: int) -> bool
    decreases k,
{
    if k <= 0 {
        false
    } else {
        has_name_upto(nodes, p, name, k - 1) || name_child_is(nodes, k - 1, p, name)
    }
}

/// Node `j` is a `<Name>` child of `p` whose trimmed text is `name`.
pub open spec fn name_child_is(nodes: Seq<XmlNode>, j: int, p: usize, name: Seq<char>) -> bool {
    is_child(nodes, j, p, Some("Name"@)) && match nodes[j].text {
        Some(t) => trim(t@) == name,
        None => false,
    }
}

/// Node `i` is a `<Sector>` element carrying the name `name`.
pub open spec fn is_named_sector(nodes: Seq<XmlNode>, i: int, name: Seq<char>) -> bool {
    nodes[i].element && nodes[i].name@ == "Sector"@ && has_name_upto(nodes, i as usize, name, nodes.len() as int)
}

/// The first such sector among the first `k` nodes.
pub open spec fn named_sector_upto(nodes: Seq<XmlNode>, name: Seq<char>, k: int) -> Option<int>
    decreases k,
{
    if k <= 0 {
        None
    } else {
        match named_sector_upto(nodes, name, k - 1) {
            Some(i) => Some(i),
            None => if is_named_sector(nodes, k - 1, name) { Some(k - 1) } else { None },
        }
    }
}

/// The source text of the first `<Sector>` of a region list that carries the
/// name `name`.
pub open spec fn sector_block_of(xml: Seq<char>, name: Seq<char>) -> Option<Seq<char>> {
    match xml_document(xml) {
        Ok(nodes) => match named_sector_upto(nodes, name, nodes.len() as int) {
            Some(i) => Some(byte_slice(xml, nodes[i].start as int, nodes[i].end as int)),
            None => None,
        },
        Err(_) => None,
    }
}

proof fn lemma_named_sector_stable(nodes: Seq<XmlNode>, name: Seq<char>, k1: int, k2: int)
    requires
        k1 <= k2,
        named_sector_upto(nodes, name, k1) is Some,
    ensures
        named_sector_upto(nodes, name, k2) == named_sector_upto(nodes, name, k1),
    decreases k2 - k1,
{
    if k1 < k2 {
        lemma_named_sector_stable(nodes, name, k1, k2 - 1);
    }
}

fn carries_name(nodes: &Vec<XmlNode>, p: usize, name: &str) -> (r: bool)
    ensures
        r == has_name_upto(nodes@, p, name@, nodes@.len() as int),
{
    let mut j: usize = 0;
    while j < nodes.len()
        invariant
            j <= nodes@.len(),
            !has_name_upto(nodes@, p, name@, j as int),
        decreases nodes@.len() - j,
    {
        let n = &nodes[j];
        if n.parent == Some(p) && n.element && str_eq(n.name.as_str(), "Name") {
            if let Some(t) = &n.text {
                let tt = crate::text::trim_str(t.as_str());
                if str_eq(tt.as_str(), name) {
                    proof { lemma_has_name_stable(nodes@, p, name@, j + 1, nodes@.len() as int); }
                    return true;
                }
            }
        }
        j += 1;
    }
    false
}

proof fn lemma_has_name_stable(nodes: Seq<XmlNode>, p: usize, name: Seq<char>, k1: int, k2: int)
    requires
        k1 <= k2,
        has_name_upto(nodes, p, name, k1),
    ensures
        has_name_upto(nodes, p, name, k2),
    decreases k2 - k1,
{
    if k1 < k2 {
        lemma_has_name_stable(nodes, p, name, k1, k2 - 1);
    }
}

/// One sector's inline metadata block (`<Sector>…</Sector>`) cut from a
/// milieu region list, by any of its `<Name>`s. Many sectors keep borders,
/// routes and subsectors inline in the region list; the block is itself a
/// one-root document the other readers take. `None` when no sector carries
/// the name or the XML doesn't parse.
pub fn milieu_sector_block(region_xml: &str, name: &str) -> (r: Option<String>)
    ensures
        opt_text_view(r) == sector_block_of(region_xml@, name@),
{
    let nodes = match parse_xml(region_xml) {
        Ok(nodes) => nodes,
        Err(_) => return None,
    };
    let mut i: usize = 0;
    while i < nodes.len()
        invariant
            i <= nodes@.len(),
            named_sector_upto(nodes@, name@, i as int) is None,
            xml_document(region_xml@) == Ok::<Seq<XmlNode>, Seq<char>>(nodes@),
        decreases nodes@.len() - i,
    {
        if nodes[i].element && str_eq(nodes[i].name.as_str(), "Sector") && carries_name(&nodes, i, name) {
            assert(is_named_sector(nodes@, i as int, name@));
            assert(named_sector_upto(nodes@, name@, i + 1) == Some(i as int));
            proof { lemma_named_sector_stable(nodes@, name@, i + 1, nodes@.len() as int); }
            return Some(slice_bytes(region_xml, nodes[i].start, nodes[i].end));
        }
        i += 1;
    }
    None
}

// ── Border regions ──────────────────────────────────────────────────────────

pub open spec fn sector_width() -> int { 32 }

pub open spec fn sector_height() -> int { 40 }

/// Twice the row coordinate of a hex center: even columns sit half a row
/// lower.
pub open spec fn center_y2(wc: int, wr: int) -> int {
    2 * wr + if wc % 2 == 0 { 1int } else { 0int }
}

/// The polygon of a border: one vertex `(column, 2 × row)` per hex label that
/// parses, in order (hexes outside the sector mark where it continues).
pub open spec fn border_polygon(hexes: Seq<Seq<char>>, sx: int, sy: int) -> Seq<(int, int)>
    decreases hexes.len(),
{
    if hexes.len() == 0 {
        Seq::empty()
    } else {
        border_polygon(hexes.drop_last(), sx, sy) + match spec_parse_hex(hexes.last()) {
            Some((col, row)) => seq![(sx * 32 + col, center_y2(sx * 32 + col, sy * 40 + row))],
            None => Seq::empty(),
        }
    }
}

/// The border's own hexes inside the sector, in absolute `(column, row)`.
pub open spec fn border_hexes(hexes: Seq<Seq<char>>, sx: int, sy: int) -> Seq<(int, int)>
    decreases hexes.len(),
{
    if hexes.len() == 0 {
        Seq::empty()
    } else {
        border_hexes(hexes.drop_last(), sx, sy) + match spec_parse_hex(hexes.last()) {
            Some((col, row)) => if 1 <= col <= 32 && 1 <= row <= 40 { seq![(sx * 32 + col, sy * 40 + row)] } else { Seq::empty() },
            None => Seq::empty(),
        }
    }
}

/// Does the edge from `a` to `b` cross the ray going right from `p`? (The
/// even-odd test, in exact arithmetic.)
pub open spec fn crosses(p: (int, int), a: (int, int), b: (int, int)) -> bool {
    &&& (a.1 > p.1) != (b.1 > p.1)
    &&& if b.1 - a.1 > 0 {
        (p.0 - a.0) * (b.1 - a.1) < (b.0 - a.0) * (p.1 - a.1)
    } else {
        (p.0 - a.0) * (b.1 - a.1) > (b.0 - a.0) * (p.1 - a.1)
    }
}

/// How many of the first `i` edges (`poly[k]` to the vertex before it) cross
/// the ray from `p`.
pub open spec fn crossings(p: (int, int), poly: Seq<(int, int)>, i: int) -> int
    decreases i,
{
    if i <= 0 {
        0
    } else {
        let k = i - 1;
        let prev = if k == 0 { poly.len() - 1 } else { k - 1 };
        crossings(p, poly, i - 1) + if crosses(p, poly[k], poly[prev]) { 1int } else { 0int }
    }
}

/// Is `p` inside the polygon (even-odd rule; fewer than three vertices bound
/// nothing)?
pub open spec fn inside(p: (int, int), poly: Seq<(int, int)>) -> bool {
    poly.len() >= 3 && crossings(p, poly, poly.len() as int) % 2 == 1
}

/// Is the absolute hex `(wc, wr)` in the border's region?
pub open spec fn in_region(hexes: Seq<Seq<char>>, sx: int, sy: int, wc: int, wr: int) -> bool {
    border_hexes(hexes, sx, sy).contains((wc, wr)) || inside((wc, center_y2(wc, wr)), border_polygon(hexes, sx, sy))
}

/// The region's hexes in rows `1..=r` of the sector's column `c`.
pub open spec fn region_rows(hexes: Seq<Seq<char>>, sx: int, sy: int, c: int, r: int) -> Seq<(int, int)>
    decreases r,
{
    if r <= 0 {
        Seq::empty()
    } else {
        region_rows(hexes, sx, sy, c, r - 1) + if in_region(hexes, sx, sy, sx * 32 + c, sy * 40 + r) {
            seq![(sx * 32 + c, sy * 40 + r)]
        } else {
            Seq::empty()
        }
    }
}

/// The region's hexes in columns `1..=c` of the sector, column by column.
pub open spec fn region_cols(hexes: Seq<Seq<char>>, sx: int, sy: int, c: int) -> Seq<(int, int)>
    decreases c,
{
    if c <= 0 { Seq::empty() } else { region_cols(hexes, sx, sy, c - 1) + region_rows(hexes, sx, sy, c, 40) }
}

/// The absolute cell of a hex label that lies in the sector.
pub open spec fn sector_cell(h: Seq<char>, sx: int, sy: int) -> Option<(int, int)> {
    match spec_parse_hex(h) {
        Some((col, row)) => if 1 <= col <= 32 && 1 <= row <= 40 { Some((sx * 32 + col, sy * 40 + row)) } else { None },
        None => None,
    }
}

proof fn lemma_region_rows(hexes: Seq<Seq<char>>, sx: int, sy: int, c: int, r: int)
    ensures
        forall|x: (int, int)| #[trigger] region_rows(hexes, sx, sy, c, r).contains(x) <==>
            (x.0 == sx * 32 + c && sy * 40 + 1 <= x.1 <= sy * 40 + r && in_region(hexes, sx, sy, x.0, x.1)),
        region_rows(hexes, sx, sy, c, r).no_duplicates(),
    decreases r,
{
    if r > 0 {
        lemma_region_rows(hexes, sx, sy, c, r - 1);
        let prev = region_rows(hexes, sx, sy, c, r - 1);
        let cell = (sx * 32 + c, sy * 40 + r);
        let cur = region_rows(hexes, sx, sy, c, r);
        if in_region(hexes, sx, sy, cell.0, cell.1) {
            assert(cur == prev.push(cell));
            assert forall|x: (int, int)| #[trigger] cur.contains(x) <==>
                (x.0 == sx * 32 + c && sy * 40 + 1 <= x.1 <= sy * 40 + r && in_region(hexes, sx, sy, x.0, x.1)) by {
                if cur.contains(x) && x != cell {
                    let k = choose|k: int| 0 <= k < cur.len() && cur[k] == x;
                    assert(k < prev.len());
                    assert(prev.contains(x));
                }
                if x == cell {
                    assert(cur[prev.len() as int] == cell);
                } else if x.0 == sx * 32 + c && sy * 40 + 1 <= x.1 <= sy * 40 + r && in_region(hexes, sx, sy, x.0, x.1) {
                    assert(prev.contains(x));
                    let k = choose|k: int| 0 <= k < prev.len() && prev[k] == x;
                    assert(cur[k] == x);
                }
            }
            assert(!prev.contains(cell));
            assert forall|a: int, b: int| 0 <= a < cur.len() && 0 <= b < cur.len() && a != b implies cur[a] != cur[b] by {
                if a < prev.len() && b < prev.len() {
                } else if a < prev.len() {
                    assert(prev.contains(cur[a]));
                } else if b < prev.len() {
                    assert(prev.contains(cur[b]));
                }
            }
        } else {
            assert(cur =~= prev);
        }
    }
}

proof fn lemma_region_cols(hexes: Seq<Seq<char>>, sx: int, sy: int, c: int)
    ensures
        forall|x: (int, int)| #[trigger] region_cols(hexes, sx, sy, c).contains(x) <==>
            (sx * 32 + 1 <= x.0 <= sx * 32 + c && sy * 40 + 1 <= x.1 <= sy * 40 + 40 && in_region(hexes, sx, sy, x.0, x.1)),
        region_cols(hexes, sx, sy, c).no_duplicates(),
    decreases c,
{
    if c > 0 {
        lemma_region_cols(hexes, sx, sy, c - 1);
        lemma_region_rows(hexes, sx, sy, c, 40);
        let a = region_cols(hexes, sx, sy, c - 1);
        let b = region_rows(hexes, sx, sy, c, 40);
        let cur = region_cols(hexes, sx, sy, c);
        assert(cur == a + b);
        assert forall|x: (int, int)| #[trigger] cur.contains(x) <==>
            (sx * 32 + 1 <= x.0 <= sx * 32 + c && sy * 40 + 1 <= x.1 <= sy * 40 + 40 && in_region(hexes, sx, sy, x.0, x.1)) by {
            if cur.contains(x) {
                let k = choose|k: int| 0 <= k < cur.len() && cur[k] == x;
                if k < a.len() { assert(a.contains(x)); } else { assert(b[k - a.len()] == x); assert(b.contains(x)); }
            }
            if sx * 32 + 1 <= x.0 <= sx * 32 + c && sy * 40 + 1 <= x.1 <= sy * 40 + 40 && in_region(hexes, sx, sy, x.0, x.1) {
                if x.0 < sx * 32 + c {
                    assert(a.contains(x));
                    let k = choose|k: int| 0 <= k < a.len() && a[k] == x;
                    assert(cur[k] == x);
                } else {
                    assert(b.contains(x));
                    let k = choose|k: int| 0 <= k < b.len() && b[k] == x;
                    assert(cur[a.len() + k] == x);
                }
            }
        }
        assert forall|i: int, j: int| 0 <= i < cur.len() && 0 <= j < cur.len() && i != j implies cur[i] != cur[j] by {
            if i < a.len() && j >= a.len() {
                assert(a.contains(cur[i]));
                assert(b.contains(cur[j]) && b[j - a.len()] == cur[j]);
            } else if j < a.len() && i >= a.len() {
                assert(a.contains(cur[j]));
                assert(b.contains(cur[i]) && b[i - a.len()] == cur[i]);
            } else if i >= a.len() && j >= a.len() {
                assert(b[i - a.len()] != b[j - a.len()]);
            }
        }
    }
}

proof fn lemma_border_hexes_in_sector(hexes: Seq<Seq<char>>, sx: int, sy: int)
    ensures
        forall|x: (int, int)| #[trigger] border_hexes(hexes, sx, sy).contains(x) ==>
            sx * 32 + 1 <= x.0 <= sx * 32 + 32 && sy * 40 + 1 <= x.1 <= sy * 40 + 40,
        forall|h: Seq<char>| #[trigger] hexes.contains(h) && sector_cell(h, sx, sy) is Some
            ==> border_hexes(hexes, sx, sy).contains(sector_cell(h, sx, sy).unwrap()),
    decreases hexes.len(),
{
    if hexes.len() > 0 {
        lemma_border_hexes_in_sector(hexes.drop_last(), sx, sy);
        let prev = border_hexes(hexes.drop_last(), sx, sy);
        let cur = border_hexes(hexes, sx, sy);
        let tail: Seq<(int, int)> = match spec_parse_hex(hexes.last()) {
            Some((col, row)) => if 1 <= col <= 32 && 1 <= row <= 40 { seq![(sx * 32 + col, sy * 40 + row)] } else { Seq::empty() },
            None => Seq::empty(),
        };
        assert(cur == prev + tail);
        assert forall|x: (int, int)| #[trigger] cur.contains(x) implies
            sx * 32 + 1 <= x.0 <= sx * 32 + 32 && sy * 40 + 1 <= x.1 <= sy * 40 + 40 by {
            let k = choose|k: int| 0 <= k < cur.len() && cur[k] == x;
            if k < prev.len() { assert(prev.contains(x)); } else { assert(tail[k - prev.len()] == x); }
        }
        assert forall|h: Seq<char>| #[trigger] hexes.contains(h) && sector_cell(h, sx, sy) is Some
            implies cur.contains(sector_cell(h, sx, sy).unwrap()) by {
            if let Some((col, row)) = spec_parse_hex(h) {
            if 1 <= col <= 32 && 1 <= row <= 40 {
            let x = (sx * 32 + col, sy * 40 + row);
            let k = choose|k: int| 0 <= k < hexes.len() && hexes[k] == h;
            if k < hexes.len() - 1 {
                assert(hexes.drop_last().contains(h)) by { assert(hexes.drop_last()[k] == h); }
                let m = choose|m: int| 0 <= m < prev.len() && prev[m] == x;
                assert(cur[m] == x);
            } else {
                assert(tail[0] == x);
                assert(cur[prev.len() as int] == x);
            }
            }
            }
        }
    }
}

/// A border's region lies in its sector, holds each hex once, and holds every
/// hex of the border that lies in the sector; with fewer than three hexes
/// that parse there is no polygon, and the region is just those hexes.
pub proof fn law_border_region(hexes: Seq<Seq<char>>, sx: int, sy: int)
    ensures
        forall|x: (int, int)| #[trigger] region_cols(hexes, sx, sy, 32).contains(x) ==>
            sx * 32 + 1 <= x.0 <= sx * 32 + 32 && sy * 40 + 1 <= x.1 <= sy * 40 + 40,
        region_cols(hexes, sx, sy, 32).no_duplicates(),
        forall|h: Seq<char>| #[trigger] hexes.contains(h) && sector_cell(h, sx, sy) is Some
            ==> region_cols(hexes, sx, sy, 32).contains(sector_cell(h, sx, sy).unwrap()),
        border_polygon(hexes, sx, sy).len() < 3 ==> forall|x: (int, int)|
            #[trigger] region_cols(hexes, sx, sy, 32).contains(x) <==> border_hexes(hexes, sx, sy).contains(x),
{
    lemma_region_cols(hexes, sx, sy, 32);
    lemma_border_hexes_in_sector(hexes, sx, sy);
}

/// A sector position whose hexes, for every label `0000`..`9999`, have
/// absolute column and row that fit in `i32`.
pub open spec fn sector_in_range(sx: int, sy: int) -> bool {
    i32::MIN <= sx * 32 && sx * 32 + 99 <= i32::MAX && i32::MIN <= sy * 40 && sy * 40 + 99 <= i32::MAX
}

fn crosses_exec(p: (i64, i64), a: (i64, i64), b: (i64, i64)) -> (r: bool)
    requires
        -0x4_0000_0000 <= p.0 <= 0x4_0000_0000, -0x4_0000_0000 <= p.1 <= 0x4_0000_0000,
        -0x4_0000_0000 <= a.0 <= 0x4_0000_0000, -0x4_0000_0000 <= a.1 <= 0x4_0000_0000,
        -0x4_0000_0000 <= b.0 <= 0x4_0000_0000, -0x4_0000_0000 <= b.1 <= 0x4_0000_0000,
    ensures
        r == crosses((p.0 as int, p.1 as int), (a.0 as int, a.1 as int), (b.0 as int, b.1 as int)),
{
    if (a.1 > p.1) == (b.1 > p.1) {
        return false;
    }
    let dx: i128 = p.0 as i128 - a.0 as i128;
    let dy: i128 = b.1 as i128 - a.1 as i128;
    let ex: i128 = b.0 as i128 - a.0 as i128;
    let ey: i128 = p.1 as i128 - a.1 as i128;
    assert(-0x40_0000_0000_0000_0000 <= dx * dy <= 0x40_0000_0000_0000_0000) by (nonlinear_arith)
        requires -0x8_0000_0000 <= dx <= 0x8_0000_0000, -0x8_0000_0000 <= dy <= 0x8_0000_0000;
    assert(-0x40_0000_0000_0000_0000 <= ex * ey <= 0x40_0000_0000_0000_0000) by (nonlinear_arith)
        requires -0x8_0000_0000 <= ex <= 0x8_0000_0000, -0x8_0000_0000 <= ey <= 0x8_0000_0000;
    let lhs: i128 = dx * dy;
    let rhs: i128 = ex * ey;
    if b.1 - a.1 > 0 { lhs < rhs } else { lhs > rhs }
}

pub open spec fn poly_bounded(poly: Seq<(i64, i64)>) -> bool {
    forall|k: int| 0 <= k < poly.len() ==> -0x4_0000_0000 <= (#[trigger] poly[k]).0 <= 0x4_0000_0000
        && -0x4_0000_0000 <= poly[k].1 <= 0x4_0000_0000
}

pub open spec fn poly_view(poly: Seq<(i64, i64)>) -> Seq<(int, int)> {
    poly.map_values(|v: (i64, i64)| (v.0 as int, v.1 as int))
}

fn inside_exec(p: (i64, i64), poly: &Vec<(i64, i64)>) -> (r: bool)
    requires
        -0x4_0000_0000 <= p.0 <= 0x4_0000_0000, -0x4_0000_0000 <= p.1 <= 0x4_0000_0000,
        poly_bounded(poly@),
    ensures
        r == inside((p.0 as int, p.1 as int), poly_view(poly@)),
{
    let n = poly.len();
    if n < 3 {
        return false;
    }
    let ghost pv = poly_view(poly@);
    let ghost pp = (p.0 as int, p.1 as int);
    let mut odd = false;
    let mut i: usize = 0;
    while i < n
        invariant
            i <= n,
            n == poly@.len(),
            n >= 3,
            pv == poly_view(poly@),
            pp == (p.0 as int, p.1 as int),
            -0x4_0000_0000 <= p.0 <= 0x4_0000_0000, -0x4_0000_0000 <= p.1 <= 0x4_0000_0000,
            poly_bounded(poly@),
            odd == (crossings(pp, pv, i as int) % 2 == 1),
            crossings(pp, pv, i as int) >= 0,
        decreases n - i,
    {
        let j = if i == 0 { n - 1 } else { i - 1 };
        let c = crosses_exec(p, poly[i], poly[j]);
        assert(pv[i as int] == (poly@[i as int].0 as int, poly@[i as int].1 as int));
        assert(pv[j as int] == (poly@[j as int].0 as int, poly@[j as int].1 as int));
        if c {
            odd = !odd;
        }
        i += 1;
    }
    odd
}

fn contains_hex(set: &Vec<(i32, i32)>, h: (i32, i32)) -> (b: bool)
    ensures
        b == set@.map_values(|v: (i32, i32)| (v.0 as int, v.1 as int)).contains((h.0 as int, h.1 as int)),
{
    let ghost sv = set@.map_values(|v: (i32, i32)| (v.0 as int, v.1 as int));
    let mut i: usize = 0;
    while i < set.len()
        invariant
            i <= set@.len(),
            sv == set@.map_values(|v: (i32, i32)| (v.0 as int, v.1 as int)),
            forall|k: int| 0 <= k < i ==> sv[k] != (h.0 as int, h.1 as int),
        decreases set@.len() - i,
    {
        if set[i].0 == h.0 && set[i].1 == h.1 {
            assert(sv[i as int] == (h.0 as int, h.1 as int));
            return true;
        }
        i += 1;
    }
    false
}

/// Every hex of the sector at `(sx, sy)` inside a border: the border's own
/// hexes plus those whose centers fall within its polygon, column by column,
/// in absolute `(column, row)`.
pub fn border_region(hexes: &Vec<String>, sx: i32, sy: i32) -> (r: Vec<(i32, i32)>)
    requires
        sector_in_range(sx as int, sy as int),
    ensures
        r@.map_values(|v: (i32, i32)| (v.0 as int, v.1 as int))
            == region_cols(hexes@.map_values(|h: String| h@), sx as int, sy as int, 32),
{
    let ghost hv = hexes@.map_values(|h: String| h@);
    let mut poly: Vec<(i64, i64)> = Vec::new();
    let mut bset: Vec<(i32, i32)> = Vec::new();
    let mut k: usize = 0;
    while k < hexes.len()
        invariant
            k <= hexes@.len(),
            hv == hexes@.map_values(|h: String| h@),
            sector_in_range(sx as int, sy as int),
            poly_bounded(poly@),
            poly_view(poly@) == border_polygon(hv.subrange(0, k as int), sx as int, sy as int),
            bset@.map_values(|v: (i32, i32)| (v.0 as int, v.1 as int)) == border_hexes(hv.subrange(0, k as int), sx as int, sy as int),
        decreases hexes@.len() - k,
    {
        assert(hv.subrange(0, k + 1).drop_last() =~= hv.subrange(0, k as int));
        assert(hv.subrange(0, k + 1).last() == hexes@[k as int]@);
        let ghost pb = poly_view(poly@);
        let ghost bb = bset@.map_values(|v: (i32, i32)| (v.0 as int, v.1 as int));
        match parse_hex(hexes[k].as_str()) {
            Some((col, row)) => {
                proof {
                    let h = hexes@[k as int]@;
                    assert(is_digit(h[0]) && is_digit(h[1]) && is_digit(h[2]) && is_digit(h[3]));
                }
                assert(0 <= col <= 99 && 0 <= row <= 99);
                let wc: i64 = sx as i64 * 32 + col as i64;
                let wr: i64 = sy as i64 * 40 + row as i64;
                let y2: i64 = 2 * wr + if wc % 2 == 0 { 1 } else { 0 };
                poly.push((wc, y2));
                assert(poly_view(poly@) =~= pb.push((wc as int, y2 as int)));
                if 1 <= col && col <= 32 && 1 <= row && row <= 40 {
                    bset.push((wc as i32, wr as i32));
                    assert(bset@.map_values(|v: (i32, i32)| (v.0 as int, v.1 as int)) =~= bb.push((wc as int, wr as int)));
                } else {
                    assert(bb + Seq::<(int, int)>::empty() =~= bb);
                }
            },
            None => {
                assert(pb + Seq::<(int, int)>::empty() =~= pb);
                assert(bb + Seq::<(int, int)>::empty() =~= bb);
            },
        }
        k += 1;
    }
    assert(hv.subrange(0, hv.len() as int) =~= hv);
    let mut region: Vec<(i32, i32)> = Vec::new();
    let mut c: i32 = 1;
    assert(region@.map_values(|v: (i32, i32)| (v.0 as int, v.1 as int)) =~= region_cols(hv, sx as int, sy as int, 0));
    while c <= 32
        invariant
            1 <= c <= 33,
            sector_in_range(sx as int, sy as int),
            poly_bounded(poly@),
            poly_view(poly@) == border_polygon(hv, sx as int, sy as int),
            bset@.map_values(|v: (i32, i32)| (v.0 as int, v.1 as int)) == border_hexes(hv, sx as int, sy as int),
            region@.map_values(|v: (i32, i32)| (v.0 as int, v.1 as int)) == region_cols(hv, sx as int, sy as int, c - 1),
        decreases 33 - c,
    {
        let ghost before_cols = region@.map_values(|v: (i32, i32)| (v.0 as int, v.1 as int));
        let mut r: i32 = 1;
        assert(before_cols + region_rows(hv, sx as int, sy as int, c as int, 0) =~= before_cols);
        while r <= 40
            invariant
                1 <= r <= 41,
                1 <= c <= 32,
                sector_in_range(sx as int, sy as int),
                poly_bounded(poly@),
                poly_view(poly@) == border_polygon(hv, sx as int, sy as int),
                bset@.map_values(|v: (i32, i32)| (v.0 as int, v.1 as int)) == border_hexes(hv, sx as int, sy as int),
                region@.map_values(|v: (i32, i32)| (v.0 as int, v.1 as int)) == before_cols + region_rows(hv, sx as int, sy as int, c as int, r - 1),
            decreases 41 - r,
        {
            let wc: i32 = sx * 32 + c;
            let wr: i32 = sy * 40 + r;
            let y2: i64 = 2 * (wr as i64) + if wc % 2 == 0 { 1 } else { 0 };
            let ghost before = region@.map_values(|v: (i32, i32)| (v.0 as int, v.1 as int));
            if contains_hex(&bset, (wc, wr)) || inside_exec((wc as i64, y2), &poly) {
                region.push((wc, wr));
                assert(region@.map_values(|v: (i32, i32)| (v.0 as int, v.1 as int)) =~= before.push((wc as int, wr as int)));
            }
            r += 1;
        }
        c += 1;
    }
    region
}

} // verus!
