//! The search query language: the query parser and the clause matcher.
//!
//! A query is a list of whitespace-separated terms, each optionally prefixed by
//! a field operator (`uwp:`, `in:`, `exact:`, …) and optionally quoted. Each
//! term becomes an AND clause; a record matches a query when it matches every
//! clause. Matching is case-insensitive: queries are lowercased here and index
//! records are expected to hold lowercased text.
use vstd::prelude::*;

use crate::like::{like_chars, spec_like, spec_soundex, soundex};
use crate::text::{chars_of, string_from_chars, is_ascii_ws, is_ascii_whitespace, is_ascii_digit, trim, all_digits, digits_value, spec_parse_in, parse_int_chars};

verus! {

/// Which item kinds a query may return.
#[derive(Debug, Clone, Copy, PartialEq, Eq, Structural)]
pub struct SearchTypes {
    pub sectors: bool,
    pub subsectors: bool,
    pub worlds: bool,
    pub labels: bool,
}

impl SearchTypes {
    /// No kinds at all.
    pub fn no_kinds() -> (t: SearchTypes)
        ensures
            t == (SearchTypes { sectors: false, subsectors: false, worlds: false, labels: false }),
    {
        SearchTypes { sectors: false, subsectors: false, worlds: false, labels: false }
    }

    /// Every kind: the default for a query.
    pub fn all_kinds() -> (t: SearchTypes)
        ensures
            t == (SearchTypes { sectors: true, subsectors: true, worlds: true, labels: true }),
    {
        SearchTypes { sectors: true, subsectors: true, worlds: true, labels: true }
    }

    /// Worlds only.
    pub fn only_worlds() -> (t: SearchTypes)
        ensures
            t == worlds_only(),
    {
        SearchTypes { sectors: false, subsectors: false, worlds: true, labels: false }
    }

    /// Sectors only.
    pub fn only_sectors() -> (t: SearchTypes)
        ensures
            t == sectors_only(),
    {
        SearchTypes { sectors: true, subsectors: false, worlds: false, labels: false }
    }

    /// Subsectors only.
    pub fn only_subsectors() -> (t: SearchTypes)
        ensures
            t == subsectors_only(),
    {
        SearchTypes { sectors: false, subsectors: true, worlds: false, labels: false }
    }
}

pub open spec fn worlds_only() -> SearchTypes {
    SearchTypes { sectors: false, subsectors: false, worlds: true, labels: false }
}

pub open spec fn sectors_only() -> SearchTypes {
    SearchTypes { sectors: true, subsectors: false, worlds: false, labels: false }
}

pub open spec fn subsectors_only() -> SearchTypes {
    SearchTypes { sectors: false, subsectors: true, worlds: false, labels: false }
}

/// The fields of one index record that clauses test. All text is expected to
/// be lowercased already.
pub struct SearchRecord<'a> {
    pub name: &'a str,
    pub uwp: &'a str,
    pub pbg: &'a str,
    pub zone: &'a str,
    pub alleg: &'a str,
    /// Space-delimited stellar tokens, e.g. `"m9 v"`.
    pub stellar: &'a str,
    /// Space-delimited remark tokens, e.g. `"hi in cp"`.
    pub remarks: &'a str,
    pub ex: &'a str,
    pub cx: &'a str,
    /// Importance `{Ix}` value, when present.
    pub ix: Option<i32>,
    pub sector_name: &'a str,
}

/// One AND clause of a query.
#[derive(Debug, Clone, PartialEq)]
pub enum Clause {
    /// The name starts with the term, or has it right after a space.
    NameWordBoundary(String),
    /// The whole name matches the term as a `LIKE` pattern.
    NameLike(String),
    /// The name sounds like the term (equal SOUNDEX codes).
    NameSoundex(String),
    Uwp(String),
    Pbg(String),
    Zone(String),
    Alleg(String),
    Ex(String),
    Cx(String),
    /// The importance equals the value.
    Ix(i32),
    /// Some space-delimited stellar token matches the term.
    Stellar(String),
    /// Some space-delimited remark token matches the term.
    Remark(String),
    /// The sector name contains the term (`%term%`).
    InSector(String),
}

/// The mathematical content of a [`Clause`].
pub enum ClauseSpec {
    NameWordBoundary(Seq<char>),
    NameLike(Seq<char>),
    NameSoundex(Seq<char>),
    Uwp(Seq<char>),
    Pbg(Seq<char>),
    Zone(Seq<char>),
    Alleg(Seq<char>),
    Ex(Seq<char>),
    Cx(Seq<char>),
    Ix(int),
    Stellar(Seq<char>),
    Remark(Seq<char>),
    InSector(Seq<char>),
}

impl View for Clause {
    type V = ClauseSpec;

    open spec fn view(&self) -> ClauseSpec {
        match self {
            Clause::NameWordBoundary(t) => ClauseSpec::NameWordBoundary(t@),
            Clause::NameLike(t) => ClauseSpec::NameLike(t@),
            Clause::NameSoundex(t) => ClauseSpec::NameSoundex(t@),
            Clause::Uwp(t) => ClauseSpec::Uwp(t@),
            Clause::Pbg(t) => ClauseSpec::Pbg(t@),
            Clause::Zone(t) => ClauseSpec::Zone(t@),
            Clause::Alleg(t) => ClauseSpec::Alleg(t@),
            Clause::Ex(t) => ClauseSpec::Ex(t@),
            Clause::Cx(t) => ClauseSpec::Cx(t@),
            Clause::Ix(n) => ClauseSpec::Ix(*n as int),
            Clause::Stellar(t) => ClauseSpec::Stellar(t@),
            Clause::Remark(t) => ClauseSpec::Remark(t@),
            Clause::InSector(t) => ClauseSpec::InSector(t@),
        }
    }
}

/// `(' ' + field + ' ') LIKE ('% ' + term + ' %')`: the term matches a whole
/// space-delimited token of the field.
pub open spec fn token_like_spec(field: Seq<char>, term: Seq<char>) -> bool {
    spec_like(seq!['%', ' '] + term + seq![' ', '%'], seq![' '] + field + seq![' '])
}

/// `name LIKE term + '%' OR name LIKE '% ' + term + '%'`.
pub open spec fn word_boundary_spec(name: Seq<char>, term: Seq<char>) -> bool {
    spec_like(term + seq!['%'], name) || spec_like(seq!['%', ' '] + term + seq!['%'], name)
}

/// The fields of a record as plain values.
pub struct RecordView {
    pub name: Seq<char>,
    pub uwp: Seq<char>,
    pub pbg: Seq<char>,
    pub zone: Seq<char>,
    pub alleg: Seq<char>,
    pub stellar: Seq<char>,
    pub remarks: Seq<char>,
    pub ex: Seq<char>,
    pub cx: Seq<char>,
    pub ix: Option<i32>,
    pub sector_name: Seq<char>,
}

pub open spec fn record_view(r: SearchRecord) -> RecordView {
    RecordView {
        name: r.name@, uwp: r.uwp@, pbg: r.pbg@, zone: r.zone@, alleg: r.alleg@, stellar: r.stellar@,
        remarks: r.remarks@, ex: r.ex@, cx: r.cx@, ix: r.ix, sector_name: r.sector_name@,
    }
}

/// Do fields `v` satisfy the clause?
pub open spec fn clause_holds(c: ClauseSpec, v: RecordView) -> bool {
    match c {
        ClauseSpec::NameWordBoundary(t) => word_boundary_spec(v.name, t),
        ClauseSpec::NameLike(t) => spec_like(t, v.name),
        ClauseSpec::NameSoundex(t) => spec_soundex(v.name) == spec_soundex(t),
        ClauseSpec::Uwp(t) => spec_like(t, v.uwp),
        ClauseSpec::Pbg(t) => spec_like(t, v.pbg),
        ClauseSpec::Zone(t) => spec_like(t, v.zone),
        ClauseSpec::Alleg(t) => spec_like(t, v.alleg),
        ClauseSpec::Ex(t) => spec_like(t, v.ex),
        ClauseSpec::Cx(t) => spec_like(t, v.cx),
        ClauseSpec::Ix(n) => v.ix matches Some(x) && x as int == n,
        ClauseSpec::Stellar(t) => token_like_spec(v.stellar, t),
        ClauseSpec::Remark(t) => token_like_spec(v.remarks, t),
        ClauseSpec::InSector(t) => spec_like(seq!['%'] + t + seq!['%'], v.sector_name),
    }
}

/// Does a record with these fields satisfy the clause?
pub open spec fn clause_matches(c: ClauseSpec, r: SearchRecord) -> bool {
    clause_holds(c, record_view(r))
}

/// Text the matcher can handle (leaves room for the wrapping pattern chars).
pub open spec fn fits(s: Seq<char>) -> bool {
    s.len() < usize::MAX - 8
}

pub open spec fn view_fits(v: RecordView) -> bool {
    fits(v.name) && fits(v.uwp) && fits(v.pbg) && fits(v.zone) && fits(v.alleg) && fits(v.stellar)
        && fits(v.remarks) && fits(v.ex) && fits(v.cx) && fits(v.sector_name)
}

pub open spec fn record_fits(r: SearchRecord) -> bool {
    view_fits(record_view(r))
}

pub open spec fn clause_fits(c: ClauseSpec) -> bool {
    match c {
        ClauseSpec::Ix(_) => true,
        ClauseSpec::NameWordBoundary(t) => fits(t),
        ClauseSpec::NameLike(t) => fits(t),
        ClauseSpec::NameSoundex(t) => fits(t),
        ClauseSpec::Uwp(t) => fits(t),
        ClauseSpec::Pbg(t) => fits(t),
        ClauseSpec::Zone(t) => fits(t),
        ClauseSpec::Alleg(t) => fits(t),
        ClauseSpec::Ex(t) => fits(t),
        ClauseSpec::Cx(t) => fits(t),
        ClauseSpec::Stellar(t) => fits(t),
        ClauseSpec::Remark(t) => fits(t),
        ClauseSpec::InSector(t) => fits(t),
    }
}

/// `a + b + c` as characters.
fn concat3(a: &[char], b: &[char], c: &[char]) -> (r: Vec<char>)
    ensures
        r@ == a@ + b@ + c@,
{
    let mut v: Vec<char> = Vec::new();
    let mut i: usize = 0;
    while i < a.len()
        invariant
            i <= a@.len(),
            v@ == a@.subrange(0, i as int),
        decreases a@.len() - i,
    {
        v.push(a[i]);
        i += 1;
        assert(v@ =~= a@.subrange(0, i as int));
    }
    let mut j: usize = 0;
    while j < b.len()
        invariant
            j <= b@.len(),
            v@ == a@ + b@.subrange(0, j as int),
        decreases b@.len() - j,
    {
        v.push(b[j]);
        j += 1;
        assert(v@ =~= a@ + b@.subrange(0, j as int));
    }
    let mut k: usize = 0;
    while k < c.len()
        invariant
            k <= c@.len(),
            v@ == a@ + b@ + c@.subrange(0, k as int),
        decreases c@.len() - k,
    {
        v.push(c[k]);
        k += 1;
        assert(v@ =~= a@ + b@ + c@.subrange(0, k as int));
    }
    assert(a@.subrange(0, a@.len() as int) =~= a@);
    assert(b@.subrange(0, b@.len() as int) =~= b@);
    assert(c@.subrange(0, c@.len() as int) =~= c@);
    v
}

fn no_chars() -> (v: Vec<char>)
    ensures
        v@ == Seq::<char>::empty(),
{
    Vec::new()
}

fn chars1(a: char) -> (v: Vec<char>)
    ensures
        v@ == seq![a],
{
    let mut v = Vec::new();
    v.push(a);
    v
}

fn chars2(a: char, b: char) -> (v: Vec<char>)
    ensures
        v@ == seq![a, b],
{
    let mut v = Vec::new();
    v.push(a);
    v.push(b);
    v
}

/// `LIKE` of `pre + term + post` against `text`.
fn like_wrapped(pre: &[char], term: &str, post: &[char], text: &str) -> (b: bool)
    requires
        pre@.len() <= 2,
        post@.len() <= 2,
        fits(term@),
        fits(text@),
    ensures
        b == spec_like(pre@ + term@ + post@, text@),
{
    let t = chars_of(term);
    let p = concat3(pre, &t, post);
    let x = chars_of(text);
    like_chars(&p, &x)
}

/// `LIKE` of `pre + term + post` against `' ' + field + ' '`.
fn token_like(field: &str, term: &str) -> (b: bool)
    requires
        fits(term@),
        fits(field@),
    ensures
        b == token_like_spec(field@, term@),
{
    let t = chars_of(term);
    let p = concat3(&chars2('%', ' '), &t, &chars2(' ', '%'));
    let f = chars_of(field);
    let x = concat3(&chars1(' '), &f, &chars1(' '));
    like_chars(&p, &x)
}

impl Clause {
    /// Does `record` satisfy this clause?
    pub fn matches(&self, record: &SearchRecord) -> (b: bool)
        requires
            clause_fits(self@),
            record_fits(*record),
        ensures
            b == clause_matches(self@, *record),
    {
        match self {
            Clause::NameWordBoundary(t) => {
                like_wrapped(&no_chars(), t.as_str(), &chars1('%'), record.name)
                    || like_wrapped(&chars2('%', ' '), t.as_str(), &chars1('%'), record.name)
            },
            Clause::NameLike(t) => like_wrapped(&no_chars(), t.as_str(), &no_chars(), record.name),
            Clause::NameSoundex(t) => {
                let a = soundex(record.name);
                let b = soundex(t.as_str());
                let ac = chars_of(a.as_str());
                let bc = chars_of(b.as_str());
                chars_eq(&ac, &bc)
            },
            Clause::Uwp(t) => like_wrapped(&no_chars(), t.as_str(), &no_chars(), record.uwp),
            Clause::Pbg(t) => like_wrapped(&no_chars(), t.as_str(), &no_chars(), record.pbg),
            Clause::Zone(t) => like_wrapped(&no_chars(), t.as_str(), &no_chars(), record.zone),
            Clause::Alleg(t) => like_wrapped(&no_chars(), t.as_str(), &no_chars(), record.alleg),
            Clause::Ex(t) => like_wrapped(&no_chars(), t.as_str(), &no_chars(), record.ex),
            Clause::Cx(t) => like_wrapped(&no_chars(), t.as_str(), &no_chars(), record.cx),
            Clause::Ix(n) => match record.ix {
                Some(v) => v == *n,
                None => false,
            },
            Clause::Stellar(t) => token_like(record.stellar, t.as_str()),
            Clause::Remark(t) => token_like(record.remarks, t.as_str()),
            Clause::InSector(t) => like_wrapped(&chars1('%'), t.as_str(), &chars1('%'), record.sector_name),
        }
    }
}

/// Equality of two character slices.
pub fn chars_eq(a: &[char], b: &[char]) -> (r: bool)
    ensures
        r == (a@ == b@),
{
    if a.len() != b.len() {
        return false;
    }
    let mut i: usize = 0;
    while i < a.len()
        invariant
            i <= a@.len(),
            a@.len() == b@.len(),
            forall|j: int| 0 <= j < i ==> a@[j] == b@[j],
        decreases a@.len() - i,
    {
        if a[i] != b[i] {
            return false;
        }
        i += 1;
    }
    assert(a@ =~= b@);
    true
}

// ── Parsing ─────────────────────────────────────────────────────────────────

/// The field operators a term may start with.
#[derive(Debug, Clone, Copy, PartialEq, Eq, Structural)]
pub enum Op {
    Uwp,
    Pbg,
    Zone,
    Alleg,
    Stellar,
    Remark,
    Exact,
    Like,
    In,
    Ix,
    Ex,
    Cx,
}

/// The prefix text of an operator.
pub open spec fn op_text(o: Op) -> Seq<char> {
    match o {
        Op::Uwp => seq!['u', 'w', 'p', ':'],
        Op::Pbg => seq!['p', 'b', 'g', ':'],
        Op::Zone => seq!['z', 'o', 'n', 'e', ':'],
        Op::Alleg => seq!['a', 'l', 'l', 'e', 'g', ':'],
        Op::Stellar => seq!['s', 't', 'e', 'l', 'l', 'a', 'r', ':'],
        Op::Remark => seq!['r', 'e', 'm', 'a', 'r', 'k', ':'],
        Op::Exact => seq!['e', 'x', 'a', 'c', 't', ':'],
        Op::Like => seq!['l', 'i', 'k', 'e', ':'],
        Op::In => seq!['i', 'n', ':'],
        Op::Ix => seq!['i', 'x', ':'],
        Op::Ex => seq!['e', 'x', ':'],
        Op::Cx => seq!['c', 'x', ':'],
    }
}

/// The operators in the order they are tried.
pub open spec fn op_order() -> Seq<Op> {
    seq![Op::Uwp, Op::Pbg, Op::Zone, Op::Alleg, Op::Stellar, Op::Remark, Op::Exact, Op::Like, Op::In, Op::Ix, Op::Ex, Op::Cx]
}

/// Does `q[i..]` start with `p`?
pub open spec fn starts_at(q: Seq<char>, i: int, p: Seq<char>) -> bool {
    0 <= i && i + p.len() <= q.len() && q.subrange(i, i + p.len()) == p
}

/// The first operator (in [`op_order`]) from position `k` of that order on
/// whose text starts `q[i..]`.
pub open spec fn op_from(q: Seq<char>, i: int, k: int) -> Option<Op>
    decreases 12 - k,
{
    if k < 0 || k >= 12 {
        None
    } else if starts_at(q, i, op_text(op_order()[k])) {
        Some(op_order()[k])
    } else {
        op_from(q, i, k + 1)
    }
}

/// The operator prefix at `q[i..]`, if any.
pub open spec fn op_at(q: Seq<char>, i: int) -> Option<Op> {
    op_from(q, i, 0)
}

/// End of the run of non-ASCII-whitespace characters starting at `j`.
pub open spec fn run_end(q: Seq<char>, j: int) -> int
    decreases q.len() - j,
{
    if j < 0 || j >= q.len() || is_ascii_ws(q[j]) { j } else { run_end(q, j + 1) }
}

/// Index of the first `"` at or after `j`.
pub open spec fn quote_from(q: Seq<char>, j: int) -> Option<int>
    decreases q.len() - j,
{
    if j < 0 || j >= q.len() { None } else if q[j] == '"' { Some(j) } else { quote_from(q, j + 1) }
}

/// End of the term starting at `j`: a quoted run `"…"` with at least one
/// character inside, or otherwise a run of non-whitespace characters.
pub open spec fn term_end(q: Seq<char>, j: int) -> int {
    if 0 <= j < q.len() && q[j] == '"' {
        match quote_from(q, j + 1) {
            Some(c) => if c > j + 1 { c + 1 } else { run_end(q, j) },
            None => run_end(q, j),
        }
    } else {
        run_end(q, j)
    }
}

/// The raw `(operator, term)` pairs of `q[i..]`.
pub open spec fn scan_terms(q: Seq<char>, i: int) -> Seq<(Option<Op>, Seq<char>)>
    decreases q.len() - i,
{
    if i < 0 || i >= q.len() {
        Seq::empty()
    } else if is_ascii_ws(q[i]) {
        scan_terms(q, i + 1)
    } else {
        let op = op_at(q, i);
        let j = match op { Some(o) => i + op_text(o).len(), None => i };
        let k = term_end(q, j);
        if k <= i || k > q.len() {
            Seq::empty()
        } else if op is None && k == j {
            scan_terms(q, k)
        } else {
            seq![(op, q.subrange(j, k))] + scan_terms(q, k)
        }
    }
}

/// A term with a trailing `"` added when it opens a quote it doesn't close.
pub open spec fn close_quote(t: Seq<char>) -> Seq<char> {
    if t.len() > 0 && t[0] == '"' && (t.last() != '"' || t.len() == 1) { t.push('"') } else { t }
}

/// Is the (closed) term quoted?
pub open spec fn is_quoted(t: Seq<char>) -> bool {
    t.len() >= 2 && t[0] == '"' && t.last() == '"'
}

/// The term's text, quotes removed.
pub open spec fn unquote(t: Seq<char>) -> Seq<char> {
    if is_quoted(t) { t.subrange(1, t.len() - 1) } else { t }
}

pub open spec fn has_wildcard(t: Seq<char>) -> bool {
    t.contains('%') || t.contains('_')
}

/// The effect of one term: the new result types and the clause it adds, if any.
pub open spec fn term_step(op: Option<Op>, raw: Seq<char>, types: SearchTypes) -> (SearchTypes, Option<ClauseSpec>) {
    let t0 = close_quote(raw);
    let quoted = is_quoted(t0);
    let t = unquote(t0);
    if t.len() == 0 {
        (types, None)
    } else {
        match op {
            Some(Op::Uwp) => (worlds_only(), Some(ClauseSpec::Uwp(t))),
            Some(Op::Pbg) => (worlds_only(), Some(ClauseSpec::Pbg(t))),
            Some(Op::Ix) => (worlds_only(), Some(ClauseSpec::Ix(
                match spec_parse_in(t, true, i32::MIN as int, i32::MAX as int) { Some(v) => v, None => i32::MIN as int }))),
            Some(Op::Ex) => (worlds_only(), Some(ClauseSpec::Ex(t))),
            Some(Op::Cx) => (worlds_only(), Some(ClauseSpec::Cx(t))),
            Some(Op::Zone) => (worlds_only(), Some(ClauseSpec::Zone(t))),
            Some(Op::Alleg) => (worlds_only(), Some(ClauseSpec::Alleg(t))),
            Some(Op::Stellar) => (worlds_only(), Some(ClauseSpec::Stellar(t))),
            Some(Op::Remark) => (worlds_only(), Some(ClauseSpec::Remark(t))),
            Some(Op::In) => (worlds_only(), Some(ClauseSpec::InSector(t))),
            Some(Op::Exact) => (types, Some(ClauseSpec::NameLike(t))),
            Some(Op::Like) => (types, Some(ClauseSpec::NameSoundex(t))),
            None => if quoted || has_wildcard(t) {
                (types, Some(ClauseSpec::NameLike(t)))
            } else if t == seq!['s', 'e', 'c', 't', 'o', 'r'] {
                (sectors_only(), None)
            } else if t == seq!['s', 'u', 'b', 's', 'e', 'c', 't', 'o', 'r'] {
                (subsectors_only(), None)
            } else if t == seq!['w', 'o', 'r', 'l', 'd'] {
                (worlds_only(), None)
            } else {
                (types, Some(ClauseSpec::NameWordBoundary(t)))
            },
        }
    }
}

/// Fold the terms left to right: the final types and the clauses in order.
pub open spec fn apply_terms(terms: Seq<(Option<Op>, Seq<char>)>, types: SearchTypes) -> (SearchTypes, Seq<ClauseSpec>)
    decreases terms.len(),
{
    if terms.len() == 0 {
        (types, Seq::empty())
    } else {
        let (t1, c) = term_step(terms[0].0, terms[0].1, types);
        let (tf, cs) = apply_terms(terms.drop_first(), t1);
        (tf, match c { Some(x) => seq![x] + cs, None => cs })
    }
}

/// The sector+hex shortcut: `Sector Name 0101`.
#[derive(Debug, Clone, PartialEq)]
pub struct SectorHex {
    pub sector_prefix: String,
    pub hex_x: i32,
    pub hex_y: i32,
}

/// A parsed query: the kinds to return, the AND clauses, or the sector+hex
/// shortcut. No clauses and no shortcut means no match.
#[derive(Debug, Clone, PartialEq)]
pub struct ParsedQuery {
    pub types: SearchTypes,
    pub clauses: Vec<Clause>,
    pub sector_hex: Option<SectorHex>,
}

/// The characters the sector part of the shortcut may hold: `[A-Za-z0-9!' ]`.
pub open spec fn sector_class(c: char) -> bool {
    ('a' <= c && c <= 'z') || ('A' <= c && c <= 'Z') || ('0' <= c && c <= '9') || c == '!' || c == '\'' || c == ' '
}

/// Index of the last `' '` in `q`.
pub open spec fn last_space(q: Seq<char>) -> Option<int>
    decreases q.len(),
{
    if q.len() == 0 {
        None
    } else if q.last() == ' ' {
        Some(q.len() - 1)
    } else {
        last_space(q.drop_last())
    }
}

/// The shortcut `^[A-Za-z0-9!' ]{3,} \d{4}$`: `(sector, hex_x, hex_y)`.
pub open spec fn spec_sector_hex(q: Seq<char>) -> Option<(Seq<char>, int, int)> {
    match last_space(q) {
        None => None,
        Some(ls) => {
            let sector = q.subrange(0, ls);
            let hex = q.subrange(ls + 1, q.len() as int);
            if hex.len() == 4 && all_digits(hex) && sector.len() >= 3
                && (forall|i: int| 0 <= i < sector.len() ==> #[trigger] sector_class(sector[i])) {
                let num = digits_value(hex);
                Some((sector, num / 100, num % 100))
            } else {
                None
            }
        },
    }
}

/// What [`parse_lowered_query`] returns, for a lowercased, trimmed query.
pub open spec fn spec_parse_lowered(q: Seq<char>, start: SearchTypes) -> (SearchTypes, Seq<ClauseSpec>, Option<(Seq<char>, int, int)>) {
    if q.len() == 0 {
        (start, Seq::empty(), None)
    } else if spec_sector_hex(q) is Some {
        (worlds_only(), Seq::empty(), spec_sector_hex(q))
    } else {
        let (t, cs) = apply_terms(scan_terms(q, 0), start);
        (t, cs, None)
    }
}

/// A blank query keeps the requested kinds and sets no condition; a query
/// naming a sector and hex asks for worlds only and sets no other condition.
pub proof fn law_parsed_query_shape(q: Seq<char>, start: SearchTypes)
    ensures
        q.len() == 0 ==> spec_parse_lowered(q, start) == (start, Seq::<ClauseSpec>::empty(), None::<(Seq<char>, int, int)>),
        spec_parse_lowered(q, start).2 is Some ==>
            spec_parse_lowered(q, start).1.len() == 0 && spec_parse_lowered(q, start).0 == worlds_only(),
{
}

/// The parsed query as plain values.
pub open spec fn query_view(p: ParsedQuery) -> (SearchTypes, Seq<ClauseSpec>, Option<(Seq<char>, int, int)>) {
    (p.types, p.clauses@.map_values(|c: Clause| c@), match p.sector_hex {
        Some(sh) => Some((sh.sector_prefix@, sh.hex_x as int, sh.hex_y as int)),
        None => None,
    })
}

/// What `str::to_lowercase` returns for `s` (full Unicode case mapping).
pub uninterp spec fn spec_lowercase(s: Seq<char>) -> Seq<char>;

/// Calls `str::to_lowercase`; its result is named [`spec_lowercase`] of the input.
#[verifier::external_body]
pub(crate) fn to_lowercase(s: &str) -> (r: String)
    ensures
        r@ == spec_lowercase(s@),
{
    s.to_lowercase()
}

/// Parse a query: trim it, lowercase it, then see [`parse_lowered_query`].
/// `start_types` is the caller's requested set of result kinds.
pub fn parse_query(query: &str, start_types: SearchTypes) -> (p: ParsedQuery)
    ensures
        query_view(p) == spec_parse_lowered(spec_lowercase(trim(query@)), start_types),
{
    let t = crate::text::trim_str(query);
    let l = to_lowercase(t.as_str());
    let q = chars_of(l.as_str());
    parse_lowered_query(&q, start_types)
}

/// Parse an already trimmed and lowercased query.
pub fn parse_lowered_query(q: &[char], start_types: SearchTypes) -> (p: ParsedQuery)
    ensures
        query_view(p) == spec_parse_lowered(q@, start_types),
{
    if q.len() == 0 {
        let p = ParsedQuery { types: start_types, clauses: Vec::new(), sector_hex: None };
        assert(p.clauses@.map_values(|c: Clause| c@) =~= Seq::<ClauseSpec>::empty());
        return p;
    }
    match parse_sector_hex(q) {
        Some(sh) => {
            let p = ParsedQuery { types: SearchTypes::only_worlds(), clauses: Vec::new(), sector_hex: Some(sh) };
            assert(p.clauses@.map_values(|c: Clause| c@) =~= Seq::<ClauseSpec>::empty());
            return p;
        },
        None => {},
    }
    let terms = parse_terms(q);
    let mut types = start_types;
    let mut clauses: Vec<Clause> = Vec::new();
    let mut i: usize = 0;
    let ghost all = spec_terms_view(terms@);
    assert(clauses@.map_values(|c: Clause| c@) + apply_terms(all, types).1 =~= apply_terms(all, types).1);
    assert(all.subrange(0, all.len() as int) =~= all);
    while i < terms.len()
        invariant
            i <= terms@.len(),
            all == spec_terms_view(terms@),
            all == scan_terms(q@, 0),
            apply_terms(all, start_types) == ({
                let (tf, cs) = apply_terms(all.subrange(i as int, all.len() as int), types);
                (tf, clauses@.map_values(|c: Clause| c@) + cs)
            }),
        decreases terms@.len() - i,
    {
        let (op, raw) = (terms[i].0, &terms[i].1);
        let ghost rest = all.subrange(i as int, all.len() as int);
        assert(rest.drop_first() =~= all.subrange(i + 1, all.len() as int));
        assert(rest[0] == (op, raw@));
        let ghost old_view = clauses@.map_values(|c: Clause| c@);
        let (nt, c) = apply_term(op, raw, types);
        let ghost cv: Option<ClauseSpec> = match c { Some(ref x) => Some(x@), None => None };
        types = nt;
        match c {
            Some(cl) => {
                clauses.push(cl);
                assert(clauses@.map_values(|c: Clause| c@) =~= old_view.push(cl@));
            },
            None => {},
        }
        i += 1;
        proof {
            let ghost v = clauses@.map_values(|c: Clause| c@);
            let (tf, cs) = apply_terms(all.subrange(i as int, all.len() as int), types);
            match cv {
                Some(x) => { assert(v + cs =~= old_view + (seq![x] + cs)); },
                None => { assert(v =~= old_view); },
            }
        }
    }
    let p = ParsedQuery { types, clauses, sector_hex: None };
    proof {
        assert(all.subrange(terms@.len() as int, all.len() as int) =~= Seq::<(Option<Op>, Seq<char>)>::empty());
        assert(p.clauses@.map_values(|c: Clause| c@) + Seq::<ClauseSpec>::empty() =~= p.clauses@.map_values(|c: Clause| c@));
    }
    p
}

/// Does `q[i..]` start with `p`?
fn starts_with_at(q: &[char], i: usize, p: &[char]) -> (b: bool)
    ensures
        b == starts_at(q@, i as int, p@),
{
    if i > q.len() || p.len() > q.len() - i {
        return false;
    }
    let mut k: usize = 0;
    while k < p.len()
        invariant
            k <= p@.len(),
            i + p@.len() <= q@.len(),
            q@.len() <= usize::MAX,
            forall|m: int| 0 <= m < k ==> q@[i + m] == p@[m],
        decreases p@.len() - k,
    {
        if q[i + k] != p[k] {
            assert(q@.subrange(i as int, i + p@.len())[k as int] == q@[i + k]);
            return false;
        }
        k += 1;
    }
    assert(q@.subrange(i as int, i + p@.len()) =~= p@);
    true
}

/// The operator at position `k` of [`op_order`].
fn op_of(k: usize) -> (o: Op)
    requires
        k < 12,
    ensures
        o == op_order()[k as int],
{
    match k {
        0 => Op::Uwp,
        1 => Op::Pbg,
        2 => Op::Zone,
        3 => Op::Alleg,
        4 => Op::Stellar,
        5 => Op::Remark,
        6 => Op::Exact,
        7 => Op::Like,
        8 => Op::In,
        9 => Op::Ix,
        10 => Op::Ex,
        _ => Op::Cx,
    }
}

/// The prefix text of an operator.
fn op_chars(o: Op) -> (v: Vec<char>)
    ensures
        v@ == op_text(o),
{
    match o {
        Op::Uwp => vec!['u', 'w', 'p', ':'],
        Op::Pbg => vec!['p', 'b', 'g', ':'],
        Op::Zone => vec!['z', 'o', 'n', 'e', ':'],
        Op::Alleg => vec!['a', 'l', 'l', 'e', 'g', ':'],
        Op::Stellar => vec!['s', 't', 'e', 'l', 'l', 'a', 'r', ':'],
        Op::Remark => vec!['r', 'e', 'm', 'a', 'r', 'k', ':'],
        Op::Exact => vec!['e', 'x', 'a', 'c', 't', ':'],
        Op::Like => vec!['l', 'i', 'k', 'e', ':'],
        Op::In => vec!['i', 'n', ':'],
        Op::Ix => vec!['i', 'x', ':'],
        Op::Ex => vec!['e', 'x', ':'],
        Op::Cx => vec!['c', 'x', ':'],
    }
}

proof fn lemma_op_from_starts(q: Seq<char>, i: int, k: int)
    ensures
        op_from(q, i, k) matches Some(o) ==> starts_at(q, i, op_text(o)),
    decreases 12 - k,
{
    if 0 <= k < 12 && !starts_at(q, i, op_text(op_order()[k])) {
        lemma_op_from_starts(q, i, k + 1);
    }
}

/// The operator prefix at `q[i..]`, if any.
fn find_op(q: &[char], i: usize) -> (r: Option<Op>)
    ensures
        r == op_at(q@, i as int),
{
    let mut k: usize = 0;
    while k < 12
        invariant
            k <= 12,
            op_at(q@, i as int) == op_from(q@, i as int, k as int),
        decreases 12 - k,
    {
        let o = op_of(k);
        let t = op_chars(o);
        if starts_with_at(q, i, &t) {
            return Some(o);
        }
        k += 1;
    }
    None
}

/// End of the non-whitespace run starting at `j`.
fn run_end_exec(q: &[char], j: usize) -> (r: usize)
    requires
        j <= q@.len(),
    ensures
        r as int == run_end(q@, j as int),
        j <= r <= q@.len(),
{
    let mut k = j;
    while k < q.len() && !is_ascii_whitespace(q[k])
        invariant
            j <= k <= q@.len(),
            run_end(q@, j as int) == run_end(q@, k as int),
        decreases q@.len() - k,
    {
        k += 1;
    }
    k
}

/// The first `"` at or after `j`.
fn find_quote(q: &[char], j: usize) -> (r: Option<usize>)
    requires
        j <= q@.len(),
    ensures
        match r {
            Some(c) => quote_from(q@, j as int) == Some(c as int) && j <= c < q@.len(),
            None => quote_from(q@, j as int) is None,
        },
{
    let mut k = j;
    while k < q.len()
        invariant
            j <= k <= q@.len(),
            quote_from(q@, j as int) == quote_from(q@, k as int),
        decreases q@.len() - k,
    {
        if q[k] == '"' {
            return Some(k);
        }
        k += 1;
    }
    None
}

/// End of the term starting at `j` (see [`term_end`]).
fn term_end_exec(q: &[char], j: usize) -> (r: usize)
    requires
        j <= q@.len(),
    ensures
        r as int == term_end(q@, j as int),
        j <= r <= q@.len(),
{
    if j < q.len() && q[j] == '"' {
        match find_quote(q, j + 1) {
            Some(c) => if c > j + 1 { c + 1 } else { run_end_exec(q, j) },
            None => run_end_exec(q, j),
        }
    } else {
        run_end_exec(q, j)
    }
}

/// Split a query into `(operator, raw term)` pairs (see [`scan_terms`]).
pub fn parse_terms(q: &[char]) -> (r: Vec<(Option<Op>, Vec<char>)>)
    ensures
        spec_terms_view(r@) == scan_terms(q@, 0),
{
    let mut out: Vec<(Option<Op>, Vec<char>)> = Vec::new();
    let mut i: usize = 0;
    assert(spec_terms_view(out@) + scan_terms(q@, 0) =~= scan_terms(q@, 0));
    while i < q.len()
        invariant
            i <= q@.len(),
            scan_terms(q@, 0) == spec_terms_view(out@) + scan_terms(q@, i as int),
        decreases q@.len() - i,
    {
        if is_ascii_whitespace(q[i]) {
            i += 1;
            continue;
        }
        let op = find_op(q, i);
        let j: usize = match op {
            Some(o) => {
                proof { lemma_op_from_starts(q@, i as int, 0); }
                let t = op_chars(o);
                i + t.len()
            },
            None => i,
        };
        let k = term_end_exec(q, j);
        if k <= i {
            assert(scan_terms(q@, i as int) =~= Seq::<(Option<Op>, Seq<char>)>::empty());
            assert(spec_terms_view(out@) + Seq::<(Option<Op>, Seq<char>)>::empty() =~= spec_terms_view(out@));
            return out;
        }
        if op.is_none() && k == j {
            i = k;
        } else {
            let term = crate::text::slice_to_vec(q, j, k);
            let ghost before = spec_terms_view(out@);
            out.push((op, term));
            assert(spec_terms_view(out@) =~= before.push((op, q@.subrange(j as int, k as int))));
            assert(before + scan_terms(q@, i as int) =~= spec_terms_view(out@) + scan_terms(q@, k as int));
            i = k;
        }
    }
    assert(spec_terms_view(out@) + scan_terms(q@, i as int) =~= spec_terms_view(out@));
    out
}

/// The `Sector Name 0101` shortcut (see [`spec_sector_hex`]).
fn parse_sector_hex(q: &[char]) -> (r: Option<SectorHex>)
    ensures
        match r {
            Some(sh) => spec_sector_hex(q@) == Some((sh.sector_prefix@, sh.hex_x as int, sh.hex_y as int)),
            None => spec_sector_hex(q@) is None,
        },
{
    let mut k: usize = q.len();
    assert(q@.subrange(0, q@.len() as int) =~= q@);
    while k > 0 && q[k - 1] != ' '
        invariant
            k <= q@.len(),
            last_space(q@) == last_space(q@.subrange(0, k as int)),
        decreases k,
    {
        assert(q@.subrange(0, k as int).drop_last() =~= q@.subrange(0, k - 1));
        k -= 1;
    }
    if k == 0 {
        return None;
    }
    let ls = k - 1;
    assert(last_space(q@) == Some(ls as int));
    let ghost sector = q@.subrange(0, ls as int);
    let ghost hex = q@.subrange(ls + 1, q@.len() as int);
    if q.len() - k != 4 {
        assert(hex.len() != 4);
        return None;
    }
    let mut m: usize = k;
    while m < q.len()
        invariant
            k <= m <= q@.len(),
            q@.len() == k + 4,
            k == ls + 1,
            last_space(q@) == Some(ls as int),
            hex == q@.subrange(k as int, q@.len() as int),
            forall|i: int| k <= i < m ==> '0' <= #[trigger] q@[i] <= '9',
        decreases q@.len() - m,
    {
        if !is_ascii_digit(q[m]) {
            assert(!all_digits(hex)) by { assert(hex[m - k] == q@[m as int]); }
            return None;
        }
        m += 1;
    }
    assert(all_digits(hex)) by {
        assert forall|i: int| 0 <= i < hex.len() implies '0' <= #[trigger] hex[i] <= '9' by {
            assert(hex[i] == q@[k + i]);
        }
    }
    if ls < 3 {
        assert(sector.len() < 3);
        return None;
    }
    let mut s: usize = 0;
    while s < ls
        invariant
            s <= ls,
            ls < q@.len(),
            sector == q@.subrange(0, ls as int),
            hex == q@.subrange(ls + 1, q@.len() as int),
            hex.len() == 4,
            all_digits(hex),
            last_space(q@) == Some(ls as int),
            forall|i: int| 0 <= i < s ==> #[trigger] sector_class(q@[i]),
        decreases ls - s,
    {
        let c = q[s];
        if !(('a' <= c && c <= 'z') || ('A' <= c && c <= 'Z') || ('0' <= c && c <= '9') || c == '!' || c == '\'' || c == ' ') {
            assert(!sector_class(sector[s as int]));
            return None;
        }
        s += 1;
    }
    assert(forall|i: int| 0 <= i < sector.len() ==> #[trigger] sector_class(sector[i])) by {
        assert forall|i: int| 0 <= i < sector.len() implies #[trigger] sector_class(sector[i]) by {
            assert(sector[i] == q@[i]);
        }
    }
    let d0 = (q[k] as u32 - 48) as i32;
    let d1 = (q[k + 1] as u32 - 48) as i32;
    let d2 = (q[k + 2] as u32 - 48) as i32;
    let d3 = (q[k + 3] as u32 - 48) as i32;
    let num = d0 * 1000 + d1 * 100 + d2 * 10 + d3;
    proof {
        assert(hex[0] == q@[k as int] && hex[1] == q@[k + 1] && hex[2] == q@[k + 2] && hex[3] == q@[k + 3]);
        assert(hex.drop_last().drop_last().drop_last().drop_last().len() == 0);
        reveal_with_fuel(digits_value, 5);
        assert(digits_value(hex) == num as int);
    }
    let prefix = crate::text::slice_to_vec(q, 0, ls);
    Some(SectorHex { sector_prefix: string_from_chars(&prefix), hex_x: num / 100, hex_y: num % 100 })
}

/// The terms as plain values.
pub open spec fn spec_terms_view(t: Seq<(Option<Op>, Vec<char>)>) -> Seq<(Option<Op>, Seq<char>)> {
    t.map_values(|x: (Option<Op>, Vec<char>)| (x.0, x.1@))
}

/// Apply one term (see [`term_step`]).
fn apply_term(op: Option<Op>, raw: &Vec<char>, types: SearchTypes) -> (r: (SearchTypes, Option<Clause>))
    ensures
        r.0 == term_step(op, raw@, types).0,
        match r.1 {
            Some(c) => term_step(op, raw@, types).1 == Some(c@),
            None => term_step(op, raw@, types).1 is None,
        },
{
    let mut t: Vec<char> = raw.clone();
    if t.len() > 0 && t[0] == '"' && (t[t.len() - 1] != '"' || t.len() == 1) {
        t.push('"');
    }
    assert(t@ == close_quote(raw@));
    let quoted = t.len() >= 2 && t[0] == '"' && t[t.len() - 1] == '"';
    let term: Vec<char> = if quoted { crate::text::slice_to_vec(&t, 1, t.len() - 1) } else { t };
    assert(term@ == unquote(close_quote(raw@)));
    if term.len() == 0 {
        return (types, None);
    }
    let s = string_from_chars(&term);
    match op {
        Some(Op::Uwp) => (SearchTypes::only_worlds(), Some(Clause::Uwp(s))),
        Some(Op::Pbg) => (SearchTypes::only_worlds(), Some(Clause::Pbg(s))),
        Some(Op::Ix) => {
            let v = match parse_int_chars(&term, true, i32::MIN as i64, i32::MAX as i64) {
                Some(v) => v as i32,
                None => i32::MIN,
            };
            (SearchTypes::only_worlds(), Some(Clause::Ix(v)))
        },
        Some(Op::Ex) => (SearchTypes::only_worlds(), Some(Clause::Ex(s))),
        Some(Op::Cx) => (SearchTypes::only_worlds(), Some(Clause::Cx(s))),
        Some(Op::Zone) => (SearchTypes::only_worlds(), Some(Clause::Zone(s))),
        Some(Op::Alleg) => (SearchTypes::only_worlds(), Some(Clause::Alleg(s))),
        Some(Op::Stellar) => (SearchTypes::only_worlds(), Some(Clause::Stellar(s))),
        Some(Op::Remark) => (SearchTypes::only_worlds(), Some(Clause::Remark(s))),
        Some(Op::In) => (SearchTypes::only_worlds(), Some(Clause::InSector(s))),
        Some(Op::Exact) => (types, Some(Clause::NameLike(s))),
        Some(Op::Like) => (types, Some(Clause::NameSoundex(s))),
        None => {
            if quoted || contains_char(&term, '%') || contains_char(&term, '_') {
                (types, Some(Clause::NameLike(s)))
            } else if chars_eq(&term, &['s', 'e', 'c', 't', 'o', 'r']) {
                proof { assert(['s', 'e', 'c', 't', 'o', 'r']@ =~= seq!['s', 'e', 'c', 't', 'o', 'r']); }
                (SearchTypes::only_sectors(), None)
            } else if chars_eq(&term, &['s', 'u', 'b', 's', 'e', 'c', 't', 'o', 'r']) {
                proof { assert(['s', 'u', 'b', 's', 'e', 'c', 't', 'o', 'r']@ =~= seq!['s', 'u', 'b', 's', 'e', 'c', 't', 'o', 'r']); }
                (SearchTypes::only_subsectors(), None)
            } else if chars_eq(&term, &['w', 'o', 'r', 'l', 'd']) {
                proof { assert(['w', 'o', 'r', 'l', 'd']@ =~= seq!['w', 'o', 'r', 'l', 'd']); }
                (SearchTypes::only_worlds(), None)
            } else {
                proof {
                    assert(['s', 'e', 'c', 't', 'o', 'r']@ =~= seq!['s', 'e', 'c', 't', 'o', 'r']);
                    assert(['s', 'u', 'b', 's', 'e', 'c', 't', 'o', 'r']@ =~= seq!['s', 'u', 'b', 's', 'e', 'c', 't', 'o', 'r']);
                    assert(['w', 'o', 'r', 'l', 'd']@ =~= seq!['w', 'o', 'r', 'l', 'd']);
                }
                (types, Some(Clause::NameWordBoundary(s)))
            }
        },
    }
}

/// Does `s` contain `c`?
pub fn contains_char(s: &[char], c: char) -> (b: bool)
    ensures
        b == s@.contains(c),
{
    let mut i: usize = 0;
    while i < s.len()
        invariant
            i <= s@.len(),
            forall|j: int| 0 <= j < i ==> s@[j] != c,
        decreases s@.len() - i,
    {
        if s[i] == c {
            assert(s@[i as int] == c);
            return true;
        }
        i += 1;
    }
    false
}

// ── What each operator asks for ─────────────────────────────────────────────

/// A plain term: not empty, no ASCII whitespace, not opening a quote.
pub open spec fn plain_term(t: Seq<char>) -> bool {
    &&& t.len() > 0
    &&& t[0] != '"'
    &&& forall|i: int| 0 <= i < t.len() ==> !is_ascii_ws(#[trigger] t[i])
}

proof fn lemma_run_to_end(q: Seq<char>, j: int)
    requires
        0 <= j <= q.len(),
        forall|i: int| j <= i < q.len() ==> !is_ascii_ws(#[trigger] q[i]),
    ensures
        run_end(q, j) == q.len(),
    decreases q.len() - j,
{
    if j < q.len() {
        lemma_run_to_end(q, j + 1);
    }
}

proof fn lemma_no_space(q: Seq<char>)
    requires
        forall|i: int| 0 <= i < q.len() ==> !is_ascii_ws(#[trigger] q[i]),
    ensures
        last_space(q) is None,
    decreases q.len(),
{
    if q.len() > 0 {
        assert(!is_ascii_ws(q[q.len() - 1]));
        assert forall|i: int| 0 <= i < q.drop_last().len() implies !is_ascii_ws(#[trigger] q.drop_last()[i]) by {
            assert(q.drop_last()[i] == q[i]);
        }
        lemma_no_space(q.drop_last());
    }
}

/// A query made of one operator and one plain term is that one term.
proof fn lemma_one_term(o: Op, t: Seq<char>, start: SearchTypes)
    requires
        plain_term(t),
        forall|i: int| 0 <= i < op_text(o).len() ==> !is_ascii_ws(#[trigger] op_text(o)[i]),
        op_at(op_text(o) + t, 0) == Some(o),
    ensures
        spec_parse_lowered(op_text(o) + t, start) == ({
            let (ty, c) = term_step(Some(o), t, start);
            (ty, match c { Some(x) => seq![x], None => Seq::empty() }, None::<(Seq<char>, int, int)>)
        }),
{
    let p = op_text(o);
    let q = p + t;
    assert forall|i: int| 0 <= i < q.len() implies !is_ascii_ws(#[trigger] q[i]) by {
        if i < p.len() { assert(q[i] == p[i]); } else { assert(q[i] == t[i - p.len()]); }
    }
    lemma_no_space(q);
    assert(q[p.len() as int] == t[0]);
    lemma_run_to_end(q, p.len() as int);
    assert(!is_ascii_ws(q[0]));
    assert(q.subrange(p.len() as int, q.len() as int) =~= t);
    assert(scan_terms(q, q.len() as int) == Seq::<(Option<Op>, Seq<char>)>::empty());
    assert(scan_terms(q, 0) =~= seq![(Some(o), t)]);
    let terms = seq![(Some(o), t)];
    assert(terms.drop_first() =~= Seq::<(Option<Op>, Seq<char>)>::empty());
    assert(close_quote(t) == t);
    assert(spec_sector_hex(q) is None);
    let (ty, c) = term_step(Some(o), t, start);
    assert(apply_terms(terms.drop_first(), ty) == (ty, Seq::<ClauseSpec>::empty()));
    assert(apply_terms(terms, start) == (ty, match c { Some(x) => seq![x] + Seq::<ClauseSpec>::empty(), None => Seq::<ClauseSpec>::empty() }));
    match c {
        Some(x) => { assert(seq![x] + Seq::<ClauseSpec>::empty() =~= seq![x]); },
        None => {},
    }
}

/// Each field operator followed by a plain term asks for worlds only and
/// sets exactly one condition on its own field: `uwp:`, `pbg:`, `zone:`,
/// `alleg:`, `stellar:`, `remark:`, `ex:` and `cx:` on the UWP, PBG, zone,
/// allegiance, stellar data, remarks, economic and cultural extensions, and
/// `in:` on the sector name; `exact:` sets a `LIKE` condition on the name and
/// `like:` a sound-alike one, both keeping the requested kinds.
pub proof fn law_operator_fields(t: Seq<char>, start: SearchTypes)
    requires
        plain_term(t),
    ensures
        spec_parse_lowered(seq!['u', 'w', 'p', ':'] + t, start) == (worlds_only(), seq![ClauseSpec::Uwp(t)], None::<(Seq<char>, int, int)>),
        spec_parse_lowered(seq!['p', 'b', 'g', ':'] + t, start) == (worlds_only(), seq![ClauseSpec::Pbg(t)], None::<(Seq<char>, int, int)>),
        spec_parse_lowered(seq!['z', 'o', 'n', 'e', ':'] + t, start) == (worlds_only(), seq![ClauseSpec::Zone(t)], None::<(Seq<char>, int, int)>),
        spec_parse_lowered(seq!['a', 'l', 'l', 'e', 'g', ':'] + t, start) == (worlds_only(), seq![ClauseSpec::Alleg(t)], None::<(Seq<char>, int, int)>),
        spec_parse_lowered(seq!['s', 't', 'e', 'l', 'l', 'a', 'r', ':'] + t, start) == (worlds_only(), seq![ClauseSpec::Stellar(t)], None::<(Seq<char>, int, int)>),
        spec_parse_lowered(seq!['r', 'e', 'm', 'a', 'r', 'k', ':'] + t, start) == (worlds_only(), seq![ClauseSpec::Remark(t)], None::<(Seq<char>, int, int)>),
        spec_parse_lowered(seq!['e', 'x', ':'] + t, start) == (worlds_only(), seq![ClauseSpec::Ex(t)], None::<(Seq<char>, int, int)>),
        spec_parse_lowered(seq!['c', 'x', ':'] + t, start) == (worlds_only(), seq![ClauseSpec::Cx(t)], None::<(Seq<char>, int, int)>),
        spec_parse_lowered(seq!['i', 'n', ':'] + t, start) == (worlds_only(), seq![ClauseSpec::InSector(t)], None::<(Seq<char>, int, int)>),
        spec_parse_lowered(seq!['e', 'x', 'a', 'c', 't', ':'] + t, start) == (start, seq![ClauseSpec::NameLike(t)], None::<(Seq<char>, int, int)>),
        spec_parse_lowered(seq!['l', 'i', 'k', 'e', ':'] + t, start) == (start, seq![ClauseSpec::NameSoundex(t)], None::<(Seq<char>, int, int)>),
{
    reveal_with_fuel(op_from, 13);
    let ops = seq![Op::Uwp, Op::Pbg, Op::Zone, Op::Alleg, Op::Stellar, Op::Remark, Op::Ex, Op::Cx, Op::In, Op::Exact, Op::Like];
    assert forall|k: int| 0 <= k < ops.len() implies op_at(op_text(#[trigger] ops[k]) + t, 0) == Some(ops[k]) by {
        let o = ops[k];
        let q = op_text(o) + t;
        assert(q.subrange(0, op_text(o).len() as int) =~= op_text(o));
        assert forall|m: int| 0 <= m < op_text(o).len() implies q[m] == #[trigger] op_text(o)[m] by {}
        let order = op_order();
        assert forall|m: int| 0 <= m < 12 && #[trigger] order[m] != o implies !starts_at(q, 0, op_text(order[m])) by {
            let pm = op_text(order[m]);
            if starts_at(q, 0, pm) {
                assert(q.subrange(0, pm.len() as int)[0] == pm[0]);
                assert(q.subrange(0, pm.len() as int)[1] == pm[1]);
                assert(q.subrange(0, pm.len() as int)[2] == pm[2]);
                if pm.len() > 3 { assert(q.subrange(0, pm.len() as int)[3] == pm[3]); }
            }
        }
    }
    assert forall|k: int| 0 <= k < ops.len() implies
        (forall|i: int| 0 <= i < op_text(#[trigger] ops[k]).len() ==> !is_ascii_ws(op_text(ops[k])[i])) by {}
    lemma_one_term(Op::Uwp, t, start);
    lemma_one_term(Op::Pbg, t, start);
    lemma_one_term(Op::Zone, t, start);
    lemma_one_term(Op::Alleg, t, start);
    lemma_one_term(Op::Stellar, t, start);
    lemma_one_term(Op::Remark, t, start);
    lemma_one_term(Op::Ex, t, start);
    lemma_one_term(Op::Cx, t, start);
    lemma_one_term(Op::In, t, start);
    lemma_one_term(Op::Exact, t, start);
    lemma_one_term(Op::Like, t, start);
}

} // verus!
