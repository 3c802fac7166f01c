//! Request and response shapes of the compatibility API.
use vstd::prelude::*;

use crate::text::{chars_of, string_from_chars, push_int, int_decimal, push_str_chars, parse_int_chars, spec_parse_in};
use crate::dto::{SectorIndexEntry, Subsector};
use crate::endpoints::{first_named, locate_sector, LookupError};
use crate::requests::{eq_ignore_case, eq_ignore_ascii_case, letter_index, sub_view};
use crate::like::ascii_upper;
use crate::astrometrics::{tdiv, coordinates_to_location, spec_coordinates_to_location};

verus! {

/// A `jsonp` query parameter, shared by every compatibility endpoint.
#[derive(Debug, Default)]
pub struct Jsonp {
    pub jsonp: Option<String>,
}

pub open spec fn is_ident_start(c: char) -> bool {
    c == '_' || ('a' <= c && c <= 'z') || ('A' <= c && c <= 'Z')
}

pub open spec fn is_ident_char(c: char) -> bool {
    is_ident_start(c) || ('0' <= c && c <= '9')
}

/// A simple JavaScript identifier: an ASCII letter or `_`, then ASCII letters,
/// digits or `_`. Only such a callback name may wrap a JSONP response.
pub open spec fn simple_js_identifier(s: Seq<char>) -> bool {
    s.len() > 0 && is_ident_start(s[0]) && (forall|i: int| 1 <= i < s.len() ==> #[trigger] is_ident_char(s[i]))
}

pub fn is_simple_js_identifier(s: &str) -> (b: bool)
    ensures
        b == simple_js_identifier(s@),
{
    let cs = chars_of(s);
    if cs.len() == 0 {
        return false;
    }
    let c0 = cs[0];
    if !(c0 == '_' || ('a' <= c0 && c0 <= 'z') || ('A' <= c0 && c0 <= 'Z')) {
        return false;
    }
    let mut i: usize = 1;
    while i < cs.len()
        invariant
            1 <= i <= cs@.len(),
            cs@ == s@,
            forall|k: int| 1 <= k < i ==> #[trigger] is_ident_char(cs@[k]),
        decreases cs@.len() - i,
    {
        let c = cs[i];
        if !(c == '_' || ('a' <= c && c <= 'z') || ('A' <= c && c <= 'Z') || ('0' <= c && c <= '9')) {
            assert(!is_ident_char(cs@[i as int]));
            return false;
        }
        i += 1;
    }
    true
}

/// The milieu a request means when it names none.
pub fn default_milieu() -> (s: String)
    ensures
        s@ == "M1105"@,
{
    "M1105".to_owned()
}

/// The query of the coordinates endpoint: a sector (by name or abbreviation)
/// with a hex or subsector, a sector grid position, or a world-space position.
#[derive(Debug)]
pub struct CoordinatesQuery {
    pub milieu: String,
    pub sector: Option<String>,
    pub hex: Option<String>,
    pub subsector: Option<String>,
    pub sx: Option<i32>,
    pub sy: Option<i32>,
    pub hx: Option<i32>,
    pub hy: Option<i32>,
    pub x: Option<i32>,
    pub y: Option<i32>,
}

impl Default for CoordinatesQuery {
    fn default() -> (q: Self)
        ensures
            q.milieu@ == "M1105"@,
            q.sector is None && q.hex is None && q.subsector is None,
            q.sx is None && q.sy is None && q.hx is None && q.hy is None && q.x is None && q.y is None,
    {
        CoordinatesQuery {
            milieu: default_milieu(),
            sector: None,
            hex: None,
            subsector: None,
            sx: None,
            sy: None,
            hx: None,
            hy: None,
            x: None,
            y: None,
        }
    }
}

/// A resolved location: sector, hex within it, and world-space position.
#[derive(Debug, Clone, Copy, PartialEq, Eq)]
pub struct CoordinatesResult {
    pub sx: i32,
    pub sy: i32,
    pub hx: i32,
    pub hy: i32,
    pub x: i32,
    pub y: i32,
}

/// `<tag>v</tag>`.
pub open spec fn int_element(tag: Seq<char>, v: int) -> Seq<char> {
    "<"@ + tag + ">"@ + int_decimal(v) + "</"@ + tag + ">"@
}

fn push_int_element(out: &mut Vec<char>, tag: &str, v: i32)
    ensures
        final(out)@ == old(out)@ + int_element(tag@, v as int),
{
    push_str_chars(out, "<");
    push_str_chars(out, tag);
    push_str_chars(out, ">");
    push_int(out, v as i64);
    push_str_chars(out, "</");
    push_str_chars(out, tag);
    push_str_chars(out, ">");
    assert(final(out)@ =~= old(out)@ + int_element(tag@, v as int));
}

impl CoordinatesResult {
    /// The XML form: `<Coordinates><sx>…</sx>…<y>…</y></Coordinates>` after
    /// the XML declaration.
    pub fn to_xml(&self) -> (s: String)
        ensures
            s@ == "<?xml version=\"1.0\" encoding=\"utf-8\"?>\n<Coordinates>"@ + int_element("sx"@, self.sx as int)
                + int_element("sy"@, self.sy as int) + int_element("hx"@, self.hx as int)
                + int_element("hy"@, self.hy as int) + int_element("x"@, self.x as int)
                + int_element("y"@, self.y as int) + "</Coordinates>"@,
    {
        let mut v: Vec<char> = Vec::new();
        push_str_chars(&mut v, "<?xml version=\"1.0\" encoding=\"utf-8\"?>\n<Coordinates>");
        push_int_element(&mut v, "sx", self.sx);
        push_int_element(&mut v, "sy", self.sy);
        push_int_element(&mut v, "hx", self.hx);
        push_int_element(&mut v, "hy", self.hy);
        push_int_element(&mut v, "x", self.x);
        push_int_element(&mut v, "y", self.y);
        push_str_chars(&mut v, "</Coordinates>");
        string_from_chars(&v)
    }
}


// ── Content negotiation ─────────────────────────────────────────────────────

/// How a compatibility endpoint answers, before its body is built.
#[derive(Debug, Clone, Copy, PartialEq, Eq, Structural)]
pub enum ReplyKind {
    /// `text/xml`: the XML form.
    Xml,
    /// `text/javascript`: the JSON wrapped in the JSONP callback.
    Script,
    /// `application/json`.
    Json,
    /// A bad request: the callback is no simple script identifier.
    BadCallback,
}

/// A `jsonp` callback wins; else XML when the client accepts it; else JSON.
/// A callback that is no simple identifier is refused.
pub open spec fn reply_kind_of(jsonp: Option<Seq<char>>, accept_xml: bool) -> ReplyKind {
    match jsonp {
        None => if accept_xml { ReplyKind::Xml } else { ReplyKind::Json },
        Some(cb) => if simple_js_identifier(cb) { ReplyKind::Script } else { ReplyKind::BadCallback },
    }
}

/// How to answer, given the `jsonp` parameter and whether the client asked
/// for XML.
pub fn reply_kind(jsonp: &Option<String>, accept_xml: bool) -> (k: ReplyKind)
    ensures
        k == reply_kind_of(crate::parse::opt_string_view(*jsonp), accept_xml),
{
    match jsonp {
        None => if accept_xml { ReplyKind::Xml } else { ReplyKind::Json },
        Some(cb) => if is_simple_js_identifier(cb.as_str()) { ReplyKind::Script } else { ReplyKind::BadCallback },
    }
}

/// The JSONP body: `callback(json);`.
pub fn script_body(callback: &str, json: &str) -> (s: String)
    ensures
        s@ == callback@ + "("@ + json@ + ");"@,
{
    let mut v: Vec<char> = Vec::new();
    push_str_chars(&mut v, callback);
    push_str_chars(&mut v, "(");
    push_str_chars(&mut v, json);
    push_str_chars(&mut v, ");");
    string_from_chars(&v)
}

/// The answer to a bad callback.
pub fn bad_callback_message() -> (s: String)
    ensures
        s@ == "the jsonp parameter must be a simple script identifier"@,
{
    "the jsonp parameter must be a simple script identifier".to_string()
}

/// `t` occurs in `s`.
pub open spec fn has_infix(s: Seq<char>, t: Seq<char>) -> bool {
    exists|i: int| 0 <= i <= s.len() - t.len() && #[trigger] s.subrange(i, i + t.len()) == t
}

/// Does an `Accept` header value ask for XML (`text/xml`, `application/xml`)?
pub fn wants_xml(accept: Option<&str>) -> (b: bool)
    ensures
        b == (accept matches Some(a) && has_infix(a@, "xml"@)),
{
    proof { reveal_strlit("xml"); }
    let a = match accept {
        Some(a) => a,
        None => return false,
    };
    let cs = chars_of(a);
    assert(accept == Some(a));
    if cs.len() < 3 {
        assert(!has_infix(a@, "xml"@));
        return false;
    }
    let mut i: usize = 0;
    let last = cs.len() - 2;
    while i < last
        invariant
            last == cs@.len() - 2,
            accept == Some(a),
            cs@ == a@,
            cs@.len() >= 3,
            i <= cs@.len() - 2,
            forall|j: int| 0 <= j < i ==> #[trigger] cs@.subrange(j, j + 3) != "xml"@,
        decreases cs@.len() - i,
    {
        proof { reveal_strlit("xml"); }
        if cs[i] == 'x' && cs[i + 1] == 'm' && cs[i + 2] == 'l' {
            assert(cs@.subrange(i as int, i + 3) =~= "xml"@);
            assert(a@.subrange(i as int, i + 3) == "xml"@ && 0 <= i <= a@.len() - 3);
            assert(has_infix(a@, "xml"@));
            assert(accept == Some(a));
            return true;
        }
        assert(cs@.subrange(i as int, i + 3) != "xml"@) by {
            if cs@.subrange(i as int, i + 3) == "xml"@ {
                assert(cs@.subrange(i as int, i + 3)[0] == cs@[i as int]);
                assert(cs@.subrange(i as int, i + 3)[1] == cs@[i + 1]);
                assert(cs@.subrange(i as int, i + 3)[2] == cs@[i + 2]);
            }
        }
        i += 1;
    }
    assert(!has_infix(a@, "xml"@)) by {
        if has_infix(a@, "xml"@) {
            let j = choose|j: int| 0 <= j <= a@.len() - 3 && #[trigger] a@.subrange(j, j + 3) == "xml"@;
            assert(cs@.subrange(j, j + 3) != "xml"@);
        }
    }
    false
}

// ── Resolving a coordinates query ──────────────────────────────────────────

/// Why a coordinates query resolves to no location.
#[derive(Debug, Clone, PartialEq, Eq)]
pub enum CoordinatesError {
    /// No sector answers to the name given.
    SectorNotFound(String),
    /// The sector has no subsector by the letter or name given.
    SubsectorNotFound(String),
    /// Neither a sector, nor a grid position, nor a world-space position.
    Unspecified,
}

/// What a [`CoordinatesError`] says, over plain text.
pub enum CoordinatesFailure {
    SectorNotFound(Seq<char>),
    SubsectorNotFound(Seq<char>),
    Unspecified,
}

impl View for CoordinatesError {
    type V = CoordinatesFailure;

    open spec fn view(&self) -> CoordinatesFailure {
        match self {
            CoordinatesError::SectorNotFound(n) => CoordinatesFailure::SectorNotFound(n@),
            CoordinatesError::SubsectorNotFound(n) => CoordinatesFailure::SubsectorNotFound(n@),
            CoordinatesError::Unspecified => CoordinatesFailure::Unspecified,
        }
    }
}

/// The text of the bad-request answer.
pub open spec fn unspecified_text() -> Seq<char> {
    "Must specify either sector name (and optional hex) or sx, sy (and optional hx, hy), or x, y (world-space coordinates)."@
}

impl CoordinatesError {
    /// The HTTP status: not found for an unknown sector or subsector, a bad
    /// request when nothing was specified.
    pub fn status(&self) -> (s: u16)
        ensures
            s == (match *self {
                CoordinatesError::Unspecified => 400u16,
                _ => 404u16,
            }),
    {
        match self {
            CoordinatesError::Unspecified => 400,
            _ => 404,
        }
    }

    /// The response text.
    pub fn message(&self) -> (s: String)
        ensures
            s@ == (match self@ {
                CoordinatesFailure::SectorNotFound(n) => "The specified sector '"@ + n + "' was not found."@,
                CoordinatesFailure::SubsectorNotFound(n) => "The specified subsector '"@ + n + "' was not found."@,
                CoordinatesFailure::Unspecified => unspecified_text(),
            }),
    {
        let mut v: Vec<char> = Vec::new();
        match self {
            CoordinatesError::SectorNotFound(n) => {
                push_str_chars(&mut v, "The specified sector '");
                push_str_chars(&mut v, n.as_str());
                push_str_chars(&mut v, "' was not found.");
            },
            CoordinatesError::SubsectorNotFound(n) => {
                push_str_chars(&mut v, "The specified subsector '");
                push_str_chars(&mut v, n.as_str());
                push_str_chars(&mut v, "' was not found.");
            },
            CoordinatesError::Unspecified => {
                push_str_chars(&mut v, "Must specify either sector name (and optional hex) or sx, sy (and optional hx, hy), or x, y (world-space coordinates).");
            },
        }
        string_from_chars(&v)
    }
}

/// The first subsector whose name equals `label` (ignoring ASCII case; an
/// empty label finds an unnamed subsector).
pub open spec fn titled_subsector(label: Seq<char>, subs: Seq<(Seq<char>, Seq<char>)>) -> Option<int>
    decreases subs.len(),
{
    if subs.len() == 0 {
        None
    } else {
        match titled_subsector(label, subs.drop_last()) {
            Some(i) => Some(i),
            None => if eq_ignore_case(subs.last().1, label) { Some(subs.len() - 1) } else { None },
        }
    }
}

/// A subsector `A`–`P` by its letter (any case), else by name: its index
/// `0..16` counted from `A`.
pub open spec fn lettered_subsector(label: Seq<char>, subs: Seq<(Seq<char>, Seq<char>)>) -> Option<int> {
    if label.len() == 1 && 'A' <= ascii_upper(label[0]) && ascii_upper(label[0]) <= 'P' {
        Some(ascii_upper(label[0]) as int - 'A' as int)
    } else {
        match titled_subsector(label, subs) {
            Some(i) => if subs[i].0.len() > 0 { Some(letter_index(subs[i].0[0])) } else { None },
            None => None,
        }
    }
}

/// The subsector a name finds has an index letter counted from `A`.
pub open spec fn lettered_ok(label: Seq<char>, subs: Seq<(Seq<char>, Seq<char>)>) -> bool {
    match titled_subsector(label, subs) {
        Some(i) => subs[i].0.len() > 0 ==> letter_index(subs[i].0[0]) >= 0,
        None => true,
    }
}

proof fn lemma_titled_prefix(label: Seq<char>, subs: Seq<(Seq<char>, Seq<char>)>, n: int)
    requires
        0 <= n <= subs.len(),
        titled_subsector(label, subs.subrange(0, n)) is Some,
    ensures
        titled_subsector(label, subs) == titled_subsector(label, subs.subrange(0, n)),
    decreases subs.len() - n,
{
    if n < subs.len() {
        assert(subs.subrange(0, n + 1).drop_last() =~= subs.subrange(0, n));
        lemma_titled_prefix(label, subs, n + 1);
    } else {
        assert(subs.subrange(0, n) =~= subs);
    }
}

fn lettered_subsector_index(label: &str, subsectors: &Vec<Subsector>) -> (r: Option<usize>)
    requires
        lettered_ok(label@, sub_view(subsectors@)),
    ensures
        match r {
            Some(i) => lettered_subsector(label@, sub_view(subsectors@)) == Some(i as int),
            None => lettered_subsector(label@, sub_view(subsectors@)) is None,
        },
{
    let cs = chars_of(label);
    if cs.len() == 1 {
        let c = crate::like::upper_ascii(cs[0]);
        if 'A' <= c && c <= 'P' {
            return Some((c as u32 - 'A' as u32) as usize);
        }
    }
    let ghost sv = sub_view(subsectors@);
    let mut i: usize = 0;
    while i < subsectors.len()
        invariant
            i <= subsectors@.len(),
            sv == sub_view(subsectors@),
            titled_subsector(label@, sv.subrange(0, i as int)) is None,
            lettered_ok(label@, sv),
            !(label@.len() == 1 && 'A' <= ascii_upper(label@[0]) && ascii_upper(label@[0]) <= 'P'),
        decreases subsectors@.len() - i,
    {
        let s = &subsectors[i];
        assert(sv.subrange(0, i + 1).drop_last() =~= sv.subrange(0, i as int));
        assert(sv.subrange(0, i + 1).last() == (s.index@, s.name@));
        if eq_ignore_ascii_case(s.name.as_str(), label) {
            proof {
                assert(titled_subsector(label@, sv.subrange(0, i + 1)) == Some(i as int));
                lemma_titled_prefix(label@, sv, i as int + 1);
            }
            let ic = chars_of(s.index.as_str());
            if ic.len() == 0 {
                return None;
            }
            let u = crate::like::upper_ascii(ic[0]);
            let b: u32 = (u as u32) % 256;
            assert(b as int == (ascii_upper(sv[i as int].0[0]) as int) % 256);
            return Some((b - 65) as usize);
        }
        i += 1;
    }
    assert(sv.subrange(0, sv.len() as int) =~= sv);
    None
}

/// Rust's truncating remainder, `a - b * (a / b)`.
pub open spec fn trem(a: int, b: int) -> int {
    a - b * tdiv(a, b)
}

/// The number a `hex` parameter gives: `0` when absent or not an `i32`.
pub open spec fn hex_number(hex: Option<String>) -> int {
    let s = match hex {
        Some(h) => h@,
        None => "0"@,
    };
    match spec_parse_in(s, true, i32::MIN as int, i32::MAX as int) {
        Some(v) => v,
        None => 0,
    }
}

/// The location `(sx, sy, hx, hy)` a coordinates query names, given the
/// subsectors of the sector it names. A sector (by name or abbreviation)
/// comes first, with a subsector (its centre hex) or a `ccrr` hex number
/// (`hex / 100`, `hex % 100`); then a grid position with an optional hex
/// (`0` when absent); then a world-space position.
pub open spec fn coordinates_for(sectors: Seq<SectorIndexEntry>, q: CoordinatesQuery, subs: Seq<(Seq<char>, Seq<char>)>)
    -> Result<(int, int, int, int), CoordinatesFailure>
{
    match q.sector {
        Some(name) => match first_named(sectors, name@, sectors.len() as int) {
            None => Err(CoordinatesFailure::SectorNotFound(name@)),
            Some(i) => {
                let sx = sectors[i].location.x as int;
                let sy = sectors[i].location.y as int;
                match q.subsector {
                    Some(sub) => match lettered_subsector(sub@, subs) {
                        None => Err(CoordinatesFailure::SubsectorNotFound(sub@)),
                        Some(k) => Ok((sx, sy, (k % 4) * 8 + 4, (k / 4) * 10 + 5)),
                    },
                    None => {
                        let h = hex_number(q.hex);
                        Ok((sx, sy, tdiv(h, 100), trem(h, 100)))
                    },
                }
            },
        },
        None => match (q.sx, q.sy) {
            (Some(sx), Some(sy)) => Ok((sx as int, sy as int,
                match q.hx { Some(v) => v as int, None => 0 },
                match q.hy { Some(v) => v as int, None => 0 })),
            _ => match (q.x, q.y) {
                (Some(x), Some(y)) => Ok(spec_coordinates_to_location(x as int, y as int)),
                _ => Err(CoordinatesFailure::Unspecified),
            },
        },
    }
}

/// A world-space query is used: no sector and no full grid position.
pub open spec fn uses_world_space(q: CoordinatesQuery) -> bool {
    q.sector is None && !(q.sx is Some && q.sy is Some) && q.x is Some && q.y is Some
}

fn hex_param(hex: &Option<String>) -> (h: i32)
    ensures
        h as int == hex_number(*hex),
{
    let cs = match hex {
        Some(s) => chars_of(s.as_str()),
        None => chars_of("0"),
    };
    proof { reveal_strlit("0"); }
    match parse_int_chars(&cs, true, i32::MIN as i64, i32::MAX as i64) {
        Some(v) => v as i32,
        None => 0,
    }
}

/// Resolve a coordinates query to `(sx, sy, hx, hy)`. `subsectors` are those
/// of the sector the query names (when it names one and a subsector).
pub fn resolve_coordinates(sectors: &Vec<SectorIndexEntry>, q: &CoordinatesQuery, subsectors: &Vec<Subsector>)
    -> (r: Result<(i32, i32, i32, i32), CoordinatesError>)
    requires
        q.subsector matches Some(sub) ==> lettered_ok(sub@, sub_view(subsectors@)),
        uses_world_space(*q) ==> q.x.unwrap() >= i32::MIN + 31 && q.x.unwrap() <= i32::MAX - 1
            && q.y.unwrap() <= i32::MAX - 40,
    ensures
        match r {
            Ok(t) => coordinates_for(sectors@, *q, sub_view(subsectors@)) == Ok::<(int, int, int, int), CoordinatesFailure>(
                (t.0 as int, t.1 as int, t.2 as int, t.3 as int)),
            Err(e) => coordinates_for(sectors@, *q, sub_view(subsectors@)) == Err::<(int, int, int, int), CoordinatesFailure>(e@),
        },
{
    if let Some(name) = &q.sector {
        let found = locate_sector(sectors, None, None, Some(name.as_str()));
        let i = match found {
            Ok(i) => i,
            Err(_) => {
                return Err(CoordinatesError::SectorNotFound(string_from_chars(&chars_of(name.as_str()))));
            },
        };
        let sx = sectors[i].location.x;
        let sy = sectors[i].location.y;
        if let Some(sub) = &q.subsector {
            match lettered_subsector_index(sub.as_str(), subsectors) {
                Some(k) => {
                    assert(k < 256);
                    let k = k as i32;
                    return Ok((sx, sy, (k % 4) * 8 + 4, (k / 4) * 10 + 5));
                },
                None => {
                    return Err(CoordinatesError::SubsectorNotFound(string_from_chars(&chars_of(sub.as_str()))));
                },
            }
        }
        let h = hex_param(&q.hex);
        let hx = h / 100;
        let hy = h - hx * 100;
        return Ok((sx, sy, hx, hy));
    }
    if let (Some(sx), Some(sy)) = (q.sx, q.sy) {
        let hx = match q.hx { Some(v) => v, None => 0 };
        let hy = match q.hy { Some(v) => v, None => 0 };
        return Ok((sx, sy, hx, hy));
    }
    if let (Some(x), Some(y)) = (q.x, q.y) {
        return Ok(coordinates_to_location(x, y));
    }
    Err(CoordinatesError::Unspecified)
}

} // verus!
