//! Helpers for generating a system view of a world.
use vstd::prelude::*;

use crate::astrometrics::{is_digit, digit_value};
use crate::text::{chars_of, str_eq, split_ws, ws_tokens, digits_value, string_from_chars, slice_to_vec};
use crate::like::ascii_upper;
use crate::dto::World;
use crate::world_util::{Pbg, pbg_decoded, split_pbg};
use crate::text::push_str_chars;

verus! {

/// `"ccrr"` → `(column, row)` when the hex is exactly four ASCII digits.
pub open spec fn hex_pair_of(s: Seq<char>) -> Option<(int, int)> {
    if s.len() == 4 && (forall|i: int| 0 <= i < 4 ==> #[trigger] is_digit(s[i])) {
        Some((digit_value(s[0]) * 10 + digit_value(s[1]), digit_value(s[2]) * 10 + digit_value(s[3])))
    } else {
        None
    }
}

/// Parse a four-digit hex into `(column, row)`.
pub fn parse_hex_pair(hex: &str) -> (r: Option<(u8, u8)>)
    ensures
        match r {
            Some((c, w)) => hex_pair_of(hex@) == Some((c as int, w as int)),
            None => hex_pair_of(hex@) is None,
        },
{
    let cs = chars_of(hex);
    if cs.len() != 4 {
        return None;
    }
    let mut i: usize = 0;
    while i < 4
        invariant
            cs@.len() == 4,
            cs@ == hex@,
            i <= 4,
            forall|j: int| 0 <= j < i ==> #[trigger] is_digit(cs@[j]),
        decreases 4 - i,
    {
        if !('0' <= cs[i] && cs[i] <= '9') {
            assert(!is_digit(cs@[i as int]));
            return None;
        }
        i += 1;
    }
    assert(is_digit(cs@[0]) && is_digit(cs@[1]) && is_digit(cs@[2]) && is_digit(cs@[3]));
    let d0 = (cs[0] as u32 - 48) as u8;
    let d1 = (cs[1] as u32 - 48) as u8;
    let d2 = (cs[2] as u32 - 48) as u8;
    let d3 = (cs[3] as u32 - 48) as u8;
    Some((d0 * 10 + d1, d2 * 10 + d3))
}

/// A luminosity-class (size) token of a stellar description.
pub open spec fn size_token(s: Seq<char>) -> bool {
    s == "Ia"@ || s == "Ib"@ || s == "II"@ || s == "III"@ || s == "IV"@ || s == "V"@ || s == "VI"@ || s == "D"@
}

pub fn is_size_token(s: &str) -> (b: bool)
    ensures
        b == size_token(s@),
{
    str_eq(s, "Ia") || str_eq(s, "Ib") || str_eq(s, "II") || str_eq(s, "III") || str_eq(s, "IV") || str_eq(s, "V")
        || str_eq(s, "VI") || str_eq(s, "D")
}

} // verus!

verus! {

// ── Stellar descriptions ────────────────────────────────────────────────────

/// A spectral class letter.
#[derive(Debug, Clone, Copy, PartialEq, Eq)]
pub enum SpectralClass {
    O,
    B,
    A,
    F,
    G,
    K,
    M,
}

/// A luminosity (size) class.
#[derive(Debug, Clone, Copy, PartialEq, Eq)]
pub enum SizeClass {
    Ia,
    Ib,
    II,
    III,
    IV,
    V,
    VI,
    D,
}

/// One star of a stellar description; a missing subtype is left for the
/// generator to roll.
#[derive(Debug, Clone, Copy, PartialEq, Eq)]
pub struct StellarSpec {
    pub spectral: SpectralClass,
    pub subtype: Option<u8>,
    pub size: SizeClass,
}

pub open spec fn spectral_of(c: char) -> Option<SpectralClass> {
    if c == 'O' {
        Some(SpectralClass::O)
    } else if c == 'B' {
        Some(SpectralClass::B)
    } else if c == 'A' {
        Some(SpectralClass::A)
    } else if c == 'F' {
        Some(SpectralClass::F)
    } else if c == 'G' {
        Some(SpectralClass::G)
    } else if c == 'K' {
        Some(SpectralClass::K)
    } else if c == 'M' {
        Some(SpectralClass::M)
    } else {
        None
    }
}

pub open spec fn size_of(t: Seq<char>) -> Option<SizeClass> {
    if t == "Ia"@ {
        Some(SizeClass::Ia)
    } else if t == "Ib"@ {
        Some(SizeClass::Ib)
    } else if t == "II"@ {
        Some(SizeClass::II)
    } else if t == "III"@ {
        Some(SizeClass::III)
    } else if t == "IV"@ {
        Some(SizeClass::IV)
    } else if t == "V"@ {
        Some(SizeClass::V)
    } else if t == "VI"@ {
        Some(SizeClass::VI)
    } else if t == "D"@ {
        Some(SizeClass::D)
    } else {
        None
    }
}

/// The end of the run of ASCII digits of `t` that starts at `j`.
pub open spec fn digit_end(t: Seq<char>, j: int) -> int
    decreases t.len() - j,
{
    if 0 <= j < t.len() && is_digit(t[j]) { digit_end(t, j + 1) } else { j }
}

/// A brown dwarf: `BD` in any ASCII case.
pub open spec fn is_brown_dwarf(t: Seq<char>) -> bool {
    t.len() == 2 && ascii_upper(t[0]) == 'B' && ascii_upper(t[1]) == 'D'
}

/// The digits after a star token's class letter, as a number (0 when none).
pub open spec fn subtype_digits(t: Seq<char>) -> int {
    digits_value(t.subrange(1, digit_end(t, 1)))
}

/// The stars described by the tokens from `i` on. A token is a class letter
/// `OBAFGKM`, an optional numeric subtype and a size, written in the same
/// token (`G2V`) or as the next one (`G2 V`); brown dwarfs (`BD`) and tokens
/// that fit neither form are skipped.
pub open spec fn stars_from(toks: Seq<Seq<char>>, i: int) -> Seq<(SpectralClass, Option<int>, SizeClass)>
    decreases toks.len() - i,
{
    if i < 0 || i >= toks.len() {
        Seq::empty()
    } else {
        let t = toks[i];
        if is_brown_dwarf(t) || t.len() == 0 {
            stars_from(toks, i + 1)
        } else {
            match spectral_of(t[0]) {
                None => stars_from(toks, i + 1),
                Some(sp) => {
                    let j = digit_end(t, 1);
                    let sub = if j > 1 { Some(subtype_digits(t)) } else { None };
                    if j < t.len() {
                        match size_of(t.subrange(j, t.len() as int)) {
                            Some(sz) => seq![(sp, sub, sz)] + stars_from(toks, i + 1),
                            None => stars_from(toks, i + 1),
                        }
                    } else if i + 1 < toks.len() && size_token(toks[i + 1]) {
                        match size_of(toks[i + 1]) {
                            Some(sz) => seq![(sp, sub, sz)] + stars_from(toks, i + 2),
                            None => stars_from(toks, i + 2),
                        }
                    } else {
                        stars_from(toks, i + 1)
                    }
                }
            }
        }
    }
}

/// Every star token's subtype fits in a byte.
pub open spec fn stellar_fits(s: Seq<char>) -> bool {
    forall|k: int| 0 <= k < ws_tokens(s).len() && (#[trigger] ws_tokens(s)[k]).len() > 0
        && spectral_of(ws_tokens(s)[k][0]) is Some ==> subtype_digits(ws_tokens(s)[k]) <= 255
}

pub open spec fn star_view(st: StellarSpec) -> (SpectralClass, Option<int>, SizeClass) {
    (st.spectral, match st.subtype {
        Some(v) => Some(v as int),
        None => None,
    }, st.size)
}

proof fn lemma_digit_end_bounds(t: Seq<char>, j: int)
    requires
        0 <= j <= t.len(),
    ensures
        j <= digit_end(t, j) <= t.len(),
        forall|m: int| j <= m < digit_end(t, j) ==> is_digit(#[trigger] t[m]),
        digit_end(t, j) < t.len() ==> !is_digit(t[digit_end(t, j)]),
    decreases t.len() - j,
{
    if j < t.len() && is_digit(t[j]) {
        lemma_digit_end_bounds(t, j + 1);
    }
}

proof fn lemma_digits_prefix_le(s: Seq<char>, k: int)
    requires
        0 <= k <= s.len(),
        forall|m: int| 0 <= m < s.len() ==> is_digit(#[trigger] s[m]),
    ensures
        0 <= digits_value(s.take(k)) <= digits_value(s),
    decreases s.len(),
{
    if s.len() > 0 {
        let d = s.drop_last();
        if k == s.len() {
            assert(s.take(k) =~= s);
            lemma_digits_prefix_le(d, d.len() as int);
            assert(d.take(d.len() as int) =~= d);
        } else {
            lemma_digits_prefix_le(d, k);
            assert(d.take(k) =~= s.take(k));
            lemma_digits_prefix_le(d, d.len() as int);
            assert(d.take(d.len() as int) =~= d);
        }
    } else {
        assert(s.take(k) =~= s);
    }
}

fn spectral_from(c: char) -> (r: Option<SpectralClass>)
    ensures
        r == spectral_of(c),
{
    if c == 'O' {
        Some(SpectralClass::O)
    } else if c == 'B' {
        Some(SpectralClass::B)
    } else if c == 'A' {
        Some(SpectralClass::A)
    } else if c == 'F' {
        Some(SpectralClass::F)
    } else if c == 'G' {
        Some(SpectralClass::G)
    } else if c == 'K' {
        Some(SpectralClass::K)
    } else if c == 'M' {
        Some(SpectralClass::M)
    } else {
        None
    }
}

fn size_from(t: &str) -> (r: Option<SizeClass>)
    ensures
        r == size_of(t@),
{
    if str_eq(t, "Ia") {
        Some(SizeClass::Ia)
    } else if str_eq(t, "Ib") {
        Some(SizeClass::Ib)
    } else if str_eq(t, "II") {
        Some(SizeClass::II)
    } else if str_eq(t, "III") {
        Some(SizeClass::III)
    } else if str_eq(t, "IV") {
        Some(SizeClass::IV)
    } else if str_eq(t, "V") {
        Some(SizeClass::V)
    } else if str_eq(t, "VI") {
        Some(SizeClass::VI)
    } else if str_eq(t, "D") {
        Some(SizeClass::D)
    } else {
        None
    }
}

/// The digit run after the class letter, and where it ends.
fn subtype_of(t: &Vec<char>) -> (r: (usize, Option<u8>))
    requires
        t@.len() > 0,
        subtype_digits(t@) <= 255,
    ensures
        r.0 as int == digit_end(t@, 1),
        match r.1 {
            Some(v) => r.0 > 1 && v as int == subtype_digits(t@),
            None => r.0 <= 1,
        },
{
    proof { lemma_digit_end_bounds(t@, 1); }
    let ghost run = t@.subrange(1, digit_end(t@, 1));
    let mut j: usize = 1;
    let mut v: u32 = 0;
    while j < t.len() && '0' <= t[j] && t[j] <= '9'
        invariant
            1 <= j <= digit_end(t@, 1),
            digit_end(t@, 1) <= t@.len(),
            run == t@.subrange(1, digit_end(t@, 1)),
            digits_value(run) <= 255,
            forall|m: int| 1 <= m < digit_end(t@, 1) ==> is_digit(#[trigger] t@[m]),
            digit_end(t@, 1) < t@.len() ==> !is_digit(t@[digit_end(t@, 1)]),
            v as int == digits_value(t@.subrange(1, j as int)),
        decreases t@.len() - j,
    {
        proof {
            assert(forall|m: int| 0 <= m < run.len() ==> is_digit(#[trigger] run[m]) ) by {
                assert forall|m: int| 0 <= m < run.len() implies is_digit(#[trigger] run[m]) by {
                    assert(run[m] == t@[m + 1]);
                }
            }
            if j as int == digit_end(t@, 1) {
                assert(is_digit(t@[j as int]));
            }
            assert(j < digit_end(t@, 1));
            lemma_digits_prefix_le(run, j as int);
            assert(run.take(j as int) =~= t@.subrange(1, j + 1));
            assert(t@.subrange(1, j + 1).drop_last() =~= t@.subrange(1, j as int));
        }
        v = v * 10 + (t[j] as u32 - 48);
        j += 1;
    }
    proof {
        if j < t@.len() && j < digit_end(t@, 1) {
            assert(is_digit(t@[j as int]));
        }
    }
    assert(j as int == digit_end(t@, 1));
    assert(t@.subrange(1, j as int) =~= run);
    if j > 1 {
        proof {
            assert(forall|m: int| 0 <= m < run.len() ==> is_digit(#[trigger] run[m]) ) by {
                assert forall|m: int| 0 <= m < run.len() implies is_digit(#[trigger] run[m]) by {
                    assert(run[m] == t@[m + 1]);
                }
            }
            lemma_digits_prefix_le(run, run.len() as int);
            assert(run.take(run.len() as int) =~= run);
        }
        assert(v <= 255);
        (j, Some(v as u8))
    } else {
        (j, None)
    }
}

/// Parse a stellar description like `"G2 V M9 V M6 V"` into its stars:
/// tolerant, skipping brown dwarfs (`BD`) and tokens not starting with a
/// spectral letter, and taking the size inline (`"G2V"`) or as the next
/// token (`"G2 V"`).
pub fn parse_stellar(s: &str) -> (r: Vec<StellarSpec>)
    requires
        stellar_fits(s@),
    ensures
        r@.map_values(|st: StellarSpec| star_view(st)) == stars_from(ws_tokens(s@), 0),
{
    let toks = split_ws(s);
    let ghost tv = toks@.map_values(|t: String| t@);
    assert(tv == ws_tokens(s@));
    let mut out: Vec<StellarSpec> = Vec::new();
    let mut i: usize = 0;
    while i < toks.len()
        invariant
            i <= toks@.len(),
            tv == toks@.map_values(|t: String| t@),
            tv == ws_tokens(s@),
            stellar_fits(s@),
            out@.map_values(|st: StellarSpec| star_view(st)) + stars_from(tv, i as int) == stars_from(tv, 0),
        decreases toks@.len() - i,
    {
        let ghost before = out@.map_values(|st: StellarSpec| star_view(st));
        let t = chars_of(toks[i].as_str());
        assert(t@ == tv[i as int]);
        let here = i;
        i += 1;
        let bd = t.len() == 2 && crate::like::upper_ascii(t[0]) == 'B' && crate::like::upper_ascii(t[1]) == 'D';
        if bd || t.len() == 0 {
            assert(stars_from(tv, here as int) == stars_from(tv, i as int));
            continue;
        }
        let sp = match spectral_from(t[0]) {
            Some(sp) => sp,
            None => {
                assert(stars_from(tv, here as int) == stars_from(tv, i as int));
                continue;
            },
        };
        assert(subtype_digits(tv[here as int]) <= 255);
        let (j, sub) = subtype_of(&t);
        let size = if j < t.len() {
            let rest = string_from_chars(&slice_to_vec(&t, j, t.len()));
            size_from(rest.as_str())
        } else if i < toks.len() && is_size_token(toks[i].as_str()) {
            let sz = size_from(toks[i].as_str());
            i += 1;
            sz
        } else {
            None
        };
        proof {
            let tt = tv[here as int];
            assert(!is_brown_dwarf(tt));
            assert(spectral_of(tt[0]) == Some(sp));
            if j < t.len() {
                assert(t@.subrange(j as int, t@.len() as int) == tt.subrange(j as int, tt.len() as int));
            }
        }
        match size {
            Some(size) => {
                let st = StellarSpec { spectral: sp, subtype: sub, size };
                assert(star_view(st).1 == (if j > 1 { Some(subtype_digits(tv[here as int])) } else { None::<int> }));
                assert(stars_from(tv, here as int) == seq![star_view(st)] + stars_from(tv, i as int));
                out.push(st);
                proof {
                    assert(out@.map_values(|x: StellarSpec| star_view(x)) =~= before.push(star_view(st)));
                    assert(before.push(star_view(st)) + stars_from(tv, i as int) =~= before + (seq![star_view(st)] + stars_from(tv, i as int)));
                }
            },
            None => {
                assert(stars_from(tv, here as int) == stars_from(tv, i as int));
            },
        }
    }
    assert(stars_from(tv, i as int) =~= Seq::<(SpectralClass, Option<int>, SizeClass)>::empty());
    assert(out@.map_values(|st: StellarSpec| star_view(st)) =~= stars_from(tv, 0));
    out
}

} // verus!

verus! {

// ── The shape of a system ───────────────────────────────────────────────────

/// What the system generator is asked for: the world's hex (which seeds it
/// with the sector name), its stars, and how many belts, gas giants and other
/// rocky planets the system holds besides the main world.
#[derive(Debug)]
pub struct SystemShape {
    pub hex: (u8, u8),
    pub stars: Vec<StellarSpec>,
    pub belts: usize,
    pub gas_giants: usize,
    pub planets: usize,
}

/// A count that is absent or negative counts as zero.
pub open spec fn count_or_zero(o: Option<i32>) -> int {
    match o {
        Some(v) => if v > 0 { v as int } else { 0 },
        None => 0,
    }
}

/// The other rocky planets: the worlds count less the main world, the belts
/// and the gas giants (at least zero); none when the count is unknown.
pub open spec fn other_planets(worlds: Option<u8>, belts: int, gas_giants: int) -> int {
    match worlds {
        Some(w) => if w - 1 - belts - gas_giants > 0 { w - 1 - belts - gas_giants } else { 0 },
        None => 0,
    }
}

/// The message for a world whose hex is not four digits.
pub open spec fn bad_hex_message(hex: Seq<char>) -> Seq<char> {
    "bad hex '"@ + hex + "'"@
}

/// The generator's input for a world: its hex pair, its stars, and the belt,
/// gas-giant and planet counts from its PBG and worlds count. Fails with a
/// message when the hex is not four digits.
pub fn system_shape(world: &World) -> (r: Result<SystemShape, String>)
    requires
        hex_pair_of(world.hex@) is Some ==> stellar_fits(world.stellar@),
    ensures
        match r {
            Ok(shape) => {
                &&& hex_pair_of(world.hex@) == Some((shape.hex.0 as int, shape.hex.1 as int))
                &&& shape.stars@.map_values(|st: StellarSpec| star_view(st)) == stars_from(ws_tokens(world.stellar@), 0)
                &&& exists|p: Pbg| #![auto] pbg_decoded(p, world.pbg@)
                    && shape.belts as int == count_or_zero(p.belts)
                    && shape.gas_giants as int == count_or_zero(p.gas_giants)
                    && shape.planets as int == other_planets(world.worlds, shape.belts as int, shape.gas_giants as int)
            },
            Err(m) => hex_pair_of(world.hex@) is None && m@ == bad_hex_message(world.hex@),
        },
{
    let hex = match parse_hex_pair(world.hex.as_str()) {
        Some(h) => h,
        None => {
            let mut msg: Vec<char> = Vec::new();
            push_str_chars(&mut msg, "bad hex '");
            push_str_chars(&mut msg, world.hex.as_str());
            push_str_chars(&mut msg, "'");
            return Err(string_from_chars(&msg));
        },
    };
    let stars = parse_stellar(world.stellar.as_str());
    let pbg = split_pbg(world.pbg.as_str());
    let belts: usize = match pbg.belts {
        Some(b) => if b > 0 { b as usize } else { 0 },
        None => 0,
    };
    let gas_giants: usize = match pbg.gas_giants {
        Some(g) => if g > 0 { g as usize } else { 0 },
        None => 0,
    };
    let planets: usize = match world.worlds {
        Some(w) => {
            let rest: i64 = w as i64 - 1 - belts as i64 - gas_giants as i64;
            if rest > 0 { rest as usize } else { 0 }
        },
        None => 0,
    };
    Ok(SystemShape { hex, stars, belts, gas_giants, planets })
}

} // verus!

verus! {

/// The value of the digit run of `t` from 1, capped at 256.
fn capped_subtype(t: &Vec<char>) -> (r: u32)
    requires
        t@.len() > 0,
    ensures
        r as int == (if subtype_digits(t@) > 255 { 256 } else { subtype_digits(t@) }),
{
    proof { lemma_digit_end_bounds(t@, 1); }
    let ghost run = t@.subrange(1, digit_end(t@, 1));
    let mut j: usize = 1;
    let mut v: u32 = 0;
    while j < t.len() && '0' <= t[j] && t[j] <= '9'
        invariant
            1 <= j <= digit_end(t@, 1),
            digit_end(t@, 1) <= t@.len(),
            forall|m: int| 1 <= m < digit_end(t@, 1) ==> is_digit(#[trigger] t@[m]),
            digit_end(t@, 1) < t@.len() ==> !is_digit(t@[digit_end(t@, 1)]),
            v as int == (if digits_value(t@.subrange(1, j as int)) > 255 { 256 } else { digits_value(t@.subrange(1, j as int)) }),
        decreases t@.len() - j,
    {
        proof {
            if j as int == digit_end(t@, 1) {
                assert(is_digit(t@[j as int]));
            }
            assert(t@.subrange(1, j + 1).drop_last() =~= t@.subrange(1, j as int));
            crate::text::lemma_digits_value_nonneg(t@.subrange(1, j as int));
        }
        let d = t[j] as u32 - 48;
        v = if v > 255 { 256 } else if v * 10 + d > 255 { 256 } else { v * 10 + d };
        j += 1;
    }
    proof {
        if j < t@.len() && j < digit_end(t@, 1) {
            assert(is_digit(t@[j as int]));
        }
    }
    assert(j as int == digit_end(t@, 1));
    v
}

/// Does every star token's subtype fit in a byte (what [`parse_stellar`]
/// needs)?
pub fn stellar_subtypes_fit(s: &str) -> (b: bool)
    ensures
        b == stellar_fits(s@),
{
    let toks = split_ws(s);
    let ghost tv = toks@.map_values(|t: String| t@);
    let mut i: usize = 0;
    while i < toks.len()
        invariant
            i <= toks@.len(),
            tv == toks@.map_values(|t: String| t@),
            tv == ws_tokens(s@),
            forall|k: int| 0 <= k < i && (#[trigger] tv[k]).len() > 0 && spectral_of(tv[k][0]) is Some
                ==> subtype_digits(tv[k]) <= 255,
        decreases toks@.len() - i,
    {
        let t = chars_of(toks[i].as_str());
        assert(t@ == tv[i as int]);
        if t.len() > 0 && spectral_from(t[0]).is_some() {
            if capped_subtype(&t) > 255 {
                assert(!stellar_fits(s@)) by {
                    assert(ws_tokens(s@)[i as int] == tv[i as int]);
                }
                return false;
            }
        }
        i += 1;
    }
    true
}

} // verus!
