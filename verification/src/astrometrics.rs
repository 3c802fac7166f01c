//! Coordinate math for the Traveller hex grid.
//!
//! A sector is 32×40 parsecs; hexes use a four-digit `ccrr` label (column
//! 01-32, row 01-40). World coordinates are absolute parsec offsets from the
//! Reference hex (column 01, row 40 of sector 0,0).
use vstd::prelude::*;

use crate::text::{chars_of, string_from_chars, digit_char, is_ascii_digit};

verus! {

/// Sector width in parsecs (hex columns).
pub const SECTOR_WIDTH: i32 = 32;
/// Sector height in parsecs (hex rows).
pub const SECTOR_HEIGHT: i32 = 40;
/// Subsector width in parsecs (a sector is 4×4 subsectors).
pub const SUBSECTOR_WIDTH: i32 = 8;
/// Subsector height in parsecs.
pub const SUBSECTOR_HEIGHT: i32 = 10;
/// Column of the Reference hex.
pub const REFERENCE_HEX_X: i32 = 1;
/// Row of the Reference hex.
pub const REFERENCE_HEX_Y: i32 = 40;

/// Integer division rounding toward zero (Rust's `/` on signed integers).
pub open spec fn tdiv(a: int, b: int) -> int {
    if a >= 0 { a / b } else { -((-a) / b) }
}

/// `(sector_x, sector_y, hex_x, hex_y)` → world-space `(x, y)`.
pub open spec fn spec_location_to_coordinates(sx: int, sy: int, hx: int, hy: int) -> (int, int) {
    (sx * 32 + (hx - 1), sy * 40 + (hy - 40))
}

/// World-space `(x, y)` → `(sector_x, sector_y, hex_x, hex_y)`: floor division
/// of the Reference-relative offsets, with 1-based hexes.
pub open spec fn spec_coordinates_to_location(x: int, y: int) -> (int, int, int, int) {
    (x / 32, (y + 39) / 40, x % 32 + 1, (y + 39) % 40 + 1)
}

pub open spec fn i32_fits(v: int) -> bool {
    i32::MIN <= v <= i32::MAX
}

/// Convert a sector grid position and 1-based hex to world-space parsecs.
pub fn location_to_coordinates(sx: i32, sy: i32, hx: i32, hy: i32) -> (r: (i32, i32))
    requires
        i32_fits(sx * 32),
        i32_fits(sy * 40),
        i32_fits(hx - 1),
        i32_fits(hy - 40),
        i32_fits(sx * 32 + (hx - 1)),
        i32_fits(sy * 40 + (hy - 40)),
    ensures
        (r.0 as int, r.1 as int) == spec_location_to_coordinates(sx as int, sy as int, hx as int, hy as int),
{
    let x = sx * SECTOR_WIDTH + (hx - REFERENCE_HEX_X);
    let y = sy * SECTOR_HEIGHT + (hy - REFERENCE_HEX_Y);
    (x, y)
}

/// Convert world-space parsecs back to a sector grid position and 1-based hex
/// (the inverse of [`location_to_coordinates`]).
pub fn coordinates_to_location(x: i32, y: i32) -> (r: (i32, i32, i32, i32))
    requires
        x >= i32::MIN + 31,
        x <= i32::MAX - 1,
        y <= i32::MAX - 40,
        y + 39 >= i32::MIN + 39,
    ensures
        (r.0 as int, r.1 as int, r.2 as int, r.3 as int) == spec_coordinates_to_location(x as int, y as int),
{
    let x = x + REFERENCE_HEX_X - 1;
    let y = y + REFERENCE_HEX_Y - 1;
    let sx = (x - if x < 0 { SECTOR_WIDTH - 1 } else { 0 }) / SECTOR_WIDTH;
    let sy = (y - if y < 0 { SECTOR_HEIGHT - 1 } else { 0 }) / SECTOR_HEIGHT;
    proof {
        lemma_floor_div_by_shift(x as int, 32);
        lemma_floor_div_by_shift(y as int, 40);
    }
    assert(sx * 32 <= x) by (nonlinear_arith) requires sx == (x as int) / 32, x as int >= (x as int / 32) * 32;
    let hx = x - sx * SECTOR_WIDTH + 1;
    let hy = y - sy * SECTOR_HEIGHT + 1;
    (sx, sy, hx, hy)
}

/// Shifting a negative dividend down by `d - 1` turns truncation into floor.
proof fn lemma_floor_div_by_shift(a: int, d: int)
    requires
        d > 0,
    ensures
        tdiv(if a < 0 { a - (d - 1) } else { a }, d) == a / d,
        a - (a / d) * d == a % d,
        0 <= a % d < d,
{
    if a < 0 {
        let b = a - (d - 1);
        let q = a / d;
        let r = a % d;
        assert(a == q * d + r && 0 <= r < d) by (nonlinear_arith) requires d > 0, q == a / d, r == a % d;
        // -b = -(q*d + r) + d - 1 = (-q - 1) * d + (d - 1 - r)
        assert(-b == (-q) * d + (d - 1 - r)) by (nonlinear_arith) requires b == a - (d - 1), a == q * d + r;
        assert((-b) / d == -q) by (nonlinear_arith) requires -b == (-q) * d + (d - 1 - r), 0 <= d - 1 - r < d, d > 0;
    } else {
        assert(a == (a / d) * d + a % d) by (nonlinear_arith) requires d > 0;
    }
    assert(a == (a / d) * d + a % d) by (nonlinear_arith) requires d > 0;
}

/// Absolute world coordinate in parsecs.
#[derive(Debug, Clone, Copy, PartialEq, Eq, Hash, Structural)]
pub struct Coord {
    pub x: i32,
    pub y: i32,
}

/// Cube coordinates of an even-q offset coordinate (even columns shifted down).
pub open spec fn cube(c: Coord) -> (int, int, int) {
    let q = c.x as int;
    let r = c.y as int - (c.x as int + c.x as int % 2) / 2;
    (q, r, -q - r)
}

pub open spec fn abs(v: int) -> int {
    if v < 0 { -v } else { v }
}

/// Twice the cube distance (the L1 distance of the cube coordinates).
pub open spec fn cube_l1(a: Coord, b: Coord) -> int {
    let (aq, ar, az) = cube(a);
    let (bq, br, bz) = cube(b);
    abs(aq - bq) + abs(ar - br) + abs(az - bz)
}

/// Hex distance on the offset-hex grid: the cube distance.
pub open spec fn spec_hex_distance(a: Coord, b: Coord) -> int {
    cube_l1(a, b) / 2
}

/// Hex distance of the Reference-centric absolute coordinates.
pub open spec fn spec_reference_hex_distance(a: Coord, b: Coord) -> int {
    let dx = b.x as int - a.x as int;
    let dy = b.y as int - a.y as int;
    let adx = abs(dx);
    let ody = dy + adx / 2 + if a.x % 2 == 0 && b.x % 2 != 0 { 1int } else { 0int };
    let m = if ody > adx { ody } else { adx };
    if adx - ody > m { adx - ody } else { m }
}

impl Coord {
    pub fn new(x: i32, y: i32) -> (c: Coord)
        ensures
            c.x == x,
            c.y == y,
    {
        Coord { x, y }
    }

    /// Hex distance (in parsecs) on the offset-hex grid, via cube coordinates.
    pub fn hex_distance(self, other: Coord) -> (d: i32)
        requires
            spec_hex_distance(self, other) <= i32::MAX,
        ensures
            d as int == spec_hex_distance(self, other),
    {
        hex_distance_wide(self, other) as i32
    }
}

/// Hex distance computed in 64 bits, so any two `i32` coordinates are fine.
pub fn hex_distance_wide(a: Coord, b: Coord) -> (d: i64)
    ensures
        d as int == spec_hex_distance(a, b),
        0 <= d <= 0x8_0000_0000,
{
    let (aq, ar, az) = cube_of(a);
    let (bq, br, bz) = cube_of(b);
    let s = abs_i64(aq - bq) + abs_i64(ar - br) + abs_i64(az - bz);
    s / 2
}

fn abs_i64(v: i64) -> (r: i64)
    requires
        v > i64::MIN,
    ensures
        r as int == abs(v as int),
{
    if v < 0 { -v } else { v }
}

fn cube_of(c: Coord) -> (r: (i64, i64, i64))
    ensures
        (r.0 as int, r.1 as int, r.2 as int) == cube(c),
        -0x1_0000_0000 <= r.0 <= 0x1_0000_0000,
        -0x2_0000_0000 <= r.1 <= 0x2_0000_0000,
        -0x4_0000_0000 <= r.2 <= 0x4_0000_0000,
{
    let q = c.x as i64;
    let m = if c.x % 2 == 0 { 0i64 } else { 1i64 };
    assert(m as int == (c.x as int) % 2);
    let h = (q + m) / 2;
    let r = c.y as i64 - h;
    (q, r, -q - r)
}

/// Hex distance between two Reference-centric absolute coordinates (the
/// reference parity convention: the Reference hex sits in an odd column).
pub fn reference_hex_distance(a: Coord, b: Coord) -> (d: i32)
    requires
        spec_reference_hex_distance(a, b) <= i32::MAX,
    ensures
        d as int == spec_reference_hex_distance(a, b),
{
    let dx = b.x as i64 - a.x as i64;
    let dy = b.y as i64 - a.y as i64;
    let adx = abs_i64(dx);
    let mut ody = dy + adx / 2;
    if a.x % 2 == 0 && b.x % 2 != 0 {
        ody += 1;
    }
    let m = if ody > adx { ody } else { adx };
    let r = if adx - ody > m { adx - ody } else { m };
    r as i32
}

/// `ccrr` → 1-based `(column, row)` when the label is exactly four ASCII digits.
pub open spec fn spec_parse_hex(s: Seq<char>) -> Option<(int, int)> {
    if s.len() == 4 && (forall|i: int| 0 <= i < 4 ==> #[trigger] is_digit(s[i])) {
        Some((digit_value(s[0]) * 10 + digit_value(s[1]), digit_value(s[2]) * 10 + digit_value(s[3])))
    } else {
        None
    }
}

pub open spec fn is_digit(c: char) -> bool {
    '0' <= c <= '9'
}

pub open spec fn digit_value(c: char) -> int {
    c as int - '0' as int
}

/// Parse a four-digit hex label like `"1910"` into 1-based `(col, row)`.
pub fn parse_hex(hex: &str) -> (r: Option<(i32, i32)>)
    ensures
        match r {
            Some((c, w)) => spec_parse_hex(hex@) == Some((c as int, w as int)),
            None => spec_parse_hex(hex@) is None,
        },
{
    let cs = chars_of(hex);
    parse_hex_chars(&cs)
}

pub fn parse_hex_chars(cs: &[char]) -> (r: Option<(i32, i32)>)
    ensures
        match r {
            Some((c, w)) => spec_parse_hex(cs@) == Some((c as int, w as int)),
            None => spec_parse_hex(cs@) is None,
        },
{
    if cs.len() != 4 {
        return None;
    }
    let mut i: usize = 0;
    while i < 4
        invariant
            cs@.len() == 4,
            i <= 4,
            forall|j: int| 0 <= j < i ==> #[trigger] is_digit(cs@[j]),
        decreases 4 - i,
    {
        if !is_ascii_digit(cs[i]) {
            assert(!is_digit(cs@[i as int]));
            return None;
        }
        i += 1;
    }
    assert(is_digit(cs@[0]) && is_digit(cs@[1]) && is_digit(cs@[2]) && is_digit(cs@[3]));
    let d0 = (cs[0] as u32 - 48) as i32;
    let d1 = (cs[1] as u32 - 48) as i32;
    let d2 = (cs[2] as u32 - 48) as i32;
    let d3 = (cs[3] as u32 - 48) as i32;
    Some((d0 * 10 + d1, d2 * 10 + d3))
}

/// Column and row a hex label stands for, defaulting to `(1, 1)` when malformed.
pub open spec fn hex_or_origin(s: Seq<char>) -> (int, int) {
    match spec_parse_hex(s) {
        Some(p) => p,
        None => (1, 1),
    }
}

/// Subsector index `0..16` (A=0 … P=15) of a hex: `(col-1)/8 + (row-1)/10·4`
/// for a hex inside the sector (`0101`..`3240`), 0 for any other label.
pub open spec fn spec_subsector_index(s: Seq<char>) -> int {
    match spec_parse_hex(s) {
        Some((c, r)) => if 1 <= c <= 32 && 1 <= r <= 40 { (r - 1) / 10 * 4 + (c - 1) / 8 } else { 0 },
        None => 0,
    }
}

pub(crate) proof fn lemma_parse_hex_range(s: Seq<char>)
    ensures
        spec_parse_hex(s) matches Some((c, r)) ==> 0 <= c <= 99 && 0 <= r <= 99,
{
    if spec_parse_hex(s) is Some {
        assert(is_digit(s[0]) && is_digit(s[1]) && is_digit(s[2]) && is_digit(s[3]));
    }
}

/// Subsector index `0..16` (A=0 … P=15) of a world's hex.
pub fn subsector_index(hex: &str) -> (i: usize)
    ensures
        i as int == spec_subsector_index(hex@),
        i < 16,
{
    proof { lemma_parse_hex_range(hex@); }
    match parse_hex(hex) {
        Some((c, r)) => {
            if 1 <= c && c <= 32 && 1 <= r && r <= 40 {
                ((r - 1) / SUBSECTOR_HEIGHT * 4 + (c - 1) / SUBSECTOR_WIDTH) as usize
            } else {
                0
            }
        },
        None => 0,
    }
}

/// Subsector letter `'A'..='P'` of a world's hex.
pub fn subsector_letter(hex: &str) -> (c: char)
    ensures
        c as int == 'A' as int + spec_subsector_index(hex@),
{
    let i = subsector_index(hex);
    let b: u8 = 65u8 + i as u8;
    b as char
}

/// Quadrant index of a world's hex: `(col-1)/16 + (row-1)/20 * 4` with Rust's
/// truncating division, floored at zero.
pub open spec fn spec_quadrant_index(s: Seq<char>) -> int {
    let (c, r) = hex_or_origin(s);
    let v = tdiv(c - 1, 16) + tdiv(r - 1, 20) * 4;
    if v < 0 { 0 } else { v }
}

/// Quadrant index of a world's hex.
pub fn quadrant_index(hex: &str) -> (i: usize)
    ensures
        i as int == spec_quadrant_index(hex@),
{
    proof { lemma_parse_hex_range(hex@); }
    let (c, r) = match parse_hex(hex) {
        Some(p) => p,
        None => (1, 1),
    };
    let qc = (c - 1) / (SUBSECTOR_WIDTH * 2);
    let qr = (r - 1) / (SUBSECTOR_HEIGHT * 2);
    let v = qc + qr * 4;
    if v < 0 { 0 } else { v as usize }
}

/// Two zero-padded decimal digits of `v` (`0 <= v < 100`).
pub open spec fn two_digits(v: int) -> Seq<char> {
    seq![(v / 10 + '0' as int) as char, (v % 10 + '0' as int) as char]
}

/// A hex relative to its subsector origin, e.g. `"0911"` → `"0101"`.
pub open spec fn spec_subsector_hex(s: Seq<char>) -> Seq<char> {
    let (c, r) = hex_or_origin(s);
    two_digits((c - 1) % 8 + 1) + two_digits((r - 1) % 10 + 1)
}

/// A world's hex relative to its subsector origin (`"0911"` → `"0101"`).
pub fn subsector_hex(hex: &str) -> (s: String)
    ensures
        s@ == spec_subsector_hex(hex@),
{
    proof { lemma_parse_hex_range(hex@); }
    let (c, r) = match parse_hex(hex) {
        Some(p) => p,
        None => (1, 1),
    };
    let sc = rem_euclid_i32(c - 1, 8) + 1;
    assert(1 <= sc <= 8);
    let sr = rem_euclid_i32(r - 1, 10) + 1;
    let mut v: Vec<char> = Vec::new();
    v.push(digit_char((sc / 10) as u32));
    v.push(digit_char((sc % 10) as u32));
    v.push(digit_char((sr / 10) as u32));
    v.push(digit_char((sr % 10) as u32));
    assert(v@ == spec_subsector_hex(hex@));
    string_from_chars(&v)
}

fn rem_euclid_i32(a: i32, d: i32) -> (r: i32)
    requires
        d > 0,
        a >= -1,
    ensures
        r as int == (a as int) % (d as int),
{
    if a < 0 {
        assert((-1int) % (d as int) == d - 1) by (nonlinear_arith) requires d > 0;
        d - 1
    } else {
        a % d
    }
}

// ── Laws ────────────────────────────────────────────────────────────────────

/// Converting a sector position and an in-sector hex to world space and back
/// gives the same sector and hex.
pub proof fn law_location_roundtrip(sx: int, sy: int, hx: int, hy: int)
    requires
        1 <= hx <= 32,
        1 <= hy <= 40,
    ensures
        ({
            let (x, y) = spec_location_to_coordinates(sx, sy, hx, hy);
            spec_coordinates_to_location(x, y) == (sx, sy, hx, hy)
        }),
{
    let (x, y) = spec_location_to_coordinates(sx, sy, hx, hy);
    vstd::arithmetic::div_mod::lemma_fundamental_div_mod_converse(x, 32, sx, hx - 1);
    vstd::arithmetic::div_mod::lemma_fundamental_div_mod_converse(y + 39, 40, sy, hy - 1);
}

/// Every world-space coordinate lies in exactly one sector hex: converting to a
/// location and back is the identity, and the hex is always in `1..=32 × 1..=40`.
pub proof fn law_coordinates_roundtrip(x: int, y: int)
    ensures
        ({
            let (sx, sy, hx, hy) = spec_coordinates_to_location(x, y);
            &&& spec_location_to_coordinates(sx, sy, hx, hy) == (x, y)
            &&& 1 <= hx <= 32
            &&& 1 <= hy <= 40
        }),
{
    vstd::arithmetic::div_mod::lemma_fundamental_div_mod(x, 32);
    vstd::arithmetic::div_mod::lemma_fundamental_div_mod(y + 39, 40);
}

/// The cube coordinates of a hex always sum to zero, and `x + x % 2` is even,
/// so the cube row is exact.
proof fn lemma_cube_l1_even(a: Coord, b: Coord)
    ensures
        cube_l1(a, b) % 2 == 0,
        cube_l1(a, b) >= 0,
{
    let (aq, ar, az) = cube(a);
    let (bq, br, bz) = cube(b);
    let dq = aq - bq;
    let dr = ar - br;
    assert(az - bz == -dq - dr);
    // |dq| + |dr| + |dq + dr| is even: each absolute value has the parity of its argument.
    assert((abs(dq) + abs(dr) + abs(-dq - dr)) % 2 == 0) by {
        assert(abs(dq) % 2 == dq % 2 || abs(dq) == -dq);
    }
}

/// Hex distances are never negative.
pub proof fn lemma_hex_distance_nonneg(a: Coord, b: Coord)
    ensures
        spec_hex_distance(a, b) >= 0,
{
    lemma_cube_l1_even(a, b);
}

/// The hex distance from a hex to itself is zero, and only to itself.
pub proof fn law_hex_distance_zero(a: Coord, b: Coord)
    ensures
        spec_hex_distance(a, a) == 0,
        spec_hex_distance(a, b) == 0 ==> a == b,
{
    lemma_cube_l1_even(a, b);
    if spec_hex_distance(a, b) == 0 {
        assert(cube_l1(a, b) == 0);
        let (aq, ar, az) = cube(a);
        let (bq, br, bz) = cube(b);
        assert(aq == bq && ar == br);
        assert(a.x == b.x);
        assert(a.y == b.y);
    }
}

/// Hex distance is symmetric.
pub proof fn law_hex_distance_symmetric(a: Coord, b: Coord)
    ensures
        spec_hex_distance(a, b) == spec_hex_distance(b, a),
{
}

/// Hex distance obeys the triangle inequality.
pub proof fn law_hex_distance_triangle(a: Coord, b: Coord, c: Coord)
    ensures
        spec_hex_distance(a, c) <= spec_hex_distance(a, b) + spec_hex_distance(b, c),
{
    lemma_cube_l1_even(a, b);
    lemma_cube_l1_even(b, c);
    lemma_cube_l1_even(a, c);
    assert(cube_l1(a, c) <= cube_l1(a, b) + cube_l1(b, c));
}

/// The Reference-centric distance is symmetric too.
pub proof fn law_reference_hex_distance_symmetric(a: Coord, b: Coord)
    ensures
        spec_reference_hex_distance(a, b) == spec_reference_hex_distance(b, a),
{
}

} // verus!
