//! Small world tests used when building the route index and route sheets.
use vstd::prelude::*;

use crate::text::{chars_of, string_from_chars, push_int, int_decimal};
use crate::world_util::has_prefix;

verus! {

/// `n` written with at least two digits (`{:02}`): a leading zero for `0..=9`.
pub open spec fn two_wide(n: int) -> Seq<char> {
    if 0 <= n <= 9 { seq!['0'] + int_decimal(n) } else { int_decimal(n) }
}

fn push_two_wide(out: &mut Vec<char>, n: i32)
    ensures
        final(out)@ == old(out)@ + two_wide(n as int),
{
    if 0 <= n && n <= 9 {
        out.push('0');
    }
    push_int(out, n as i64);
    assert(final(out)@ =~= old(out)@ + two_wide(n as int)) by {
        if 0 <= n <= 9 {
            assert(out@ =~= old(out)@ + seq!['0'] + int_decimal(n as int));
        }
    }
}

/// A 1-based `(col, row)` written back as a hex label, e.g. `(1, 1)` → `"0101"`.
pub fn hex_label(col: i32, row: i32) -> (s: String)
    ensures
        s@ == two_wide(col as int) + two_wide(row as int),
{
    let mut v: Vec<char> = Vec::new();
    push_two_wide(&mut v, col);
    push_two_wide(&mut v, row);
    assert(v@ =~= two_wide(col as int) + two_wide(row as int));
    string_from_chars(&v)
}

/// An anomaly (deep-space object) has no ordinary UWP: empty or starting `?`.
pub fn is_anomaly(uwp: &str) -> (b: bool)
    ensures
        b == (uwp@.len() == 0 || uwp@[0] == '?'),
{
    let cs = chars_of(uwp);
    cs.len() == 0 || cs[0] == '?'
}

/// Is the allegiance one of the default Imperial codes (they start `Im`)?
pub fn is_default_imperial(allegiance: &str) -> (b: bool)
    ensures
        b == has_prefix(allegiance@, "Im"@),
{
    crate::world_util::starts_with_str(allegiance, "Im")
}

/// The value of a hexadecimal digit (`char::to_digit(16)`), if it is one.
pub open spec fn hex_digit_value(c: char) -> Option<int> {
    if '0' <= c && c <= '9' {
        Some(c as int - '0' as int)
    } else if 'a' <= c && c <= 'f' {
        Some(c as int - 'a' as int + 10)
    } else if 'A' <= c && c <= 'F' {
        Some(c as int - 'A' as int + 10)
    } else {
        None
    }
}

/// The hexadecimal value of `s[i]`, 0 when missing or not a hex digit.
pub open spec fn hex_digit_at(s: Seq<char>, i: int) -> int {
    if 0 <= i < s.len() {
        match hex_digit_value(s[i]) {
            Some(v) => v,
            None => 0,
        }
    } else {
        0
    }
}

fn hex_digit_at_exec(cs: &Vec<char>, i: usize) -> (v: u32)
    ensures
        v as int == hex_digit_at(cs@, i as int),
{
    if i >= cs.len() {
        return 0;
    }
    let c = cs[i];
    if '0' <= c && c <= '9' {
        c as u32 - '0' as u32
    } else if 'a' <= c && c <= 'f' {
        c as u32 - 'a' as u32 + 10
    } else if 'A' <= c && c <= 'F' {
        c as u32 - 'A' as u32 + 10
    } else {
        0
    }
}

/// Wilderness refuelling: a gas giant (third PBG digit) or surface water (UWP
/// hydrographics, its fourth character) above zero.
pub fn has_refuel(uwp: &str, pbg: &str) -> (b: bool)
    ensures
        b == (hex_digit_at(pbg@, 2) > 0 || hex_digit_at(uwp@, 3) > 0),
{
    let p = chars_of(pbg);
    let u = chars_of(uwp);
    hex_digit_at_exec(&p, 2) > 0 || hex_digit_at_exec(&u, 3) > 0
}

} // verus!
